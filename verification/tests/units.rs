use rlox::dict::Dict;
use rlox::environment::Environment;
use rlox::interpreter::{is_equal, is_truthy, lookup_variable, resolve};
use rlox::number::{equal, integer_of, integer_string, integral_string, less, nan, negate};
use rlox::report::{error, error_at, report, runtime_error};
use rlox::scanner::keyword_of;
use rlox::text::{decimal_string, join3};
use rlox::token::{Literal, Token};
use rlox::token_type::TokenType;
use rlox::utils::{ExprId, Soo};

fn name(text: &str) -> Token {
    Token {
        typ: TokenType::Identifier,
        lexeme: text.to_string(),
        literal: Literal::IdentifierLiteral(text.to_string()),
        line: 1,
    }
}

fn number(value: f64) -> Literal {
    Literal::F64(value.to_bits())
}

fn as_number(value: Option<Literal>) -> f64 {
    match value {
        Some(Literal::F64(bits)) => f64::from_bits(bits),
        _ => panic!("no number"),
    }
}

#[test]
fn expr_id_counts_from_zero() {
    let mut id = ExprId::new();
    assert_eq!(id.next(), 0);
    assert_eq!(id.next(), 1);
    assert_eq!(id.next(), 2);
}

#[test]
fn soo_holds_either_kind_of_string() {
    let fixed: Soo = "fixed".into();
    let owned: Soo = String::from("owned").into();
    assert!(matches!(fixed, Soo::Static("fixed")));
    assert!(matches!(&owned, Soo::Owned(text) if text == "owned"));
    assert_eq!(fixed.to_string(), "fixed");
    assert_eq!(owned.to_string(), "owned");
    assert_eq!(owned.clone().to_string(), "owned");
}

#[test]
fn decimal_text() {
    assert_eq!(decimal_string(0), "0");
    assert_eq!(decimal_string(7), "7");
    assert_eq!(decimal_string(10), "10");
    assert_eq!(decimal_string(1234567890), "1234567890");
    assert_eq!(decimal_string(u64::MAX), "18446744073709551615");
    assert_eq!(join3("a", "bc", "d"), "abcd");
}

#[test]
fn integer_text() {
    assert_eq!(integer_string(0), "0");
    assert_eq!(integer_string(-1), "-1");
    assert_eq!(integer_string(42), "42");
    assert_eq!(integer_string(i64::MIN), "-9223372036854775808");
    assert_eq!(integer_string(i64::MAX), "9223372036854775807");
}

#[test]
fn integers_of_numbers() {
    assert_eq!(integer_of(0f64.to_bits()), Some(0));
    assert_eq!(integer_of((-0f64).to_bits()), Some(0));
    assert_eq!(integer_of(1f64.to_bits()), Some(1));
    assert_eq!(integer_of((-1f64).to_bits()), Some(-1));
    assert_eq!(integer_of(3f64.to_bits()), Some(3));
    assert_eq!(integer_of(1024f64.to_bits()), Some(1024));
    assert_eq!(integer_of(9007199254740991f64.to_bits()), Some(9007199254740991));
    assert_eq!(integer_of((-9007199254740991f64).to_bits()), Some(-9007199254740991));
    assert_eq!(integer_of(4503599627370496f64.to_bits()), Some(4503599627370496));
    assert_eq!(integer_of(9007199254740992f64.to_bits()), Some(9007199254740992));
    assert_eq!(integer_of(1e15f64.to_bits()), Some(1000000000000000));
    assert_eq!(integer_of(1e18f64.to_bits()), Some(1000000000000000000));
    assert_eq!(integer_of(0.5f64.to_bits()), None);
    assert_eq!(integer_of(1.5f64.to_bits()), None);
    assert_eq!(integer_of(4503599627370495.5f64.to_bits()), None);
    assert_eq!(integer_of(5e-324f64.to_bits()), None);
    assert_eq!(integer_of(f64::NAN.to_bits()), None);
    assert_eq!(integer_of(f64::INFINITY.to_bits()), None);
    assert_eq!(integer_of(f64::NEG_INFINITY.to_bits()), None);
}

#[test]
fn large_numbers_are_brought_into_range() {
    assert_eq!(integer_of(1e100f64.to_bits()), Some(i64::MAX));
    assert_eq!(integer_of((-1e100f64).to_bits()), Some(i64::MIN));
    assert_eq!(integer_of(9223372036854775808f64.to_bits()), Some(i64::MAX));
    assert_eq!(integer_of((-9223372036854775808f64).to_bits()), Some(i64::MIN));
    assert_eq!(integer_of(4611686018427387904f64.to_bits()), Some(4611686018427387904));
}

#[test]
fn integer_of_agrees_with_the_host_on_integral_values() {
    let mut value: i64 = 1;
    for _ in 0..60 {
        for candidate in [value - 1, value, value + 1, -value] {
            if candidate.abs() < (1i64 << 53) {
                let bits = (candidate as f64).to_bits();
                assert_eq!(integer_of(bits), Some(candidate));
                assert_eq!(integral_string(bits), Some(candidate.to_string()));
            }
        }
        value *= 2;
    }
}

#[test]
fn number_equality_follows_ieee() {
    let values = [
        0f64,
        -0f64,
        1f64,
        -1f64,
        0.5,
        1e300,
        -1e300,
        5e-324,
        f64::INFINITY,
        f64::NEG_INFINITY,
        f64::NAN,
        -f64::NAN,
    ];
    for a in values {
        for b in values {
            assert_eq!(equal(a.to_bits(), b.to_bits()), a == b, "{} == {}", a, b);
            assert_eq!(less(a.to_bits(), b.to_bits()), a < b, "{} < {}", a, b);
        }
        assert_eq!(nan(a.to_bits()), a.is_nan());
        assert_eq!(negate(a.to_bits()), (-a).to_bits());
    }
}

#[test]
fn truthiness_of_values() {
    assert!(!is_truthy(&Literal::Nil));
    assert!(!is_truthy(&Literal::BoolLiteral(false)));
    assert!(is_truthy(&Literal::BoolLiteral(true)));
    assert!(is_truthy(&number(0.0)));
    assert!(is_truthy(&Literal::StringLiteral(String::new())));
    assert!(is_truthy(&Literal::CallableLiteral(0)));
    assert!(is_truthy(&Literal::InstanceLiteral(0)));
}

#[test]
fn equality_of_values() {
    assert!(is_equal(&Literal::Nil, &Literal::Nil));
    assert!(!is_equal(&Literal::Nil, &Literal::BoolLiteral(false)));
    assert!(!is_equal(&Literal::BoolLiteral(false), &Literal::Nil));
    assert!(is_equal(&Literal::BoolLiteral(true), &Literal::BoolLiteral(true)));
    assert!(!is_equal(&Literal::BoolLiteral(true), &Literal::BoolLiteral(false)));
    assert!(is_equal(&number(2.0), &number(2.0)));
    assert!(!is_equal(&number(2.0), &number(3.0)));
    assert!(!is_equal(&number(f64::NAN), &number(f64::NAN)));
    assert!(is_equal(
        &Literal::StringLiteral("a".to_string()),
        &Literal::StringLiteral("a".to_string())
    ));
    assert!(!is_equal(
        &Literal::StringLiteral("a".to_string()),
        &Literal::StringLiteral("b".to_string())
    ));
    assert!(!is_equal(&Literal::StringLiteral("1".to_string()), &number(1.0)));
    assert!(is_equal(&Literal::CallableLiteral(3), &Literal::CallableLiteral(3)));
    assert!(!is_equal(&Literal::CallableLiteral(3), &Literal::CallableLiteral(4)));
    assert!(is_equal(&Literal::InstanceLiteral(1), &Literal::InstanceLiteral(1)));
    assert!(!is_equal(&Literal::InstanceLiteral(1), &Literal::CallableLiteral(1)));
}

#[test]
fn stringify_plain_values() {
    let callables = Vec::new();
    let instances = Vec::new();
    assert_eq!(rlox::interpreter::stringify(&Literal::Nil, &callables, &instances), Some("nil".to_string()));
    assert_eq!(rlox::interpreter::stringify(&Literal::BoolLiteral(true), &callables, &instances), Some("true".to_string()));
    assert_eq!(rlox::interpreter::stringify(&number(3.0), &callables, &instances), Some("3".to_string()));
    assert_eq!(rlox::interpreter::stringify(&number(-12.0), &callables, &instances), Some("-12".to_string()));
    assert_eq!(rlox::interpreter::stringify(&number(2.5), &callables, &instances), None);
    assert_eq!(rlox::interpreter::stringify(&number(f64::NAN), &callables, &instances), None);
    assert_eq!(
        rlox::interpreter::stringify(&Literal::StringLiteral("s".to_string()), &callables, &instances),
        Some("s".to_string())
    );
}

#[test]
fn environment_defines_and_reads_by_distance() {
    let mut env = Environment::new();
    env.define("a", number(1.0));
    env.add_scope();
    env.define("a", number(2.0));
    env.add_scope();
    env.define("b", number(3.0));
    assert_eq!(as_number(env.get_at(0, "b")), 3.0);
    assert_eq!(as_number(env.get_at(1, "a")), 2.0);
    assert_eq!(as_number(env.get_at(2, "a")), 1.0);
    assert!(env.get_at(0, "a").is_none());
    assert!(env.get_at(3, "a").is_none());
    assert_eq!(env.ancestor(0), Some(2));
    assert_eq!(env.ancestor(2), Some(0));
    assert_eq!(env.ancestor(3), None);
    assert_eq!(as_number(env.get("a")), 2.0);
    assert_eq!(env.find("a"), Some(1));
    assert_eq!(env.find("zzz"), None);
}

#[test]
fn environment_assignment_reaches_one_scope_only() {
    let mut env = Environment::new();
    env.define("a", number(1.0));
    env.add_scope();
    env.define("a", number(2.0));
    assert!(env.assign_at(1, &name("a"), number(10.0)).is_ok());
    assert_eq!(as_number(env.get_at(0, "a")), 2.0);
    assert_eq!(as_number(env.get_at(1, "a")), 10.0);
    assert!(env.assign_at(0, &name("a"), number(20.0)).is_ok());
    assert_eq!(as_number(env.get_at(0, "a")), 20.0);
    assert_eq!(as_number(env.get_at(1, "a")), 10.0);
    assert!(env.assign(&name("a"), number(30.0)).is_ok());
    assert_eq!(as_number(env.get_at(0, "a")), 30.0);
    assert_eq!(as_number(env.get_global("a")), 10.0);
    let missing = env.assign_at(5, &name("a"), number(0.0));
    assert_eq!(missing.err().unwrap().1.to_string(), "Undefined variable 'a'.");
}

#[test]
fn environment_assign_global_needs_a_binding() {
    let mut env = Environment::new();
    let missing = env.assign_global(&name("x"), number(1.0));
    let (token, message) = missing.err().unwrap();
    assert_eq!(token.lexeme, "x");
    assert_eq!(message.to_string(), "Undefined variable 'x'.");
    assert!(env.get_global("x").is_none());
    env.define("x", Literal::Nil);
    assert!(env.assign_global(&name("x"), number(1.0)).is_ok());
    assert_eq!(as_number(env.get_global("x")), 1.0);
    let nowhere = env.assign(&name("y"), number(1.0));
    assert_eq!(nowhere.err().unwrap().1.to_string(), "Undefined variable 'y'.");
}

#[test]
fn environment_scopes_are_popped_but_never_the_global_one() {
    let mut env = Environment::new();
    env.define("g", number(1.0));
    env.add_scope();
    env.define("l", number(2.0));
    env.del_scope();
    assert!(env.get_at(0, "l").is_none());
    assert_eq!(as_number(env.get_at(0, "g")), 1.0);
    env.del_scope();
    assert_eq!(env.layers, vec![0]);
    env.add_scope();
    assert_eq!(env.layers, vec![0, 2]);
    assert!(env.get_at(0, "l").is_none());
    let frame = env.push_frame();
    assert_eq!(frame, 3);
    env.define_in(frame, "this", number(9.0));
    assert!(env.get("this").is_none());
}

#[test]
fn lookup_goes_by_the_table_or_to_the_global_scope() {
    let mut env = Environment::new();
    env.define("a", number(1.0));
    env.add_scope();
    env.define("a", number(2.0));
    let found = lookup_variable(&name("a"), 7, &env);
    assert_eq!(as_number(found.ok()), 1.0);
    resolve(7, 0, &mut env);
    let found = lookup_variable(&name("a"), 7, &env);
    assert_eq!(as_number(found.ok()), 2.0);
    resolve(8, 1, &mut env);
    let found = lookup_variable(&name("a"), 8, &env);
    assert_eq!(as_number(found.ok()), 1.0);
    let missing = lookup_variable(&name("b"), 9, &env);
    assert_eq!(missing.err().unwrap().1.to_string(), "Undefined variable 'b'.");
}

#[test]
fn dict_keeps_the_last_value_of_a_name() {
    let mut dict: Dict<u32> = Dict::new();
    assert!(dict.get("a").is_none());
    assert!(!dict.contains_key("a"));
    dict.insert("a".to_string(), 1);
    dict.insert("b".to_string(), 2);
    dict.insert("a".to_string(), 3);
    assert_eq!(dict.get("a"), Some(&3));
    assert_eq!(dict.get("b"), Some(&2));
    assert!(dict.contains_key("b"));
    assert_eq!(dict.entries.len(), 2);
}

#[test]
fn keywords() {
    assert_eq!(keyword_of("and"), Some(TokenType::And));
    assert_eq!(keyword_of("while"), Some(TokenType::While));
    assert_eq!(keyword_of("While"), None);
    assert_eq!(keyword_of(""), None);
    assert_eq!(keyword_of("nilx"), None);
}

#[test]
fn report_lines() {
    assert_eq!(report(3, " at end", "Oops."), "[line 3] Error at end: Oops.");
    assert_eq!(error(12, "Unexpected character."), "[line 12] Error: Unexpected character.");
    let message: Soo = "Bad.".into();
    assert_eq!(error_at(&name("x"), &message), "[line 1] Error at 'x': Bad.");
    let eof = Token { typ: TokenType::Eof, lexeme: String::new(), literal: Literal::Nil, line: 9 };
    assert_eq!(error_at(&eof, &message), "[line 9] Error at end: Bad.");
    assert_eq!(runtime_error(4, &message), "Bad.\n[line 4]");
}
