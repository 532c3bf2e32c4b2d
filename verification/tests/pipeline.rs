use rlox::expr::Expr;
use rlox::interpreter::interpret;
use rlox::machine::{Action, Interpreter, Request};
use rlox::parser::{parse, parse_from};
use rlox::report::{error, error_at, runtime_error};
use rlox::resolver::{resolve_statements, ClassType, FunctionType};
use rlox::scanner::Scanner;
use rlox::stmt::Stmt;
use rlox::token::{Literal, Token};
use rlox::token_type::TokenType;
use rlox::utils::{ExprId, Soo};

struct Outcome {
    output: Vec<String>,
    diagnostics: Vec<String>,
    code: i32,
}

fn answer(request: &Request) -> u64 {
    match request {
        Request::Number(text) => text.parse::<f64>().unwrap().to_bits(),
        Request::Arithmetic(operator, left, right) => {
            let a = f64::from_bits(*left);
            let b = f64::from_bits(*right);
            let result = match operator {
                TokenType::Plus => a + b,
                TokenType::Minus => a - b,
                TokenType::Star => a * b,
                _ => a / b,
            };
            result.to_bits()
        }
        Request::Clock => 1234.5f64.to_bits(),
    }
}

fn drive(interpreter: &mut Interpreter, outcome: &mut Outcome) {
    let mut event: Option<u64> = None;
    let mut steps = 0u64;
    loop {
        steps += 1;
        assert!(steps < 10_000_000, "the program does not end");
        let action = interpreter.run(event.take(), 1000);
        match action {
            Action::Continue => {}
            Action::Print(text) => outcome.output.push(text),
            Action::PrintNumber(bits) => outcome.output.push(format!("{}", f64::from_bits(bits))),
            Action::Ask(request) => event = Some(answer(&request)),
            Action::Finished => return,
            Action::Failed(token, message) => {
                outcome.diagnostics.push(runtime_error(token.line, &message));
                outcome.code = 70;
                return;
            }
        }
    }
}

fn front(source: &str, outcome: &mut Outcome) -> Option<Vec<Stmt>> {
    let (tokens, errors) = Scanner::new(source).scan();
    if !errors.is_empty() {
        for (line, message) in errors.iter() {
            outcome.diagnostics.push(error(*line, &message.to_string()));
        }
        outcome.code = 65;
        return None;
    }
    match parse(tokens) {
        Ok(statements) => Some(statements),
        Err(errors) => {
            for (token, message) in errors.iter() {
                outcome.diagnostics.push(error_at(token, message));
            }
            outcome.code = 65;
            None
        }
    }
}

fn run(source: &str) -> Outcome {
    let mut outcome = Outcome { output: Vec::new(), diagnostics: Vec::new(), code: 0 };
    let statements = match front(source, &mut outcome) {
        Some(statements) => statements,
        None => return outcome,
    };
    let mut interpreter = Interpreter::new();
    let mut functions: Vec<FunctionType> = Vec::new();
    let mut classes: Vec<ClassType> = Vec::new();
    let mut errors: Vec<(Token, Soo)> = Vec::new();
    resolve_statements(
        &statements,
        &mut interpreter.environment,
        &mut functions,
        &mut classes,
        &mut errors,
    );
    if !errors.is_empty() {
        for (token, message) in errors.iter() {
            outcome.diagnostics.push(error_at(token, message));
        }
        outcome.code = 65;
        return outcome;
    }
    interpret(&statements, &mut interpreter);
    drive(&mut interpreter, &mut outcome);
    outcome
}

fn prints(source: &str) -> Vec<String> {
    let outcome = run(source);
    assert_eq!(outcome.diagnostics, Vec::<String>::new());
    assert_eq!(outcome.code, 0);
    outcome.output
}

fn kinds(source: &str) -> Vec<TokenType> {
    let (tokens, had_error) = Scanner::new(source).scan_tokens();
    assert!(!had_error);
    tokens.iter().map(|token| token.typ).collect()
}

fn message_of(source: &str) -> String {
    let outcome = run(source);
    assert_eq!(outcome.diagnostics.len(), 1, "{:?}", outcome.diagnostics);
    outcome.diagnostics[0].clone()
}

#[test]
fn prints_a_sum() {
    assert_eq!(prints("print 1 + 2;"), vec!["3"]);
}

#[test]
fn concatenates_strings() {
    assert_eq!(prints("var a = \"hi\"; print a + \" there\";"), vec!["hi there"]);
}

#[test]
fn closure_reads_captured_parameter() {
    let source = "fun make(x) { fun inner() { return x; } return inner; } var f = make(7); print f();";
    assert_eq!(prints(source), vec!["7"]);
}

#[test]
fn calls_a_method() {
    assert_eq!(prints("class A { greet() { print \"hi\"; } } A().greet();"), vec!["hi"]);
}

#[test]
fn calls_superclass_initializer() {
    let source = "class A { init(n){ this.n = n; } } class B < A { init(n){ super.init(n); this.n = this.n + 1; } } print B(10).n;";
    assert_eq!(prints(source), vec!["11"]);
}

#[test]
fn undefined_global_is_a_runtime_error() {
    let outcome = run("print x;");
    assert_eq!(outcome.output, Vec::<String>::new());
    assert_eq!(outcome.diagnostics, vec!["Undefined variable 'x'.\n[line 1]"]);
    assert_eq!(outcome.code, 70);
}

#[test]
fn empty_program_prints_nothing() {
    let outcome = run("");
    assert_eq!(outcome.output, Vec::<String>::new());
    assert_eq!(outcome.diagnostics, Vec::<String>::new());
    assert_eq!(outcome.code, 0);
}

#[test]
fn for_without_condition_never_runs_its_body() {
    assert_eq!(prints("for (;;) { print 1; } print 2;"), vec!["2"]);
}

#[test]
fn for_loop_counts() {
    assert_eq!(
        prints("for (var i = 0; i < 3; i = i + 1) print i;"),
        vec!["0", "1", "2"]
    );
}

#[test]
fn for_loop_variable_is_scoped_to_the_loop() {
    let outcome = run("for (var i = 0; i < 1; i = i + 1) {} print i;");
    assert_eq!(outcome.diagnostics, vec!["Undefined variable 'i'.\n[line 1]"]);
}

#[test]
fn while_loop_runs_until_condition_is_false() {
    assert_eq!(
        prints("var i = 0; while (i < 3) { print i; i = i + 1; }"),
        vec!["0", "1", "2"]
    );
}

#[test]
fn redeclaring_in_a_local_scope_is_a_static_error() {
    let outcome = run("{ var a = 1; var a = 2; }");
    assert_eq!(outcome.code, 65);
    assert_eq!(
        outcome.diagnostics,
        vec!["[line 1] Error at 'a': Already a variable with this name in this scope."]
    );
}

#[test]
fn redeclaring_a_global_is_allowed() {
    assert_eq!(prints("var a = 1; var a = 2; print a;"), vec!["2"]);
}

#[test]
fn inheriting_from_a_value_that_is_no_class_is_a_runtime_error() {
    let outcome = run("var A = 1; class B < A {}");
    assert_eq!(outcome.code, 70);
    assert_eq!(outcome.diagnostics, vec!["Superclass must be a class.\n[line 1]"]);
}

#[test]
fn equality_of_a_value_with_itself() {
    assert_eq!(prints("print nil == nil;"), vec!["true"]);
    assert_eq!(prints("print true == true;"), vec!["true"]);
    assert_eq!(prints("print 1.5 == 1.5;"), vec!["true"]);
    assert_eq!(prints("print \"a\" == \"a\";"), vec!["true"]);
    assert_eq!(prints("var nan = 0 / 0; print nan == nan;"), vec!["false"]);
    assert_eq!(prints("fun f() {} print f == f;"), vec!["true"]);
    assert_eq!(prints("class A {} print A == A;"), vec!["true"]);
    assert_eq!(prints("class A {} var a = A(); print a == a;"), vec!["true"]);
}

#[test]
fn equality_across_kinds_is_false() {
    assert_eq!(prints("print nil == false;"), vec!["false"]);
    assert_eq!(prints("print 1 == \"1\";"), vec!["false"]);
    assert_eq!(prints("print 0 == false;"), vec!["false"]);
    assert_eq!(prints("print 1 != 2;"), vec!["true"]);
    assert_eq!(prints("class A {} print A() == A();"), vec!["false"]);
    assert_eq!(prints("print 0 == -0;"), vec!["true"]);
}

#[test]
fn integral_numbers_print_without_a_decimal_point() {
    assert_eq!(prints("print 3;"), vec!["3"]);
    assert_eq!(prints("print 3.0;"), vec!["3"]);
    assert_eq!(prints("print -7;"), vec!["-7"]);
    assert_eq!(prints("print 0;"), vec!["0"]);
    assert_eq!(prints("print 9007199254740991;"), vec!["9007199254740991"]);
    assert_eq!(prints("print 1000000 * 1000000;"), vec!["1000000000000"]);
    assert_eq!(prints("print 2.5;"), vec!["2.5"]);
    assert_eq!(prints("print 1 / 4;"), vec!["0.25"]);
}

#[test]
fn values_print_as_documented() {
    assert_eq!(prints("print nil;"), vec!["nil"]);
    assert_eq!(prints("print true;"), vec!["true"]);
    assert_eq!(prints("print false;"), vec!["false"]);
    assert_eq!(prints("print \"text\";"), vec!["text"]);
    assert_eq!(prints("fun f() {} print f;"), vec!["<fn f>"]);
    assert_eq!(prints("print clock;"), vec!["<native fn>"]);
    assert_eq!(prints("class A {} print A;"), vec!["A"]);
    assert_eq!(prints("class A {} print A();"), vec!["A instance"]);
}

#[test]
fn closure_sees_later_assignment_to_captured_variable() {
    let source = "var a = 1; fun get() { return a; } a = 2; print get();";
    assert_eq!(prints(source), vec!["2"]);
    let local = "fun outer() { var a = 1; fun get() { return a; } a = 5; return get; } print outer()();";
    assert_eq!(prints(local), vec!["5"]);
}

#[test]
fn closures_made_in_one_place_share_their_variable() {
    let source = "fun pair() { var n = 0; fun inc() { n = n + 1; return n; } fun get() { return n; } inc(); inc(); return get; } print pair()();";
    assert_eq!(prints(source), vec!["2"]);
}

#[test]
fn shadowing_binding_is_not_touched_by_outer_assignment() {
    let source = "var a = 1; { var a = 2; { a = 3; } print a; } print a;";
    assert_eq!(prints(source), vec!["3", "1"]);
    let inner = "var a = 1; fun f() { a = 10; } { var a = 2; f(); print a; } print a;";
    assert_eq!(prints(inner), vec!["2", "10"]);
}

#[test]
fn initializer_returns_the_instance_however_it_exits() {
    let early = "class A { init(x) { this.x = x; if (x) return; this.x = 0; } } print A(true).x; print A(false).x;";
    assert_eq!(prints(early), vec!["true", "0"]);
    let direct = "class A { init() { this.v = 1; } } var a = A(); var b = a.init(); print a == b;";
    assert_eq!(prints(direct), vec!["true"]);
}

#[test]
fn instances_share_state_between_copies() {
    let source = "class A {} var a = A(); var b = a; a.f = 1; print b.f; b.f = 2; print a.f;";
    assert_eq!(prints(source), vec!["1", "2"]);
}

#[test]
fn fields_shadow_methods_and_methods_bind_this() {
    let source = "class A { m() { return this.v; } } var a = A(); a.v = 4; var m = a.m; print m(); a.m = 5; print a.m;";
    assert_eq!(prints(source), vec!["4", "5"]);
}

#[test]
fn inherited_methods_are_found_up_the_chain() {
    let source = "class A { a() { return 1; } } class B < A { b() { return 2; } } class C < B {} var c = C(); print c.a() + c.b();";
    assert_eq!(prints(source), vec!["3"]);
}

#[test]
fn nearest_method_wins() {
    let source = "class A { m() { return \"A\"; } } class B < A { m() { return \"B\"; } t() { return super.m(); } } print B().m(); print B().t();";
    assert_eq!(prints(source), vec!["B", "A"]);
}

#[test]
fn logical_operators_short_circuit_and_yield_operands() {
    assert_eq!(prints("print nil or 3;"), vec!["3"]);
    assert_eq!(prints("print 1 or 2;"), vec!["1"]);
    assert_eq!(prints("print nil and 2;"), vec!["nil"]);
    assert_eq!(prints("print 1 and 2;"), vec!["2"]);
    assert_eq!(prints("var a = 1; false and (a = 2); print a;"), vec!["1"]);
    assert_eq!(prints("var a = 1; true or (a = 2); print a;"), vec!["1"]);
}

#[test]
fn truthiness() {
    assert_eq!(prints("print !nil;"), vec!["true"]);
    assert_eq!(prints("print !false;"), vec!["true"]);
    assert_eq!(prints("print !0;"), vec!["false"]);
    assert_eq!(prints("print !\"\";"), vec!["false"]);
    assert_eq!(prints("if (0) print 1; else print 2;"), vec!["1"]);
}

#[test]
fn arithmetic_and_comparison() {
    assert_eq!(prints("print 7 - 2 * 3;"), vec!["1"]);
    assert_eq!(prints("print (7 - 2) * 3;"), vec!["15"]);
    assert_eq!(prints("print 8 / 2 / 2;"), vec!["2"]);
    assert_eq!(prints("print -3 + 1;"), vec!["-2"]);
    assert_eq!(prints("print 1 < 2;"), vec!["true"]);
    assert_eq!(prints("print 2 <= 2;"), vec!["true"]);
    assert_eq!(prints("print 1 > 2;"), vec!["false"]);
    assert_eq!(prints("print 2 >= 3;"), vec!["false"]);
    assert_eq!(prints("print -1 < 1;"), vec!["true"]);
    assert_eq!(prints("print -2 < -1;"), vec!["true"]);
    assert_eq!(prints("print 0.5 < 0.25;"), vec!["false"]);
    assert_eq!(prints("var nan = 0 / 0; print nan < 1; print nan >= 1;"), vec!["false", "false"]);
}

#[test]
fn evaluation_is_left_to_right() {
    let source = "fun say(x) { print x; return x; } print say(1) + say(2) * say(3);";
    assert_eq!(prints(source), vec!["1", "2", "3", "7"]);
    let arguments = "fun say(x) { print x; return x; } fun f(a, b) {} f(say(1), say(2));";
    assert_eq!(prints(arguments), vec!["1", "2"]);
}

#[test]
fn return_without_value_yields_nil() {
    assert_eq!(prints("fun f() { return; } print f();"), vec!["nil"]);
    assert_eq!(prints("fun f() {} print f();"), vec!["nil"]);
}

#[test]
fn return_unwinds_nested_statements() {
    let source = "fun f() { var i = 0; while (true) { { if (i == 2) return i; } i = i + 1; } } print f(); var x = 1; print x;";
    assert_eq!(prints(source), vec!["2", "1"]);
}

#[test]
fn recursion() {
    let source = "fun fib(n) { if (n < 2) return n; return fib(n - 1) + fib(n - 2); } print fib(10);";
    assert_eq!(prints(source), vec!["55"]);
}

#[test]
fn clock_asks_the_host() {
    assert_eq!(prints("print clock();"), vec!["1234.5"]);
}

#[test]
fn runtime_error_messages() {
    assert_eq!(message_of("print -\"a\";"), "Operand must be a number.\n[line 1]");
    assert_eq!(message_of("print 1 - \"a\";"), "Operands must be numbers.\n[line 1]");
    assert_eq!(message_of("print 1 < nil;"), "Operands must be numbers.\n[line 1]");
    assert_eq!(
        message_of("print 1 + \"a\";"),
        "Operands must be two numbers or two strings.\n[line 1]"
    );
    assert_eq!(message_of("\n\"a\"();"), "Can only call functions and classes.\n[line 2]");
    assert_eq!(
        message_of("fun f(a) {}\nf(1, 2);"),
        "Expected 1 arguments but got 2.\n[line 2]"
    );
    assert_eq!(message_of("class A {} A(1);"), "Expected 0 arguments but got 1.\n[line 1]");
    assert_eq!(message_of("class A {} print A().x;"), "Undefined property 'x'.\n[line 1]");
    assert_eq!(message_of("print 1.x;"), "Only instances have properties.\n[line 1]");
    assert_eq!(message_of("var a = 1; a.x = 2;"), "Only instances have fields.\n[line 1]");
    assert_eq!(message_of("x = 1;"), "Undefined variable 'x'.\n[line 1]");
    assert_eq!(
        message_of("class A {} class B < A { m() { return super.x; } } B().m();"),
        "Undefined property 'x'.\n[line 1]"
    );
}

#[test]
fn runtime_error_stops_the_program() {
    let outcome = run("print 1; print x; print 2;");
    assert_eq!(outcome.output, vec!["1"]);
    assert_eq!(outcome.code, 70);
}

#[test]
fn static_error_messages() {
    assert_eq!(
        message_of("return 1;"),
        "[line 1] Error at 'return': Can't return from top-level code."
    );
    assert_eq!(
        message_of("class A { init() { return 1; } }"),
        "[line 1] Error at 'return': Can't return a value from an initializer."
    );
    assert_eq!(
        message_of("print this;"),
        "[line 1] Error at 'this': Can't use 'this' outside of a class."
    );
    assert_eq!(
        message_of("print super.x;"),
        "[line 1] Error at 'super': Can't use 'super' outside of a class."
    );
    assert_eq!(
        message_of("class A { m() { super.m(); } }"),
        "[line 1] Error at 'super': Can't use 'super' in a class with no superclass."
    );
    assert_eq!(
        message_of("class A < A {}"),
        "[line 1] Error at 'A': A class can't inherit from itself."
    );
    assert_eq!(
        message_of("{ var a = a; }"),
        "[line 1] Error at 'a': Can't read local variable in its own initializer."
    );
    assert_eq!(
        message_of("fun f(a, a) {}"),
        "[line 1] Error at 'a': Already a variable with this name in this scope."
    );
}

#[test]
fn static_error_keeps_the_program_from_running() {
    let outcome = run("print 1; return 2;");
    assert_eq!(outcome.output, Vec::<String>::new());
    assert_eq!(outcome.code, 65);
}

#[test]
fn scans_punctuation_and_operators() {
    assert_eq!(
        kinds("(){},.-+;*/ ! != = == < <= > >="),
        vec![
            TokenType::LeftParen,
            TokenType::RightParen,
            TokenType::LeftBrace,
            TokenType::RightBrace,
            TokenType::Comma,
            TokenType::Dot,
            TokenType::Minus,
            TokenType::Plus,
            TokenType::Semicolon,
            TokenType::Star,
            TokenType::Slash,
            TokenType::Bang,
            TokenType::BangEqual,
            TokenType::Equal,
            TokenType::EqualEqual,
            TokenType::Less,
            TokenType::LessEqual,
            TokenType::Greater,
            TokenType::GreaterEqual,
        ]
    );
}

#[test]
fn scans_keywords_and_identifiers() {
    assert_eq!(
        kinds("and class else false for fun if nil or print return super this true var while"),
        vec![
            TokenType::And,
            TokenType::Class,
            TokenType::Else,
            TokenType::False,
            TokenType::For,
            TokenType::Fun,
            TokenType::If,
            TokenType::Nil,
            TokenType::Or,
            TokenType::Print,
            TokenType::Return,
            TokenType::Super,
            TokenType::This,
            TokenType::True,
            TokenType::Var,
            TokenType::While,
        ]
    );
    assert_eq!(
        kinds("andy _x x1 For"),
        vec![TokenType::Identifier, TokenType::Identifier, TokenType::Identifier, TokenType::Identifier]
    );
}

#[test]
fn scanner_emits_no_end_of_file_token() {
    assert_eq!(kinds(""), Vec::<TokenType>::new());
    assert_eq!(kinds("  \t\r\n"), Vec::<TokenType>::new());
}

#[test]
fn scans_lexemes_payloads_and_lines() {
    let (tokens, had_error) = Scanner::new("var answer\n= \"a\nb\" 12.5;").scan_tokens();
    assert!(!had_error);
    assert_eq!(tokens.len(), 6);
    assert_eq!(tokens[1].lexeme, "answer");
    assert!(matches!(&tokens[1].literal, Literal::IdentifierLiteral(name) if name == "answer"));
    assert_eq!(tokens[1].line, 1);
    assert_eq!(tokens[2].line, 2);
    assert_eq!(tokens[3].typ, TokenType::StringToken);
    assert_eq!(tokens[3].lexeme, "\"a\nb\"");
    assert!(matches!(&tokens[3].literal, Literal::StringLiteral(text) if text == "a\nb"));
    assert_eq!(tokens[3].line, 3);
    assert_eq!(tokens[4].typ, TokenType::Number);
    assert_eq!(tokens[4].lexeme, "12.5");
    assert!(matches!(&tokens[4].literal, Literal::NumberLiteral(text) if text == "12.5"));
    assert_eq!(tokens[4].line, 3);
    assert!(matches!(&tokens[0].literal, Literal::Nil));
}

#[test]
fn trailing_dot_does_not_start_a_fraction() {
    assert_eq!(kinds("1."), vec![TokenType::Number, TokenType::Dot]);
    assert_eq!(kinds("1.x"), vec![TokenType::Number, TokenType::Dot, TokenType::Identifier]);
    assert_eq!(kinds("1.5.2"), vec![TokenType::Number, TokenType::Dot, TokenType::Number]);
    let (tokens, _) = Scanner::new("1.").scan_tokens();
    assert_eq!(tokens[0].lexeme, "1");
}

#[test]
fn comment_runs_to_the_end_of_the_line() {
    assert_eq!(kinds("1 // two three\n4"), vec![TokenType::Number, TokenType::Number]);
    let (tokens, _) = Scanner::new("// c\nx").scan_tokens();
    assert_eq!(tokens[0].line, 2);
    assert_eq!(kinds("// only"), Vec::<TokenType>::new());
}

#[test]
fn unexpected_character_is_reported_and_scanning_goes_on() {
    let (tokens, errors) = Scanner::new("1 @\n# 2").scan();
    assert_eq!(tokens.len(), 2);
    assert_eq!(errors.len(), 2);
    assert_eq!(errors[0].0, 1);
    assert_eq!(errors[0].1.to_string(), "Unexpected character.");
    assert_eq!(errors[1].0, 2);
    let (_, had_error) = Scanner::new("1 @").scan_tokens();
    assert!(had_error);
    assert_eq!(run("@").diagnostics, vec!["[line 1] Error: Unexpected character."]);
    assert_eq!(run("@").code, 65);
}

#[test]
fn unterminated_string_is_reported() {
    let (tokens, errors) = Scanner::new("1 \"abc\nd").scan();
    assert_eq!(tokens.len(), 1);
    assert_eq!(errors.len(), 1);
    assert_eq!(errors[0].0, 2);
    assert_eq!(errors[0].1.to_string(), "Unterminated string.");
}

fn first_expression(statements: &Vec<Stmt>) -> &Expr {
    match &statements[0] {
        Stmt::Expression { expression } => expression,
        Stmt::Print { expression } => expression,
        _ => panic!("no expression statement"),
    }
}

fn shape(expression: &Expr) -> String {
    match expression {
        Expr::Assign(a) => format!("({} = {})", a.name.lexeme, shape(&a.value)),
        Expr::Binary(b) => format!("({} {} {})", b.operator.lexeme, shape(&b.left), shape(&b.right)),
        Expr::Call(c) => {
            let arguments: Vec<String> = c.arguments.iter().map(shape).collect();
            format!("(call {} [{}])", shape(&c.callee), arguments.join(" "))
        }
        Expr::Get(g) => format!("(get {} {})", shape(&g.object), g.name.lexeme),
        Expr::Grouping(g) => format!("(group {})", shape(&g.expression)),
        Expr::LiteralExpr(l) => match &l.value {
            Literal::NumberLiteral(text) => text.clone(),
            Literal::StringLiteral(text) => format!("\"{}\"", text),
            Literal::BoolLiteral(b) => format!("{}", b),
            _ => "nil".to_string(),
        },
        Expr::Logical(l) => format!("({} {} {})", l.operator.lexeme, shape(&l.left), shape(&l.right)),
        Expr::SetExpr(s) => format!("(set {} {} {})", shape(&s.object), s.name.lexeme, shape(&s.value)),
        Expr::Super(s) => format!("(super {})", s.method.lexeme),
        Expr::This(_) => "this".to_string(),
        Expr::Unary(u) => format!("({} {})", u.operator.lexeme, shape(&u.right)),
        Expr::Variable(v) => v.name.lexeme.clone(),
    }
}

fn parsed_shape(source: &str) -> String {
    let (tokens, _) = Scanner::new(source).scan_tokens();
    let statements = parse(tokens).ok().unwrap();
    shape(first_expression(&statements))
}

fn parse_errors(source: &str) -> Vec<String> {
    let (tokens, _) = Scanner::new(source).scan_tokens();
    match parse(tokens) {
        Ok(_) => Vec::new(),
        Err(errors) => errors.iter().map(|(token, message)| error_at(token, message)).collect(),
    }
}

#[test]
fn binary_operators_are_left_associative() {
    assert_eq!(parsed_shape("1 - 2 - 3;"), "(- (- 1 2) 3)");
    assert_eq!(parsed_shape("a or b or c;"), "(or (or a b) c)");
    assert_eq!(parsed_shape("a and b and c;"), "(and (and a b) c)");
    assert_eq!(parsed_shape("1 == 2 != 3;"), "(!= (== 1 2) 3)");
}

#[test]
fn precedence_runs_from_assignment_to_primary() {
    assert_eq!(
        parsed_shape("a = b or c and d == e < f + g * -h.i(1);"),
        "(a = (or b (and c (== d (< e (+ f (* g (- (call (get h i) [1])))))))))"
    );
}

#[test]
fn assignment_and_unary_are_right_associative() {
    assert_eq!(parsed_shape("a = b = c;"), "(a = (b = c))");
    assert_eq!(parsed_shape("!!a;"), "(! (! a))");
    assert_eq!(parsed_shape("--1;"), "(- (- 1))");
}

#[test]
fn assignment_to_a_property_is_a_set() {
    assert_eq!(parsed_shape("a.b.c = 1;"), "(set (get a b) c 1)");
}

#[test]
fn primaries() {
    assert_eq!(parsed_shape("(1);"), "(group 1)");
    assert_eq!(parsed_shape("this;"), "this");
    assert_eq!(parsed_shape("super.m;"), "(super m)");
    assert_eq!(parsed_shape("\"s\";"), "\"s\"");
    assert_eq!(parsed_shape("true;"), "true");
    assert_eq!(parsed_shape("nil;"), "nil");
    assert_eq!(parsed_shape("f(1, 2)(3);"), "(call (call f [1 2]) [3])");
}

#[test]
fn invalid_assignment_target_is_reported() {
    assert_eq!(
        parse_errors("1 = 2;"),
        vec!["[line 1] Error at '=': Invalid assignment target."]
    );
    assert_eq!(
        parse_errors("a + b = c;"),
        vec!["[line 1] Error at '=': Invalid assignment target."]
    );
}

#[test]
fn expression_identifiers_are_distinct_and_increase() {
    let (tokens, _) = Scanner::new("1 + 2 * 3;").scan_tokens();
    let statements = parse(tokens).ok().unwrap();
    match first_expression(&statements) {
        Expr::Binary(sum) => {
            assert_eq!(sum.left.id(), 0);
            match &*sum.right {
                Expr::Binary(product) => {
                    assert_eq!(product.left.id(), 1);
                    assert_eq!(product.right.id(), 2);
                    assert_eq!(product.id, 3);
                }
                _ => panic!("no product"),
            }
            assert_eq!(sum.id, 4);
        }
        _ => panic!("no sum"),
    }
}

#[test]
fn parse_from_goes_on_numbering() {
    let mut id = ExprId::new();
    let (first, _) = Scanner::new("1;").scan_tokens();
    parse_from(first, &mut id).ok().unwrap();
    let (second, _) = Scanner::new("2;").scan_tokens();
    let statements = parse_from(second, &mut id).ok().unwrap();
    assert_eq!(first_expression(&statements).id(), 1);
}

#[test]
fn for_is_written_with_while() {
    let (tokens, _) = Scanner::new("for (var i = 0; i < 2; i = i + 1) print i;").scan_tokens();
    let statements = parse(tokens).ok().unwrap();
    assert_eq!(statements.len(), 1);
    match &statements[0] {
        Stmt::Block { statements } => {
            assert_eq!(statements.len(), 2);
            assert!(matches!(&statements[0], Stmt::Var { .. }));
            match &statements[1] {
                Stmt::While { condition, body } => {
                    assert_eq!(shape(condition), "(< i 2)");
                    match &**body {
                        Stmt::Block { statements } => {
                            assert_eq!(statements.len(), 2);
                            assert!(matches!(&statements[0], Stmt::Print { .. }));
                            assert!(matches!(&statements[1], Stmt::Expression { .. }));
                        }
                        _ => panic!("no block"),
                    }
                }
                _ => panic!("no while"),
            }
        }
        _ => panic!("no block"),
    }
    let (bare, _) = Scanner::new("for (;;) print 1;").scan_tokens();
    let statements = parse(bare).ok().unwrap();
    match &statements[0] {
        Stmt::While { condition, body } => {
            assert_eq!(shape(condition), "false");
            assert!(matches!(&**body, Stmt::Print { .. }));
        }
        _ => panic!("no while"),
    }
}

#[test]
fn parses_declarations() {
    let (tokens, _) = Scanner::new("class B < A { init(a, b) {} m() {} } fun f(x) { return x; } var v;")
        .scan_tokens();
    let statements = parse(tokens).ok().unwrap();
    assert_eq!(statements.len(), 3);
    match &statements[0] {
        Stmt::Class { name, superclass, methods } => {
            assert_eq!(name.lexeme, "B");
            assert_eq!(superclass.as_ref().unwrap().name.lexeme, "A");
            assert_eq!(methods.len(), 2);
            assert_eq!(methods[0].name.lexeme, "init");
            assert_eq!(methods[0].params.len(), 2);
            assert_eq!(methods[1].name.lexeme, "m");
        }
        _ => panic!("no class"),
    }
    match &statements[1] {
        Stmt::Function(function) => {
            assert_eq!(function.name.lexeme, "f");
            assert_eq!(function.params[0].lexeme, "x");
            assert!(matches!(&function.body[0], Stmt::Return { value: Some(_), .. }));
        }
        _ => panic!("no function"),
    }
    assert!(matches!(&statements[2], Stmt::Var { initializer: None, .. }));
}

#[test]
fn parser_reports_and_recovers() {
    let errors = parse_errors("print 1 print 2; var = 3; print 4;");
    assert_eq!(errors.len(), 2);
    assert_eq!(parse_errors("print (1;").len(), 1);
    assert_eq!(
        parse_errors("print"),
        vec!["[line 1] Error at end: Expected expression, instead found end of file."]
    );
    assert_eq!(parse_errors("+;"), vec!["[line 1] Error at '+': Expected expression."]);
    assert_eq!(
        parse_errors("{ print 1;"),
        vec!["[line 1] Error at end: Expected '}' after block."]
    );
}

#[test]
fn more_than_255_arguments_are_reported() {
    let mut source = String::from("f(");
    for i in 0..256 {
        if i > 0 {
            source.push(',');
        }
        source.push('1');
    }
    source.push_str(");");
    assert_eq!(
        parse_errors(&source),
        vec!["[line 1] Error at '1': Can't have more than 255 arguments."]
    );
    let mut ok = String::from("f(");
    for i in 0..255 {
        if i > 0 {
            ok.push(',');
        }
        ok.push('1');
    }
    ok.push_str(");");
    assert_eq!(parse_errors(&ok), Vec::<String>::new());
}

#[test]
fn more_than_255_parameters_are_reported() {
    let mut source = String::from("fun f(");
    for i in 0..256 {
        if i > 0 {
            source.push(',');
        }
        source.push_str(&format!("x{}", i));
    }
    source.push_str(") {}");
    assert_eq!(
        parse_errors(&source),
        vec!["[line 1] Error at 'x255': Can't have more than 255 parameters."]
    );
}

#[test]
fn resolver_records_scope_distances() {
    let (tokens, _) = Scanner::new("var g = 0; { var a = 1; { var b = 2; print a; print b; print g; } }")
        .scan_tokens();
    let statements = parse(tokens).ok().unwrap();
    let mut interpreter = Interpreter::new();
    let mut functions: Vec<FunctionType> = Vec::new();
    let mut classes: Vec<ClassType> = Vec::new();
    let mut errors: Vec<(Token, Soo)> = Vec::new();
    resolve_statements(
        &statements,
        &mut interpreter.environment,
        &mut functions,
        &mut classes,
        &mut errors,
    );
    assert!(errors.is_empty());
    assert!(functions.is_empty());
    assert!(classes.is_empty());
    assert!(interpreter.environment.scopes.is_empty());
    // ids: 0 literal 0, 1 literal 1, 2 literal 2, 3 a, 4 b, 5 g
    let locals = &interpreter.environment.locals;
    assert_eq!(locals.get(&3), Some(&1));
    assert_eq!(locals.get(&4), Some(&0));
    assert_eq!(locals.get(&5), None);
    assert_eq!(locals.len(), 2);
}

#[test]
fn resolving_twice_gives_the_same_table() {
    let source = "fun f(a) { var b = a; { return b + a; } } class A { m() { return this; } }";
    let mut tables = Vec::new();
    for _ in 0..2 {
        let (tokens, _) = Scanner::new(source).scan_tokens();
        let statements = parse(tokens).ok().unwrap();
        let mut interpreter = Interpreter::new();
        let mut functions: Vec<FunctionType> = Vec::new();
        let mut classes: Vec<ClassType> = Vec::new();
        let mut errors: Vec<(Token, Soo)> = Vec::new();
        resolve_statements(
            &statements,
            &mut interpreter.environment,
            &mut functions,
            &mut classes,
            &mut errors,
        );
        let mut table: Vec<(usize, usize)> =
            interpreter.environment.locals.iter().map(|(k, v)| (*k, *v)).collect();
        table.sort();
        tables.push(table);
    }
    assert_eq!(tables[0], tables[1]);
    assert!(!tables[0].is_empty());
}

#[test]
fn environment_survives_a_runtime_error() {
    let mut outcome = Outcome { output: Vec::new(), diagnostics: Vec::new(), code: 0 };
    let mut id = ExprId::new();
    let (first, _) = Scanner::new("var a = 1; { var b = 2; print c; }").scan_tokens();
    let first = parse_from(first, &mut id).ok().unwrap();
    let (second, _) = Scanner::new("print a;").scan_tokens();
    let second = parse_from(second, &mut id).ok().unwrap();
    let mut interpreter = Interpreter::new();
    let mut functions: Vec<FunctionType> = Vec::new();
    let mut classes: Vec<ClassType> = Vec::new();
    let mut errors: Vec<(Token, Soo)> = Vec::new();
    resolve_statements(&first, &mut interpreter.environment, &mut functions, &mut classes, &mut errors);
    interpret(&first, &mut interpreter);
    drive(&mut interpreter, &mut outcome);
    assert_eq!(outcome.code, 70);
    assert_eq!(interpreter.environment.layers, vec![0]);
    outcome.code = 0;
    resolve_statements(&second, &mut interpreter.environment, &mut functions, &mut classes, &mut errors);
    interpret(&second, &mut interpreter);
    drive(&mut interpreter, &mut outcome);
    assert_eq!(outcome.code, 0);
    assert_eq!(outcome.output, vec!["1"]);
}

#[test]
fn functions_survive_across_programs() {
    let mut outcome = Outcome { output: Vec::new(), diagnostics: Vec::new(), code: 0 };
    let mut id = ExprId::new();
    let (first, _) = Scanner::new("fun f(n) { var m = n; return m + later; }").scan_tokens();
    let first = parse_from(first, &mut id).ok().unwrap();
    let (second, _) = Scanner::new("var later = 10; print f(1);").scan_tokens();
    let second = parse_from(second, &mut id).ok().unwrap();
    let mut interpreter = Interpreter::new();
    let mut functions: Vec<FunctionType> = Vec::new();
    let mut classes: Vec<ClassType> = Vec::new();
    let mut errors: Vec<(Token, Soo)> = Vec::new();
    resolve_statements(&first, &mut interpreter.environment, &mut functions, &mut classes, &mut errors);
    interpret(&first, &mut interpreter);
    drive(&mut interpreter, &mut outcome);
    resolve_statements(&second, &mut interpreter.environment, &mut functions, &mut classes, &mut errors);
    interpret(&second, &mut interpreter);
    drive(&mut interpreter, &mut outcome);
    assert!(errors.is_empty());
    assert_eq!(outcome.output, vec!["11"]);
}

#[test]
fn step_repeats_its_request_until_answered() {
    let (tokens, _) = Scanner::new("print 1 + 2;").scan_tokens();
    let statements = parse(tokens).ok().unwrap();
    let mut interpreter = Interpreter::new();
    interpret(&statements, &mut interpreter);
    let mut action = interpreter.step(None);
    while matches!(action, Action::Continue) {
        action = interpreter.step(None);
    }
    assert!(matches!(&action, Action::Ask(Request::Number(text)) if text == "1"));
    let again = interpreter.step(None);
    assert!(matches!(&again, Action::Ask(Request::Number(text)) if text == "1"));
    let next = interpreter.step(Some(1f64.to_bits()));
    assert!(matches!(next, Action::Continue));
}

#[test]
fn finished_interpreter_stays_finished() {
    let mut interpreter = Interpreter::new();
    assert!(matches!(interpreter.step(None), Action::Finished));
    assert!(matches!(interpreter.run(Some(1), 10), Action::Finished));
}

fn token(typ: TokenType, lexeme: &str) -> Token {
    Token { typ, lexeme: lexeme.to_string(), literal: Literal::Nil, line: 3 }
}

fn fails_with(statements: &Vec<Stmt>, prepare: fn(&mut Interpreter)) -> String {
    let mut outcome = Outcome { output: Vec::new(), diagnostics: Vec::new(), code: 0 };
    let mut interpreter = Interpreter::new();
    prepare(&mut interpreter);
    interpret(statements, &mut interpreter);
    drive(&mut interpreter, &mut outcome);
    assert_eq!(outcome.code, 70);
    outcome.diagnostics[0].clone()
}

fn nothing(_: &mut Interpreter) {}

fn literal(id: usize, value: Literal) -> Box<Expr> {
    Box::new(Expr::LiteralExpr(rlox::expr::LiteralExpr { id, value }))
}

#[test]
fn operator_that_is_no_unary_operator_is_a_runtime_error() {
    let expression = Expr::Unary(rlox::expr::Unary {
        id: 1,
        operator: token(TokenType::Plus, "+"),
        right: literal(0, Literal::Nil),
    });
    let statements = vec![Stmt::Expression { expression: Box::new(expression) }];
    assert_eq!(fails_with(&statements, nothing), "Expected a unary operator.\n[line 3]");
}

#[test]
fn operator_that_is_no_binary_operator_is_a_runtime_error() {
    let expression = Expr::Binary(rlox::expr::Binary {
        id: 2,
        left: literal(0, Literal::Nil),
        operator: token(TokenType::Bang, "!"),
        right: literal(1, Literal::Nil),
    });
    let statements = vec![Stmt::Expression { expression: Box::new(expression) }];
    assert_eq!(fails_with(&statements, nothing), "Expected a binary operator.\n[line 3]");
}

fn add_unknown_native(interpreter: &mut Interpreter) {
    interpreter.callables.push(rlox::callable::Callable {
        arity: 0,
        parameters: Vec::new(),
        kind: rlox::callable::CallableKind::Native("other"),
    });
    let index = interpreter.callables.len() - 1;
    interpreter.environment.define("other", Literal::CallableLiteral(index));
}

#[test]
fn native_function_other_than_clock_is_a_runtime_error() {
    let (tokens, _) = Scanner::new("\n\nother();").scan_tokens();
    let statements = parse(tokens).ok().unwrap();
    assert_eq!(fails_with(&statements, add_unknown_native), "Unknown native function.\n[line 3]");
}

#[test]
fn callable_that_does_not_exist_cannot_be_called() {
    let (tokens, _) = Scanner::new("\n\nghost();").scan_tokens();
    let statements = parse(tokens).ok().unwrap();
    fn prepare(interpreter: &mut Interpreter) {
        interpreter.environment.define("ghost", Literal::CallableLiteral(99));
    }
    assert_eq!(
        fails_with(&statements, prepare),
        "Can only call functions and classes.\n[line 3]"
    );
}

#[test]
fn parser_expectation_messages() {
    let first = |source: &str| -> String {
        let errors = parse_errors(source);
        assert!(!errors.is_empty(), "{}", source);
        errors[0].clone()
    };
    assert_eq!(first("var 1;"), "[line 1] Error at ';': Expected variable name.");
    assert_eq!(first("var"), "[line 1] Error at end: Expected variable name, instead found end of file.");
    assert_eq!(first("var a = 1 2"), "[line 1] Error at end: Expected ';' after variable declaration.");
    assert_eq!(first("1 2"), "[line 1] Error at end: Expected ';' after expression.");
    assert_eq!(first("1"), "[line 1] Error at end: Expected ';' after expression, instead found end of file.");
    assert_eq!(first("print 1"), "[line 1] Error at end: Expected ';' after value, instead found end of file.");
    assert_eq!(first("if 1"), "[line 1] Error at end: Expected '(' after 'if'.");
    assert_eq!(first("if (1 2"), "[line 1] Error at end: Expected ')' after 'if' condition.");
    assert_eq!(first("while 1"), "[line 1] Error at end: Expected '(' after 'while'.");
    assert_eq!(first("while (1 2"), "[line 1] Error at end: Expected ')' after condition.");
    assert_eq!(first("for 1"), "[line 1] Error at end: Expected '(' after 'for'.");
    assert_eq!(first("for (;1 2"), "[line 1] Error at end: Expected ';' after loop condition.");
    assert_eq!(first("for (;;1 2"), "[line 1] Error at end: Expected ')' after for clauses.");
    assert_eq!(first("fun 1"), "[line 1] Error at end: Expected function name.");
    assert_eq!(first("fun f 1"), "[line 1] Error at end: Expected '(' after function name.");
    assert_eq!(first("fun f(1"), "[line 1] Error at end: Expected parameter name.");
    assert_eq!(first("fun f(a 1"), "[line 1] Error at end: Expected ')' after parameters.");
    assert_eq!(first("fun f() 1"), "[line 1] Error at end: Expected '{' before function body.");
    assert_eq!(first("class 1"), "[line 1] Error at end: Expected class name.");
    assert_eq!(first("class A < 1"), "[line 1] Error at end: Expected superclass name.");
    assert_eq!(first("class A 1"), "[line 1] Error at end: Expected '{' before class body.");
    assert_eq!(first("class A { 1"), "[line 1] Error at end: Expected method name.");
    assert_eq!(first("class A { m 1"), "[line 1] Error at end: Expected '(' after method name.");
    assert_eq!(first("class A { m() 1"), "[line 1] Error at end: Expected '{' before method body.");
    assert_eq!(first("class A { m() {}"), "[line 1] Error at end: Expected '}' after class body, instead found end of file.");
    assert_eq!(first("f(1 2"), "[line 1] Error at end: Expected ')' after arguments.");
    assert_eq!(first("a.1"), "[line 1] Error at end: Expected property name after '.'.");
    assert_eq!(first("super 1"), "[line 1] Error at end: Expected '.' after 'super'.");
    assert_eq!(first("super.1"), "[line 1] Error at end: Expected superclass method name.");
    assert_eq!(first("(1 2"), "[line 1] Error at end: Expected ')' after expression.");
    assert_eq!(first("return 1 2"), "[line 1] Error at end: Expected ';' after return value.");
    assert_eq!(first("{"), "[line 1] Error at end: Expected '}' after block.");
}

#[test]
fn a_wrong_token_takes_the_next_one_with_it() {
    assert_eq!(
        parse_errors("print 1 2; print 3;"),
        vec!["[line 1] Error at ';': Expected ';' after value."]
    );
    let (tokens, _) = Scanner::new("print 1 2 print 3;").scan_tokens();
    let errors = parse(tokens).err().unwrap();
    assert_eq!(errors.len(), 1);
    assert_eq!(errors[0].0.typ, TokenType::Print);
}

#[test]
fn instance_get_and_set() {
    let (tokens, _) = Scanner::new("class A { m() { return 1; } } var a = A();").scan_tokens();
    let statements = parse(tokens).ok().unwrap();
    let mut outcome = Outcome { output: Vec::new(), diagnostics: Vec::new(), code: 0 };
    let mut interpreter = Interpreter::new();
    interpret(&statements, &mut interpreter);
    drive(&mut interpreter, &mut outcome);
    assert_eq!(interpreter.instances.len(), 1);
    let field = token(TokenType::Identifier, "f");
    let method = token(TokenType::Identifier, "m");
    let missing = rlox::instance::Instance::get(0, &field, &mut interpreter);
    assert_eq!(missing.err().unwrap().1.to_string(), "Undefined property 'f'.");
    interpreter.instances[0].set(&field, Literal::BoolLiteral(true));
    let found = rlox::instance::Instance::get(0, &field, &mut interpreter);
    assert!(matches!(found, Ok(Literal::BoolLiteral(true))));
    let before = interpreter.callables.len();
    let bound = rlox::instance::Instance::get(0, &method, &mut interpreter);
    assert!(matches!(bound, Ok(Literal::CallableLiteral(index)) if index == before));
    assert_eq!(interpreter.callables.len(), before + 1);
    assert_eq!(interpreter.instances[0].to_string(&interpreter.callables), "A instance");
    let nobody = rlox::instance::Instance::get(7, &field, &mut interpreter);
    assert_eq!(nobody.err().unwrap().1.to_string(), "Only instances have properties.");
}

#[test]
fn inherited_initializer_sets_the_arity_of_the_class() {
    let source = "class A { init(n) { this.n = n; } } class B < A {} print B(3).n;";
    assert_eq!(prints(source), vec!["3"]);
    assert_eq!(message_of("class A { init(n) {} } class B < A {} B();"), "Expected 1 arguments but got 0.\n[line 1]");
    assert_eq!(prints("class A {} class B < A {} print B();"), vec!["B instance"]);
}

fn collect_expr_ids(expression: &Expr, ids: &mut Vec<usize>) {
    ids.push(expression.id());
    match expression {
        Expr::Assign(a) => collect_expr_ids(&a.value, ids),
        Expr::Binary(b) => {
            collect_expr_ids(&b.left, ids);
            collect_expr_ids(&b.right, ids);
        }
        Expr::Call(c) => {
            collect_expr_ids(&c.callee, ids);
            for argument in c.arguments.iter() {
                collect_expr_ids(argument, ids);
            }
        }
        Expr::Get(g) => collect_expr_ids(&g.object, ids),
        Expr::Grouping(g) => collect_expr_ids(&g.expression, ids),
        Expr::Logical(l) => {
            collect_expr_ids(&l.left, ids);
            collect_expr_ids(&l.right, ids);
        }
        Expr::SetExpr(s) => {
            collect_expr_ids(&s.object, ids);
            collect_expr_ids(&s.value, ids);
        }
        Expr::Unary(u) => collect_expr_ids(&u.right, ids),
        _ => {}
    }
}

fn collect_stmt_ids(statement: &Stmt, ids: &mut Vec<usize>) {
    match statement {
        Stmt::Block { statements } => statements.iter().for_each(|s| collect_stmt_ids(s, ids)),
        Stmt::Class { superclass, methods, .. } => {
            if let Some(variable) = superclass {
                ids.push(variable.id);
            }
            for method in methods.iter() {
                method.body.iter().for_each(|s| collect_stmt_ids(s, ids));
            }
        }
        Stmt::Expression { expression } => collect_expr_ids(expression, ids),
        Stmt::Function(function) => function.body.iter().for_each(|s| collect_stmt_ids(s, ids)),
        Stmt::If { condition, then_branch, else_branch } => {
            collect_expr_ids(condition, ids);
            collect_stmt_ids(then_branch, ids);
            if let Some(branch) = else_branch {
                collect_stmt_ids(branch, ids);
            }
        }
        Stmt::Print { expression } => collect_expr_ids(expression, ids),
        Stmt::Return { value, .. } => {
            if let Some(expression) = value {
                collect_expr_ids(expression, ids);
            }
        }
        Stmt::Var { initializer, .. } => {
            if let Some(expression) = initializer {
                collect_expr_ids(expression, ids);
            }
        }
        Stmt::While { condition, body } => {
            collect_expr_ids(condition, ids);
            collect_stmt_ids(body, ids);
        }
    }
}

#[test]
fn every_expression_has_its_own_identifier() {
    let source = "class A < B { m(a) { return super.m(a).x = this.y; } } \
                  for (var i = 0; i < 3; i = i + 1) { print f(i, -i)(1) or !(a and b); } \
                  for (;;) x.y.z = 1 = 2; if (a) b; else c; while (d) { e; } fun g() {}";
    let (tokens, _) = Scanner::new(source).scan_tokens();
    let count = tokens.len();
    let statements = match parse(tokens) {
        Ok(statements) => statements,
        Err(_) => {
            let (again, _) = Scanner::new(source.replace("= 1 = 2", "= 1").as_str()).scan_tokens();
            parse(again).ok().unwrap()
        }
    };
    let mut ids = Vec::new();
    statements.iter().for_each(|s| collect_stmt_ids(s, &mut ids));
    assert!(ids.len() > 30);
    let mut sorted = ids.clone();
    sorted.sort();
    sorted.dedup();
    assert_eq!(sorted.len(), ids.len());
    assert!(ids.iter().all(|id| *id < count));
}

fn written(source: &str) -> String {
    let (tokens, _) = Scanner::new(source).scan_tokens();
    let statements = parse(tokens).ok().unwrap();
    first_expression(&statements).to_string()
}

#[test]
fn expressions_are_written_in_prefix_form() {
    assert_eq!(written("1 + 2 * 3;"), "(+ 1 (* 2 3))");
    assert_eq!(written("a = b;"), "a = b");
    assert_eq!(written("f();"), "f()");
    assert_eq!(written("f(1);"), "f(1)");
    assert_eq!(written("f(1, x, 2.5);"), "f(1,x,2.5)");
    assert_eq!(written("a.b;"), "a.b");
    assert_eq!(written("(1);"), "(group 1)");
    assert_eq!(written("a or b and c;"), "a or b and c");
    assert_eq!(written("a.b = 2;"), "a.b = 2");
    assert_eq!(written("-x;"), "(- x)");
    assert_eq!(written("!x;"), "(! x)");
    assert_eq!(written("super.m;"), "super.m");
    assert_eq!(written("this;"), "this");
    assert_eq!(written("\"s\";"), "s");
    assert_eq!(written("true;"), "true");
    assert_eq!(written("false;"), "false");
    assert_eq!(written("nil;"), "nil");
    assert_eq!(written("a.b(c)(d, e).f;"), "a.b(c)(d,e).f");
}

#[test]
fn tokens_and_literals_are_written_as_text() {
    let (tokens, _) = Scanner::new("while 12").scan_tokens();
    assert_eq!(tokens[0].to_string(), "while");
    assert_eq!(tokens[1].to_string(), "12");
    assert_eq!(tokens[1].literal.to_string(), "12");
    assert_eq!(Literal::BoolLiteral(true).to_string(), "true");
    assert_eq!(Literal::Nil.to_string(), "nil");
    assert_eq!(Literal::StringLiteral("x y".to_string()).to_string(), "x y");
    assert_eq!(Literal::F64(3f64.to_bits()).to_string(), "3");
    assert_eq!(Literal::F64(0.5f64.to_bits()).to_string(), "<number>");
    assert_eq!(Literal::CallableLiteral(0).to_string(), "<callable>");
    assert_eq!(Literal::InstanceLiteral(0).to_string(), "<instance>");
}

#[test]
fn closure_keeps_its_binding_when_a_later_declaration_shadows_it() {
    let source = "var a = \"global\"; { fun showA() { print a; } showA(); var a = \"block\"; showA(); print a; }";
    assert_eq!(prints(source), vec!["global", "global", "block"]);
}

#[test]
fn counter_closures_are_independent() {
    let source = "fun counter() { var n = 0; fun next() { n = n + 1; return n; } return next; } \
                  var a = counter(); var b = counter(); print a(); print a(); print b(); print a();";
    assert_eq!(prints(source), vec!["1", "2", "1", "3"]);
}

#[test]
fn this_is_captured_by_a_function_inside_a_method() {
    let source = "class A { init() { this.v = 7; } m() { fun f() { return this.v; } return f; } } print A().m()();";
    assert_eq!(prints(source), vec!["7"]);
}

#[test]
fn super_skips_one_level_at_a_time() {
    let source = "class A { m() { return \"A\"; } } \
                  class B < A { m() { return \"B\" + super.m(); } } \
                  class C < B { m() { return \"C\" + super.m(); } } print C().m();";
    assert_eq!(prints(source), vec!["CBA"]);
}

#[test]
fn super_is_bound_where_the_method_is_declared() {
    let source = "class A { say() { return \"A\"; } } \
                  class B < A { test() { return super.say(); } say() { return \"B\"; } } \
                  class C < B { say() { return \"C\"; } } print C().test();";
    assert_eq!(prints(source), vec!["A"]);
}

#[test]
fn methods_see_fields_set_later() {
    let source = "class A { get() { return this.v; } } var a = A(); var get = a.get; a.v = 3; print get();";
    assert_eq!(prints(source), vec!["3"]);
}

#[test]
fn block_scopes_nest() {
    let source = "var a = 1; { var b = 2; { var c = 3; print a + b + c; } var d = 4; print b + d; } print a;";
    assert_eq!(prints(source), vec!["6", "6", "1"]);
}

#[test]
fn parameters_shadow_globals() {
    let source = "var x = 1; fun f(x) { x = x + 1; return x; } print f(10); print x;";
    assert_eq!(prints(source), vec!["11", "1"]);
}

#[test]
fn functions_are_values() {
    let source = "fun twice(f, x) { return f(f(x)); } fun inc(n) { return n + 1; } print twice(inc, 5);";
    assert_eq!(prints(source), vec!["7"]);
}

#[test]
fn mutual_recursion_through_globals() {
    let source = "fun even(n) { if (n == 0) return true; return odd(n - 1); } \
                  fun odd(n) { if (n == 0) return false; return even(n - 1); } print even(10); print odd(7);";
    assert_eq!(prints(source), vec!["true", "true"]);
}

#[test]
fn strings_compare_by_content() {
    assert_eq!(prints("print \"ab\" == \"a\" + \"b\";"), vec!["true"]);
    assert_eq!(prints("print \"ab\" != \"ba\";"), vec!["true"]);
}

#[test]
fn deep_loops_run_to_the_end() {
    let source = "var sum = 0; for (var i = 0; i < 2000; i = i + 1) { sum = sum + i; } print sum;";
    assert_eq!(prints(source), vec!["1999000"]);
}

#[test]
fn nested_calls_restore_the_caller_scopes() {
    let source = "fun f(a) { var b = a * 2; { var c = g(b); return a + b + c; } } \
                  fun g(x) { var y = x + 1; return y; } var r = f(1); print r; { var z = f(2); print z; }";
    assert_eq!(prints(source), vec!["6", "11"]);
}

#[test]
fn instance_of_subclass_prints_its_own_class() {
    assert_eq!(prints("class A {} class B < A {} print B(); print B;"), vec!["B instance", "B"]);
}

#[test]
fn bound_methods_differ_from_each_other() {
    assert_eq!(prints("class A { m() {} } var a = A(); print a.m == a.m;"), vec!["false"]);
    assert_eq!(prints("class A { m() {} } var a = A(); var m = a.m; print m == m;"), vec!["true"]);
}

#[test]
fn calling_init_again_returns_the_same_instance() {
    let source = "class A { init() { this.n = 1; return; } } var a = A(); a.n = 2; var b = a.init(); print b.n; print a.n;";
    assert_eq!(prints(source), vec!["1", "1"]);
}

#[test]
fn runtime_error_inside_a_call_reports_the_line() {
    let outcome = run("fun f() {\n  return 1 + nil;\n}\nprint 1;\nf();\nprint 2;");
    assert_eq!(outcome.output, vec!["1"]);
    assert_eq!(outcome.diagnostics, vec!["Operands must be two numbers or two strings.\n[line 2]"]);
    assert_eq!(outcome.code, 70);
}

#[test]
fn division_and_negative_zero() {
    assert_eq!(prints("print 1 / 0;"), vec!["inf"]);
    assert_eq!(prints("print -1 / 0;"), vec!["-inf"]);
    assert_eq!(prints("print 0 / 0;"), vec!["NaN"]);
    assert_eq!(prints("print -0;"), vec!["0"]);
    assert_eq!(prints("print 10 / 4;"), vec!["2.5"]);
}
