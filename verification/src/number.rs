use vstd::arithmetic::div_mod::*;
use vstd::arithmetic::mul::*;
use vstd::arithmetic::power2::*;
use vstd::prelude::*;
use crate::text::{decimal, push_char, push_decimal};

verus! {

/// The exponent field of a number held as IEEE 754 binary64 bits.
pub open spec fn exponent(bits: u64) -> nat {
    ((bits >> 52) & 0x7ff) as nat
}

/// The fraction field: the low 52 bits.
pub open spec fn fraction(bits: u64) -> nat {
    (bits & 0xf_ffff_ffff_ffff) as nat
}

/// Whether the sign bit is set.
pub open spec fn negative(bits: u64) -> bool {
    bits >> 63 == 1
}

/// The bits without the sign bit.
pub open spec fn magnitude(bits: u64) -> u64 {
    bits & 0x7fff_ffff_ffff_ffff
}

/// Whether the bits are a NaN: exponent all ones, fraction not zero.
pub open spec fn is_nan(bits: u64) -> bool {
    magnitude(bits) > 0x7ff0_0000_0000_0000
}

/// A number's place in the order of the numbers that are no NaN: the
/// magnitude bits, counted below zero for a negative number. Both zeros
/// have place 0, and a greater number has a greater place.
pub open spec fn place(bits: u64) -> int {
    if negative(bits) {
        -(magnitude(bits) as int)
    } else {
        magnitude(bits) as int
    }
}

/// IEEE 754 equality: no NaN equals anything; the two zeros are equal.
pub open spec fn number_equal(a: u64, b: u64) -> bool {
    !is_nan(a) && !is_nan(b) && place(a) == place(b)
}

/// IEEE 754 `<`: false where either side is a NaN.
pub open spec fn number_less(a: u64, b: u64) -> bool {
    !is_nan(a) && !is_nan(b) && place(a) < place(b)
}

/// The number with its sign turned round.
pub open spec fn negated(bits: u64) -> u64 {
    bits ^ 0x8000_0000_0000_0000
}

/// `amount`, or its opposite where `minus` holds.
pub open spec fn signed(minus: bool, amount: nat) -> int {
    if minus {
        -(amount as int)
    } else {
        amount as int
    }
}

/// The integer that the bits stand for, where they stand for a finite
/// number without a fractional part. A number from 1 up is
/// `(2^52 + fraction) * 2^(exponent - 1075)`.
pub open spec fn integer_value(bits: u64) -> Option<int> {
    let e = exponent(bits);
    let significand = pow2(52) + fraction(bits);
    if magnitude(bits) == 0 {
        Some(0)
    } else if e == 0x7ff || e < 1023 {
        None
    } else if e >= 1075 {
        Some(signed(negative(bits), significand * pow2((e - 1075) as nat)))
    } else if significand % pow2((1075 - e) as nat) == 0 {
        Some(signed(negative(bits), significand / pow2((1075 - e) as nat)))
    } else {
        None
    }
}

/// `v` brought into the range of a signed 64-bit integer.
pub open spec fn clamped(v: int) -> int {
    if v > i64::MAX {
        i64::MAX as int
    } else if v < i64::MIN {
        i64::MIN as int
    } else {
        v
    }
}

/// The decimal text of an integer, with `-` before a negative one.
pub open spec fn integer_text(v: int) -> Seq<char> {
    if v < 0 {
        seq!['-'] + decimal((-v) as nat)
    } else {
        decimal(v as nat)
    }
}

/// The text that a number without a fractional part is printed as: its
/// integer, brought into the signed 64-bit range, in decimal.
pub open spec fn integral_text(bits: u64) -> Option<Seq<char>> {
    match integer_value(bits) {
        Some(v) => Some(integer_text(clamped(v))),
        None => None,
    }
}

fn place_of(bits: u64) -> (p: i128)
    ensures
        p == place(bits),
{
    let m = bits & 0x7fff_ffff_ffff_ffff;
    if bits >> 63 == 1 {
        -(m as i128)
    } else {
        m as i128
    }
}

/// Whether the bits are a NaN.
pub fn nan(bits: u64) -> (r: bool)
    ensures
        r == is_nan(bits),
{
    bits & 0x7fff_ffff_ffff_ffff > 0x7ff0_0000_0000_0000
}

/// Whether two numbers are equal.
pub fn equal(a: u64, b: u64) -> (r: bool)
    ensures
        r == number_equal(a, b),
{
    !nan(a) && !nan(b) && place_of(a) == place_of(b)
}

/// Whether `a` is less than `b`.
pub fn less(a: u64, b: u64) -> (r: bool)
    ensures
        r == number_less(a, b),
{
    !nan(a) && !nan(b) && place_of(a) < place_of(b)
}

/// The number with its sign turned round.
pub fn negate(bits: u64) -> (r: u64)
    ensures
        r == negated(bits),
{
    bits ^ 0x8000_0000_0000_0000
}

proof fn lemma_odd_blocks(v: nat, j: nat, k: nat)
    requires
        v % 2 == 1,
        j < k,
    ensures
        (v * pow2(j)) % pow2(k) != 0,
{
    let s = v * pow2(j);
    lemma_pow2_pos(j);
    lemma_pow2_pos(k);
    if s % pow2(k) == 0 {
        let c = s / pow2(k);
        lemma_fundamental_div_mod(s as int, pow2(k) as int);
        assert(s == pow2(k) * c);
        lemma_pow2_adds(j, (k - j) as nat);
        let d = pow2((k - j) as nat);
        assert(pow2(k) == pow2(j) * d);
        lemma_pow2_unfold((k - j) as nat);
        let h = pow2((k - j - 1) as nat);
        assert(d == 2 * h);
        assert(pow2(j) * d * c == pow2(j) * (d * c)) by {
            lemma_mul_is_associative(pow2(j) as int, d as int, c as int);
        }
        assert(v * pow2(j) == pow2(j) * v) by {
            lemma_mul_is_commutative(v as int, pow2(j) as int);
        }
        assert(v == d * c) by {
            lemma_mul_equality_converse(pow2(j) as int, v as int, (d * c) as int);
        }
        assert(d * c == 2 * (h * c)) by {
            lemma_mul_is_associative(2, h as int, c as int);
        }
        assert(v % 2 == 0) by {
            lemma_mod_multiples_basic((h * c) as int, 2);
            lemma_mul_is_commutative(2, (h * c) as int);
        }
    }
}

/// The integer of a number without a fractional part, brought into the
/// signed 64-bit range.
pub fn integer_of(bits: u64) -> (r: Option<i64>)
    ensures
        match r {
            Some(v) => integer_value(bits) is Some && v == clamped(integer_value(bits)->0),
            None => integer_value(bits) is None,
        },
{
    let e = (bits >> 52) & 0x7ff;
    let f = bits & 0xf_ffff_ffff_ffff;
    let minus = bits >> 63 == 1;
    if bits & 0x7fff_ffff_ffff_ffff == 0 {
        return Some(0);
    }
    if e == 0x7ff || e < 1023 {
        return None;
    }
    assert(f < 0x10_0000_0000_0000) by (bit_vector)
        requires
            f == bits & 0xf_ffff_ffff_ffff,
    ;
    assert(e <= 0x7ff) by (bit_vector)
        requires
            e == (bits >> 52) & 0x7ff,
    ;
    proof {
        lemma2_to64_rest();
    }
    let significand: u64 = 0x10_0000_0000_0000 + f;
    assert(significand == pow2(52) + fraction(bits));
    if e >= 1075 {
        let k = e - 1075;
        if k >= 11 {
            proof {
                lemma2_to64();
                lemma_pow2_adds(11, (k - 11) as nat);
                lemma_pow2_pos((k - 11) as nat);
                assert(pow2(k as nat) >= pow2(11)) by (nonlinear_arith)
                    requires
                        pow2(k as nat) == pow2(11) * pow2((k - 11) as nat),
                        pow2((k - 11) as nat) >= 1,
                ;
                assert(significand * pow2(k as nat) >= 0x8000_0000_0000_0000) by (nonlinear_arith)
                    requires
                        significand >= 0x10_0000_0000_0000,
                        pow2(k as nat) >= 2048,
                ;
            }
            return Some(if minus { i64::MIN } else { i64::MAX });
        }
        let mut v: u64 = significand;
        let mut j: u64 = 0;
        proof {
            lemma2_to64();
        }
        while j < k
            invariant
                j <= k < 11,
                v == significand * pow2(j as nat),
                significand < 0x20_0000_0000_0000,
            decreases k - j,
        {
            proof {
                lemma_pow2_unfold((j + 1) as nat);
                lemma2_to64();
                lemma_pow2_strictly_increases((j + 1) as nat, 11);
                assert(significand * pow2((j + 1) as nat) == 2 * (significand * pow2(j as nat)))
                    by (nonlinear_arith)
                    requires
                        pow2((j + 1) as nat) == 2 * pow2(j as nat),
                ;
                assert(significand * pow2((j + 1) as nat) < 0x20_0000_0000_0000 * 2048)
                    by (nonlinear_arith)
                    requires
                        significand < 0x20_0000_0000_0000,
                        pow2((j + 1) as nat) < 2048,
                ;
            }
            v = v * 2;
            j = j + 1;
        }
        proof {
            lemma2_to64();
            if k < 10 {
                lemma_pow2_strictly_increases(k as nat, 10);
            }
            assert(significand * pow2(k as nat) < 0x8000_0000_0000_0000) by (nonlinear_arith)
                requires
                    significand < 0x20_0000_0000_0000,
                    pow2(k as nat) <= 1024,
            ;
        }
        Some(if minus { -(v as i64) } else { v as i64 })
    } else {
        let k = 1075 - e;
        let mut v: u64 = significand;
        let mut j: u64 = 0;
        proof {
            lemma2_to64();
        }
        while j < k
            invariant
                j <= k <= 52,
                v * pow2(j as nat) == significand,
                significand < 0x20_0000_0000_0000,
                integer_value(bits) == if significand as nat % pow2(k as nat) == 0 {
                    Some(signed(minus, significand as nat / pow2(k as nat)))
                } else {
                    Option::<int>::None
                },
            decreases k - j,
        {
            if v % 2 != 0 {
                proof {
                    lemma_odd_blocks(v as nat, j as nat, k as nat);
                }
                return None;
            }
            proof {
                lemma_pow2_unfold((j + 1) as nat);
                assert((v / 2) * pow2((j + 1) as nat) == v * pow2(j as nat)) by (nonlinear_arith)
                    requires
                        v % 2 == 0,
                        pow2((j + 1) as nat) == 2 * pow2(j as nat),
                ;
            }
            v = v / 2;
            j = j + 1;
        }
        proof {
            lemma_pow2_pos(k as nat);
            lemma_mod_multiples_basic(v as int, pow2(k as nat) as int);
            lemma_div_multiples_vanish(v as int, pow2(k as nat) as int);
            lemma_mul_is_commutative(v as int, pow2(k as nat) as int);
            assert(significand as nat % pow2(k as nat) == 0);
            assert(significand as nat / pow2(k as nat) == v);
            assert(v <= significand) by (nonlinear_arith)
                requires
                    v * pow2(k as nat) == significand,
                    pow2(k as nat) >= 1,
            ;
        }
        Some(if minus { -(v as i64) } else { v as i64 })
    }
}

/// Writes an integer in decimal.
pub fn integer_string(v: i64) -> (s: String)
    ensures
        s@ == integer_text(v as int),
{
    let mut s = String::new();
    if v < 0 {
        push_char(&mut s, '-');
        let m: u64 = (-(v as i128)) as u64;
        push_decimal(&mut s, m);
        assert(s@ =~= integer_text(v as int));
    } else {
        push_decimal(&mut s, v as u64);
        assert(s@ =~= integer_text(v as int));
    }
    s
}

/// The text of a number that has no fractional part; `None` for any other
/// number.
pub fn integral_string(bits: u64) -> (r: Option<String>)
    ensures
        match r {
            Some(s) => integral_text(bits) == Some(s@),
            None => integral_text(bits) is None,
        },
{
    match integer_of(bits) {
        Some(v) => Some(integer_string(v)),
        None => None,
    }
}

} // verus!
