//! Integer arithmetic under Lua's rules: division rounded toward negative
//! infinity, the remainder that agrees with it, and logical shifts.

use vstd::prelude::*;
use vstd::arithmetic::div_mod::lemma_fundamental_div_mod;
use vstd::arithmetic::div_mod::lemma_fundamental_div_mod_converse;
use vstd::arithmetic::div_mod::lemma_mod_multiples_basic;
use crate::error::{CoreError, CoreErrorKind, Operation};
use crate::value::ValueKind;

verus! {

/// The quotient of `a` by `b` rounded toward negative infinity.
pub open spec fn floor_div(a: int, b: int) -> int {
    if b > 0 {
        a / b
    } else {
        (-a) / (-b)
    }
}

/// The remainder that agrees with `floor_div`: it has the divisor's sign.
pub open spec fn floor_mod(a: int, b: int) -> int {
    a - b * floor_div(a, b)
}

/// For a negative divisor, rounding toward negative infinity is the
/// Euclidean quotient, less one when the division is inexact.
proof fn lemma_floor_from_euclid(a: int, b: int)
    requires
        b < 0,
    ensures
        a % b == 0 ==> floor_div(a, b) == a / b && floor_mod(a, b) == 0,
        a % b != 0 ==> floor_div(a, b) == a / b - 1 && floor_mod(a, b) == a % b + b,
        b < floor_mod(a, b) <= 0,
{
    lemma_fundamental_div_mod(a, b);
    let q = a / b;
    let r = a % b;
    assert(a == b * q + r);
    assert(0 <= r < -b);
    if r == 0 {
        assert(-a == (-b) * q + 0) by (nonlinear_arith)
            requires
                a == b * q + r,
                r == 0,
        ;
        lemma_fundamental_div_mod_converse(-a, -b, q, 0);
    } else {
        assert(-a == (-b) * (q - 1) + (-b - r)) by (nonlinear_arith)
            requires
                a == b * q + r,
        ;
        lemma_fundamental_div_mod_converse(-a, -b, q - 1, -b - r);
    }
    assert(floor_mod(a, b) == a - b * floor_div(a, b));
    if r == 0 {
        assert(a - b * q == 0) by (nonlinear_arith)
            requires
                a == b * q + r,
                r == 0,
        ;
    } else {
        assert(a - b * (q - 1) == r + b) by (nonlinear_arith)
            requires
                a == b * q + r,
        ;
    }
}

/// For a positive divisor the remainder lies in `0..b`.
proof fn lemma_floor_positive(a: int, b: int)
    requires
        b > 0,
    ensures
        floor_div(a, b) == a / b,
        floor_mod(a, b) == a % b,
        0 <= floor_mod(a, b) < b,
{
    lemma_fundamental_div_mod(a, b);
}

/// Lua `//` on integers: a zero divisor is an error; the smallest integer
/// divided by minus one wraps to itself; otherwise the quotient rounded
/// toward negative infinity.
pub fn floor_divide(left: i64, right: i64) -> (r: Result<i64, CoreError>)
    ensures
        right == 0 ==> r == Err::<i64, CoreError>(CoreError {
            operation: Operation::FloorDivide,
            operand: ValueKind::Integer,
            kind: CoreErrorKind::IntegerDivideByZero,
        }),
        right != 0 && !(left == i64::MIN && right == -1) ==> r == Ok::<i64, CoreError>(floor_div(left as int, right as int) as i64)
            && i64::MIN <= floor_div(left as int, right as int) <= i64::MAX,
        left == i64::MIN && right == -1 ==> r == Ok::<i64, CoreError>(i64::MIN),
{
    if right == 0 {
        return Err(CoreError::new(Operation::FloorDivide, ValueKind::Integer, CoreErrorKind::IntegerDivideByZero));
    }
    if left == i64::MIN && right == -1 {
        return Ok(i64::MIN);
    }
    proof {
        lemma_fundamental_div_mod(left as int, right as int);
        if right > 0 {
            lemma_floor_positive(left as int, right as int);
        } else {
            lemma_floor_from_euclid(left as int, right as int);
        }
        assert(i64::MIN <= (left as int) / (right as int) <= i64::MAX) by (nonlinear_arith)
            requires
                right != 0,
                !(left == i64::MIN && right == -1),
                left as int == (right as int) * ((left as int) / (right as int)) + (left as int) % (right as int),
                0 <= (left as int) % (right as int) < if right > 0 { right as int } else { -(right as int) },
        ;
    }
    let quotient = match left.checked_div_euclid(right) {
        Some(q) => q,
        None => {
            return Ok(i64::MIN);
        },
    };
    let remainder = match left.checked_rem_euclid(right) {
        Some(m) => m,
        None => {
            return Ok(i64::MIN);
        },
    };
    if right < 0 && remainder != 0 {
        proof {
            assert(floor_div(left as int, right as int) == quotient - 1);
        }
        Ok(quotient - 1)
    } else {
        Ok(quotient)
    }
}

/// Lua `%` on integers: a zero divisor is an error; otherwise the remainder
/// of division rounded toward negative infinity, which has the divisor's
/// sign.
pub fn modulo(left: i64, right: i64) -> (r: Result<i64, CoreError>)
    ensures
        right == 0 ==> r == Err::<i64, CoreError>(CoreError {
            operation: Operation::Modulo,
            operand: ValueKind::Integer,
            kind: CoreErrorKind::IntegerModuloByZero,
        }),
        right != 0 ==> r == Ok::<i64, CoreError>(floor_mod(left as int, right as int) as i64),
        right > 0 ==> 0 <= floor_mod(left as int, right as int) < right,
        right < 0 ==> right < floor_mod(left as int, right as int) <= 0,
{
    if right > 0 {
        proof {
            lemma_floor_positive(left as int, right as int);
        }
    } else if right < 0 {
        proof {
            lemma_floor_from_euclid(left as int, right as int);
        }
    }
    if right == 0 {
        return Err(CoreError::new(Operation::Modulo, ValueKind::Integer, CoreErrorKind::IntegerModuloByZero));
    }
    if left == i64::MIN && right == -1 {
        return Ok(0);
    }
    let remainder = match left.checked_rem_euclid(right) {
        Some(m) => m,
        None => {
            return Ok(0);
        },
    };
    if right < 0 && remainder != 0 {
        Ok(remainder + right)
    } else {
        Ok(remainder)
    }
}

/// The number of distinct 64-bit integers: results of integer arithmetic
/// are taken modulo this.
pub open spec fn modulus() -> int {
    0x1_0000_0000_0000_0000
}

/// The two's-complement wrap of `x` to 64 bits.
pub open spec fn wrapped(x: int) -> int {
    let r = x % modulus();
    if r >= 0x8000_0000_0000_0000 { r - modulus() } else { r }
}

/// The decimal digits of a natural number.
pub open spec fn digits(n: nat) -> Seq<u8>
    decreases n,
{
    if n < 10 {
        seq![(48 + n) as u8]
    } else {
        digits(n / 10).push((48 + n % 10) as u8)
    }
}

/// The text Lua gives an integer: its decimal digits, after `-` when it is
/// negative.
pub open spec fn decimal_text(n: int) -> Seq<u8> {
    if n < 0 { seq![45u8] + digits((-n) as nat) } else { digits(n as nat) }
}

/// What an operator gives when its operands are integers: an integer (already
/// wrapped to 64 bits), a truth value, the float nearest the real quotient
/// or power of the two, the text of both joined, or an error.
pub enum IntegerOutcome {
    Integer(int),
    Truth(bool),
    Quotient(int, int),
    Power(int, int),
    Joined(Seq<u8>),
    Refused,
}

/// `r` is the two's-complement wrap of the mathematical value `exact`: the
/// two agree modulo 2^64 (and `r`, an `i64`, is in range).
pub open spec fn wraps_to(r: i64, exact: int) -> bool {
    (r as int - exact) % modulus() == 0
}

/// Lua `+` on integers: wraps around on overflow.
pub fn add(left: i64, right: i64) -> (r: i64)
    ensures
        wraps_to(r, left + right),
        i64::MIN <= left + right <= i64::MAX ==> r == left + right,
{
    left.wrapping_add(right)
}

/// Lua `-` on integers: wraps around on overflow.
pub fn subtract(left: i64, right: i64) -> (r: i64)
    ensures
        wraps_to(r, left - right),
        i64::MIN <= left - right <= i64::MAX ==> r == left - right,
{
    left.wrapping_sub(right)
}

/// Lua `*` on integers: wraps around on overflow.
pub fn multiply(left: i64, right: i64) -> (r: i64)
    ensures
        wraps_to(r, left * right),
        i64::MIN <= left * right <= i64::MAX ==> r == left * right,
{
    let r = left.wrapping_mul(right);
    proof {
        let p: int = left * right;
        lemma_fundamental_div_mod(p, modulus());
        lemma_mod_multiples_basic(-(p / modulus()), modulus());
        assert(p % modulus() - p == (-(p / modulus())) * modulus()) by (nonlinear_arith)
            requires
                p == modulus() * (p / modulus()) + p % modulus(),
        ;
        assert((p % modulus() - modulus() - p) % modulus() == 0) by {
            lemma_mod_multiples_basic(-(p / modulus()) - 1, modulus());
            assert(p % modulus() - modulus() - p == (-(p / modulus()) - 1) * modulus()) by (nonlinear_arith)
                requires
                    p == modulus() * (p / modulus()) + p % modulus(),
            ;
        }
        if i64::MIN <= p <= i64::MAX {
            if p >= 0 {
                lemma_fundamental_div_mod_converse(p, modulus(), 0, p);
            } else {
                lemma_fundamental_div_mod_converse(p, modulus(), -1, p + modulus());
            }
        }
    }
    r
}

/// Lua unary `-` on integers: the smallest integer is its own negation.
pub fn negate(value: i64) -> (r: i64)
    ensures
        wraps_to(r, -value),
        value != i64::MIN ==> r == -value,
        value == i64::MIN ==> r == i64::MIN,
{
    if value == i64::MIN {
        proof {
            lemma_mod_multiples_basic(-1, modulus());
        }
        value
    } else {
        -value
    }
}

/// A logical shift of the 64-bit pattern of `value`: by `amount` places to
/// the left when `amount` is not negative and `left` holds, or when it is
/// negative and `left` does not; to the right otherwise.  A shift by 64
/// places or more gives zero.
pub open spec fn shift_spec(value: i64, amount: i64, left: bool) -> i64 {
    let magnitude: int = if amount >= 0 { amount as int } else { -(amount as int) };
    if magnitude >= 64 {
        0
    } else if (amount >= 0) == left {
        ((value as u64) << (magnitude as u64)) as i64
    } else {
        ((value as u64) >> (magnitude as u64)) as i64
    }
}

/// Lua `<<` and `>>` on integers, as `shift_spec` gives them.
pub fn shift(value: i64, amount: i64, left: bool) -> (r: i64)
    ensures
        r == shift_spec(value, amount, left),
{
    if amount >= 64 || amount <= -64 {
        return 0;
    }
    let magnitude: u64 = if amount >= 0 { amount as u64 } else { (-amount) as u64 };
    let bits = value as u64;
    if (amount >= 0) == left {
        (bits << magnitude) as i64
    } else {
        (bits >> magnitude) as i64
    }
}

} // verus!
