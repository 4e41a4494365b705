use rivetlua::error::{CoreError, CoreErrorKind, Operation};
use rivetlua::integer::{add, floor_divide, modulo, multiply, negate, shift, subtract};
use rivetlua::value::ValueKind;

#[test]
fn integer_floor_division_and_modulo_follow_lua_rules() {
    assert_eq!(floor_divide(-3, 2), Ok(-2));
    assert_eq!(modulo(-3, 2), Ok(1));
    assert_eq!(modulo(3, -2), Ok(-1));
    assert_eq!(floor_divide(7, -2), Ok(-4));
    assert_eq!(floor_divide(-7, -2), Ok(3));
    assert_eq!(floor_divide(6, -3), Ok(-2));
    assert_eq!(modulo(-7, -2), Ok(-1));
    assert_eq!(modulo(6, -3), Ok(0));
    assert_eq!(modulo(7, 3), Ok(1));
}

#[test]
fn integer_division_identity_holds_on_samples() {
    let samples: [i64; 9] = [-9, -7, -3, -1, 0, 1, 3, 7, 9];
    for &left in samples.iter() {
        for &right in samples.iter() {
            if right == 0 {
                continue;
            }
            let quotient = floor_divide(left, right).unwrap();
            let remainder = modulo(left, right).unwrap();
            assert_eq!(quotient * right + remainder, left);
            if right > 0 {
                assert!(0 <= remainder && remainder < right);
            } else {
                assert!(right < remainder && remainder <= 0);
            }
        }
    }
}

#[test]
fn integer_boundaries_wrap_or_return_checkable_errors() {
    assert_eq!(floor_divide(i64::MIN, -1), Ok(i64::MIN));
    assert_eq!(modulo(i64::MIN, -1), Ok(0));
    assert_eq!(
        floor_divide(1, 0),
        Err(CoreError::new(
            Operation::FloorDivide,
            ValueKind::Integer,
            CoreErrorKind::IntegerDivideByZero
        ))
    );
    assert_eq!(
        modulo(1, 0),
        Err(CoreError::new(
            Operation::Modulo,
            ValueKind::Integer,
            CoreErrorKind::IntegerModuloByZero
        ))
    );
    assert_eq!(floor_divide(i64::MIN, 2), Ok(i64::MIN / 2));
    assert_eq!(modulo(i64::MIN, i64::MAX), Ok(i64::MAX - 1));
}

#[test]
fn integer_arithmetic_wraps_around() {
    assert_eq!(add(5, 7), 12);
    assert_eq!(add(i64::MAX, 1), i64::MIN);
    assert_eq!(subtract(i64::MIN, 1), i64::MAX);
    assert_eq!(subtract(3, 10), -7);
    assert_eq!(multiply(-4, 6), -24);
    assert_eq!(multiply(i64::MAX, 2), -2);
    assert_eq!(multiply(1 << 32, 1 << 32), 0);
    assert_eq!(negate(5), -5);
    assert_eq!(negate(i64::MIN), i64::MIN);
}

#[test]
fn integer_shifts_follow_direction_and_width() {
    assert_eq!(shift(1, 4, true), 16);
    assert_eq!(shift(1, -1, true), 0);
    assert_eq!(shift(1, 64, true), 0);
    assert_eq!(shift(16, 4, false), 1);
    assert_eq!(shift(1, -4, false), 16);
    assert_eq!(shift(-1, 60, false), 15);
    assert_eq!(shift(-1, 63, true), i64::MIN);
    assert_eq!(shift(-1, -64, false), 0);
    assert_eq!(shift(5, 0, true), 5);
    assert_eq!(shift(5, i64::MIN, true), 0);
}

#[test]
fn num_001_floor_division() {
    assert_eq!(floor_divide(-3, 2), Ok(-2));
}

#[test]
fn num_002_negative_modulo() {
    assert_eq!(modulo(-3, 2), Ok(1));
}

#[test]
fn num_003_negative_divisor_modulo() {
    assert_eq!(modulo(3, -2), Ok(-1));
}

#[test]
fn num_004_integer_addition_wraps() {
    assert_eq!(add(i64::MAX, 1), i64::MIN);
}

#[test]
fn num_006_minimum_integer_boundaries_do_not_panic() {
    assert_eq!(floor_divide(i64::MIN, -1), Ok(i64::MIN));
    assert_eq!(modulo(i64::MIN, -1), Ok(0));
}

#[test]
fn err_001_integer_division_by_zero_is_checkable() {
    assert_eq!(
        floor_divide(1, 0).unwrap_err().kind,
        CoreErrorKind::IntegerDivideByZero
    );
}

#[test]
fn err_002_integer_modulo_by_zero_is_checkable() {
    assert_eq!(
        modulo(1, 0).unwrap_err().kind,
        CoreErrorKind::IntegerModuloByZero
    );
}
