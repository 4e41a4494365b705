use rivetlua::error::{CoreError, CoreErrorKind, Operation};
use rivetlua::limits::{INTEGER_BITS, INTEGER_MAX, INTEGER_MIN, NUMBER_CONFIGURATION};
use rivetlua::value::{
    FloatBits, Generation, IdCounter, ObjectId, ObjectRef, SlotId, Value, ValueKind, VmId,
    select_and, select_or,
};

fn float(value: f64) -> Value {
    Value::Float(FloatBits(value.to_bits()))
}

fn payload(value: Value) -> f64 {
    match value {
        Value::Float(bits) => f64::from_bits(bits.0),
        other => panic!("expected a float, got {:?}", other),
    }
}

fn opaque(ids: &mut IdCounter) -> ObjectRef {
    ObjectRef::new_opaque_from(ids).unwrap()
}

#[test]
fn errors_keep_operation_operand_and_reason() {
    let error = CoreError::new(
        Operation::FloorDivide,
        ValueKind::Integer,
        CoreErrorKind::IntegerDivideByZero,
    );
    assert_eq!(error.operation, Operation::FloorDivide);
    assert_eq!(error.operand, ValueKind::Integer);
    assert_eq!(error.kind, CoreErrorKind::IntegerDivideByZero);
}

#[test]
fn configuration_is_fixed_to_i64_and_f64() {
    assert_eq!(INTEGER_BITS, 64);
    assert_eq!(NUMBER_CONFIGURATION, "i64f64");
    assert_eq!(INTEGER_MIN, i64::MIN);
    assert_eq!(INTEGER_MAX, i64::MAX);
}

#[test]
fn object_identity_is_opaque_and_comparable() {
    let mut ids = IdCounter::new();
    let first = ObjectRef::new_opaque_from(&mut ids).unwrap();
    let same = first;
    let second = ObjectRef::new_opaque_from(&mut ids).unwrap();
    assert_eq!(first, same);
    assert_ne!(first, second);
}

#[test]
fn every_value_has_an_unambiguous_kind() {
    let mut ids = IdCounter::new();
    let object = opaque(&mut ids);
    assert_eq!(Value::Nil.kind(), ValueKind::Nil);
    assert_eq!(Value::Boolean(false).kind(), ValueKind::Boolean);
    assert_eq!(Value::Integer(0).kind(), ValueKind::Integer);
    assert_eq!(float(f64::NAN).kind(), ValueKind::Float);
    assert_eq!(Value::Object(object).kind(), ValueKind::Object);
}

#[test]
fn float_payloads_keep_ieee_categories() {
    assert!(payload(float(f64::NAN)).is_nan());
    assert!(payload(float(f64::INFINITY)).is_infinite());
    assert!(payload(float(-0.0)).is_sign_negative());
}

#[test]
fn truthiness_and_selection_keep_original_values() {
    let mut ids = IdCounter::new();
    let object = Value::Object(opaque(&mut ids));
    assert!(!Value::Nil.is_truthy());
    assert!(!Value::Boolean(false).is_truthy());
    assert!(Value::Integer(0).is_truthy());
    assert!(object.is_truthy());
    assert_eq!(select_and(Value::Integer(0), Value::Integer(7)), Value::Integer(7));
    assert_eq!(select_or(object, Value::Integer(8)), object);
    assert_eq!(select_and(Value::Nil, Value::Integer(7)), Value::Nil);
    assert_eq!(select_or(Value::Nil, Value::Integer(8)), Value::Integer(8));
}

#[test]
fn public_value_api_preserves_categories_and_object_identity() {
    let mut ids = IdCounter::new();
    let object = opaque(&mut ids);
    assert_eq!(Value::Nil.kind(), ValueKind::Nil);
    assert_eq!(Value::Boolean(true).kind(), ValueKind::Boolean);
    assert_eq!(Value::Integer(0).kind(), ValueKind::Integer);
    assert_eq!(float(-0.0).kind(), ValueKind::Float);
    assert_eq!(Value::Object(object).kind(), ValueKind::Object);
    assert_eq!(object, object);
}

#[test]
fn object_values_compare_all_heap_identity_fields() {
    let mut vms = IdCounter::new();
    let vm_a = VmId::new_unique_from(&mut vms).unwrap();
    let vm_b = VmId::new_unique_from(&mut vms).unwrap();
    let first = ObjectRef::from_id(ObjectId::new(vm_a, SlotId::new(0), Generation::new(0)));
    let foreign = ObjectRef::from_id(ObjectId::new(vm_b, SlotId::new(0), Generation::new(0)));
    let next_slot = ObjectRef::from_id(ObjectId::new(vm_a, SlotId::new(1), Generation::new(0)));
    let next_generation =
        ObjectRef::from_id(ObjectId::new(vm_a, SlotId::new(0), Generation::new(1)));
    assert_eq!(Value::Object(first).kind(), ValueKind::Object);
    assert_ne!(first, foreign);
    assert_ne!(first, next_slot);
    assert_ne!(first, next_generation);
    assert_eq!(first, ObjectRef::from_id(first.identity().unwrap()));
    let mut ids = IdCounter::new();
    assert!(opaque(&mut ids).identity().is_none());
}

#[test]
fn val_001_and_keeps_selected_operand() {
    assert_eq!(select_and(Value::Integer(0), Value::Integer(7)), Value::Integer(7));
}

#[test]
fn val_002_or_keeps_truthy_object_operand() {
    let mut ids = IdCounter::new();
    let object = Value::Object(opaque(&mut ids));
    assert_eq!(select_or(object, Value::Integer(8)), object);
}

#[test]
fn val_003_only_nil_and_false_are_falsey() {
    let mut ids = IdCounter::new();
    let object = Value::Object(opaque(&mut ids));
    assert!(!Value::Nil.is_truthy());
    assert!(!Value::Boolean(false).is_truthy());
    assert!(Value::Boolean(true).is_truthy());
    assert!(Value::Integer(0).is_truthy());
    assert!(float(-0.0).is_truthy());
    assert!(payload(float(-0.0)).is_sign_negative());
    assert!(object.is_truthy());
}

#[test]
fn and_and_or_pick_opposite_operands() {
    let values = [Value::Nil, Value::Boolean(false), Value::Boolean(true), Value::Integer(3), float(0.5)];
    for left in values {
        for right in values {
            let and = select_and(left, right);
            let or = select_or(left, right);
            assert!(and == left || and == right);
            assert!(or == left || or == right);
            if left != right {
                assert_ne!(and, or);
            }
        }
    }
}
