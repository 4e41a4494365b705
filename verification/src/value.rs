//! Value categories and object identities.

use vstd::prelude::*;

verus! {

/// Identity of one VM; never zero.
#[derive(Clone, Copy, Debug, PartialEq, Eq, Structural, Hash)]
pub struct VmId(u64);

impl VmId {
    pub closed spec fn raw(self) -> u64 {
        self.0
    }

    /// Wraps a nonzero identity taken from an allocator; zero is refused.
    pub fn from_raw(raw: u64) -> (r: Option<Self>)
        ensures
            r is Some <==> raw != 0,
            r matches Some(id) ==> id.raw() == raw,
    {
        if raw == 0 {
            None
        } else {
            Some(VmId(raw))
        }
    }

    /// Two VM identities with the same number are the same identity.
    pub proof fn lemma_raw_determines(a: VmId, b: VmId)
        ensures
            a.raw() == b.raw() <==> a == b,
    {
    }

    /// The raw nonzero identity.
    pub fn get(self) -> (r: u64)
        ensures
            r == self.raw(),
    {
        self.0
    }
}

/// A slot index inside one VM; not an object identity by itself.
#[derive(Clone, Copy, Debug, PartialEq, Eq, Structural, Hash)]
pub struct SlotId(usize);

impl SlotId {
    pub closed spec fn spec_index(self) -> usize {
        self.0
    }

    /// Two slots with the same index are the same slot.
    pub proof fn lemma_index_determines(a: SlotId, b: SlotId)
        ensures
            a.spec_index() == b.spec_index() <==> a == b,
    {
    }

    pub fn new(index: usize) -> (r: Self)
        ensures
            r.spec_index() == index,
    {
        SlotId(index)
    }

    pub fn index(self) -> (r: usize)
        ensures
            r == self.spec_index(),
    {
        self.0
    }
}

/// The generation of a slot, advanced each time the slot is reused.
#[derive(Clone, Copy, Debug, PartialEq, Eq, Structural, Hash)]
pub struct Generation(u64);

impl Generation {
    pub closed spec fn spec_value(self) -> u64 {
        self.0
    }

    pub fn new(value: u64) -> (r: Self)
        ensures
            r.spec_value() == value,
    {
        Generation(value)
    }

    /// Two generations with the same value are the same generation.
    pub proof fn lemma_value_determines(a: Generation, b: Generation)
        ensures
            a.spec_value() == b.spec_value() <==> a == b,
    {
    }

    pub fn value(self) -> (r: u64)
        ensures
            r == self.spec_value(),
    {
        self.0
    }

    /// The following generation; `None` at the end of the range, never wrapping.
    pub fn next(self) -> (r: Option<Self>)
        ensures
            r is Some <==> self.spec_value() < u64::MAX,
            r matches Some(g) ==> g.spec_value() == self.spec_value() + 1,
    {
        match self.0.checked_add(1) {
            Some(next) => Some(Generation(next)),
            None => None,
        }
    }
}

/// A complete heap object identity.  Building one does not mean that the
/// object exists: the runtime checks it on every access.
#[derive(Clone, Copy, Debug, PartialEq, Eq, Structural, Hash)]
pub struct ObjectId {
    pub vm: VmId,
    pub slot: SlotId,
    pub generation: Generation,
}

impl ObjectId {
    pub fn new(vm: VmId, slot: SlotId, generation: Generation) -> (r: Self)
        ensures
            r.vm == vm,
            r.slot == slot,
            r.generation == generation,
    {
        ObjectId { vm, slot, generation }
    }
}

/// The two shapes of an object reference.
#[derive(Clone, Copy, Debug, PartialEq, Eq, Structural, Hash)]
pub enum ObjectRefKind {
    /// An opaque identity kept only to classify values.
    Opaque(u64),
    /// A full heap identity, with the allocation token when the runtime made it.
    Heap { id: ObjectId, token: Option<u64> },
}

/// An opaque object reference.
#[derive(Clone, Copy, Debug, PartialEq, Eq, Structural, Hash)]
pub struct ObjectRef(ObjectRefKind);

impl ObjectRef {
    pub closed spec fn spec_kind(self) -> ObjectRefKind {
        self.0
    }

    /// Two references of the same shape are the same reference.
    pub proof fn lemma_kind_determines(a: ObjectRef, b: ObjectRef)
        ensures
            a.spec_kind() == b.spec_kind() <==> a == b,
    {
    }

    /// A reference of the opaque kind for a nonzero identity handed out by an allocator.
    pub fn from_opaque_raw(raw: u64) -> (r: Option<Self>)
        ensures
            r is Some <==> raw != 0,
            r matches Some(o) ==> o.spec_kind() == ObjectRefKind::Opaque(raw),
    {
        if raw == 0 {
            None
        } else {
            Some(ObjectRef(ObjectRefKind::Opaque(raw)))
        }
    }

    /// Wraps an unchecked full identity, without an allocation token.
    pub fn from_id(id: ObjectId) -> (r: Self)
        ensures
            r.spec_kind() == (ObjectRefKind::Heap { id, token: None }),
    {
        ObjectRef(ObjectRefKind::Heap { id, token: None })
    }

    /// Wraps a full identity with a nonzero allocation token; zero is refused.
    pub fn from_runtime_token(id: ObjectId, token: u64) -> (r: Option<Self>)
        ensures
            r is Some <==> token != 0,
            r matches Some(o) ==> o.spec_kind() == (ObjectRefKind::Heap { id, token: Some(token) }),
    {
        if token == 0 {
            None
        } else {
            Some(ObjectRef(ObjectRefKind::Heap { id, token: Some(token) }))
        }
    }

    /// The full heap identity; an opaque reference has none.
    pub fn identity(self) -> (r: Option<ObjectId>)
        ensures
            r == (match self.spec_kind() {
                ObjectRefKind::Opaque(_) => None,
                ObjectRefKind::Heap { id, .. } => Some(id),
            }),
    {
        match self.0 {
            ObjectRefKind::Opaque(_) => None,
            ObjectRefKind::Heap { id, .. } => Some(id),
        }
    }
}

/// A source of identities: each call hands out the next number, starting at
/// one, and none is ever handed out twice; at the end of the range it hands
/// out nothing rather than wrap.
pub struct IdCounter {
    next: u64,
}

impl IdCounter {
    /// A counter never hands out zero.
    #[verifier::type_invariant]
    spec fn starts_at_one(self) -> bool {
        self.next >= 1
    }

    /// The next number this counter would hand out.
    pub closed spec fn spec_next(self) -> u64 {
        self.next
    }

    /// A counter that starts at one.
    pub fn new() -> (r: Self)
        ensures
            r.spec_next() == 1,
    {
        IdCounter { next: 1 }
    }

    /// Hands out the next number, or nothing once the range is exhausted.
    pub fn take(&mut self) -> (r: Option<u64>)
        ensures
            old(self).spec_next() < u64::MAX ==> r == Some(old(self).spec_next())
                && final(self).spec_next() == old(self).spec_next() + 1,
            old(self).spec_next() == u64::MAX ==> r is None && final(self).spec_next() == old(self).spec_next(),
            final(self).spec_next() >= 1,
            r matches Some(v) ==> v >= 1,
    {
        proof {
            use_type_invariant(&*self);
        }
        match self.next.checked_add(1) {
            Some(after) => {
                let id = self.next;
                self.next = after;
                Some(id)
            },
            None => None,
        }
    }
}

/// Numbers handed out by one counter never repeat: a number taken after
/// another is larger than it.
pub proof fn lemma_taken_ids_differ(first: u64, second: u64, before: IdCounter, middle: IdCounter)
    requires
        before.spec_next() < u64::MAX,
        first == before.spec_next(),
        middle.spec_next() == before.spec_next() + 1,
        second == middle.spec_next(),
    ensures
        first < second,
{
}

impl VmId {
    /// A fresh VM identity from `counter`; none once it is exhausted or if
    /// it hands out zero.
    pub fn new_unique_from(counter: &mut IdCounter) -> (r: Option<Self>)
        ensures
            old(counter).spec_next() < u64::MAX ==> (r matches Some(id) && id.raw() == old(counter).spec_next()),
            old(counter).spec_next() == u64::MAX ==> r is None,
            old(counter).spec_next() < u64::MAX ==> final(counter).spec_next() == old(counter).spec_next() + 1,
            old(counter).spec_next() == u64::MAX ==> final(counter).spec_next() == old(counter).spec_next(),
    {
        proof {
            use_type_invariant(&*counter);
        }
        match counter.take() {
            Some(id) => VmId::from_raw(id),
            None => None,
        }
    }
}

impl ObjectRef {
    /// A fresh opaque reference from `counter`.
    pub fn new_opaque_from(counter: &mut IdCounter) -> (r: Option<Self>)
        ensures
            old(counter).spec_next() < u64::MAX ==> (r matches Some(o)
                && o.spec_kind() == ObjectRefKind::Opaque(old(counter).spec_next())),
            old(counter).spec_next() == u64::MAX ==> r is None,
            old(counter).spec_next() < u64::MAX ==> final(counter).spec_next() == old(counter).spec_next() + 1,
            old(counter).spec_next() == u64::MAX ==> final(counter).spec_next() == old(counter).spec_next(),
    {
        proof {
            use_type_invariant(&*counter);
        }
        match counter.take() {
            Some(id) => ObjectRef::from_opaque_raw(id),
            None => None,
        }
    }

    /// A full identity with a fresh allocation token from `counter`.
    pub fn new_runtime_from(id: ObjectId, counter: &mut IdCounter) -> (r: Option<Self>)
        ensures
            old(counter).spec_next() < u64::MAX ==> (r matches Some(o)
                && o.spec_kind() == (ObjectRefKind::Heap { id, token: Some(old(counter).spec_next()) })),
            old(counter).spec_next() == u64::MAX ==> r is None,
            old(counter).spec_next() < u64::MAX ==> final(counter).spec_next() == old(counter).spec_next() + 1,
            old(counter).spec_next() == u64::MAX ==> final(counter).spec_next() == old(counter).spec_next(),
    {
        proof {
            use_type_invariant(&*counter);
        }
        match counter.take() {
            Some(token) => ObjectRef::from_runtime_token(id, token),
            None => None,
        }
    }
}

/// The category of a value, without its payload.
#[derive(Clone, Copy, Debug, PartialEq, Eq, Structural)]
pub enum ValueKind {
    Nil,
    Boolean,
    Integer,
    Float,
    Object,
}

/// The IEEE-754 binary64 bit pattern of a float payload.  The library only
/// carries it; arithmetic on floats is done by the host.
#[derive(Clone, Copy, Debug, PartialEq, Eq, Structural)]
pub struct FloatBits(pub u64);

/// A Lua value.  A float is held by its bit pattern, so two floats are `==`
/// here when their bits agree; numeric equality of floats is the host's.
#[derive(Clone, Copy, Debug, PartialEq, Eq, Structural)]
pub enum Value {
    Nil,
    Boolean(bool),
    Integer(i64),
    Float(FloatBits),
    Object(ObjectRef),
}

/// The category of `v`.
pub open spec fn kind_of(v: Value) -> ValueKind {
    match v {
        Value::Nil => ValueKind::Nil,
        Value::Boolean(_) => ValueKind::Boolean,
        Value::Integer(_) => ValueKind::Integer,
        Value::Float(_) => ValueKind::Float,
        Value::Object(_) => ValueKind::Object,
    }
}

/// Lua truth: only nil and false are false.
pub open spec fn truthy(v: Value) -> bool {
    !(v is Nil || v == Value::Boolean(false))
}

impl Value {
    /// The category of the value, without converting its payload.
    pub fn kind(self) -> (r: ValueKind)
        ensures
            r == kind_of(self),
    {
        match self {
            Value::Nil => ValueKind::Nil,
            Value::Boolean(_) => ValueKind::Boolean,
            Value::Integer(_) => ValueKind::Integer,
            Value::Float(_) => ValueKind::Float,
            Value::Object(_) => ValueKind::Object,
        }
    }

    /// Lua truth: only nil and false are false.
    pub fn is_truthy(self) -> (r: bool)
        ensures
            r == truthy(self),
    {
        match self {
            Value::Nil => false,
            Value::Boolean(b) => b,
            _ => true,
        }
    }
}

/// What `left and right` gives: the right operand when the left one is
/// true, else the left one.
pub open spec fn and_of(left: Value, right: Value) -> Value {
    if truthy(left) { right } else { left }
}

/// What `left or right` gives: the left operand when it is true, else the
/// right one.
pub open spec fn or_of(left: Value, right: Value) -> Value {
    if truthy(left) { left } else { right }
}

/// The `and` rule, which keeps its operands unchanged.  It does not
/// evaluate the right operand.
pub fn select_and(left: Value, right: Value) -> (r: Value)
    ensures
        r == and_of(left, right),
{
    if left.is_truthy() {
        right
    } else {
        left
    }
}

/// The `or` rule, which keeps its operands unchanged.  It does not
/// evaluate the right operand.
pub fn select_or(left: Value, right: Value) -> (r: Value)
    ensures
        r == or_of(left, right),
{
    if left.is_truthy() {
        left
    } else {
        right
    }
}

/// `and` and `or` only ever give back one of their operands; a false left
/// operand is what `and` gives and a true one is what `or` gives; and of
/// the two operands, `and` and `or` give opposite ones unless they are equal.
pub proof fn lemma_selection_picks_operands(left: Value, right: Value)
    ensures
        and_of(left, right) == left || and_of(left, right) == right,
        or_of(left, right) == left || or_of(left, right) == right,
        !truthy(left) ==> and_of(left, right) == left,
        truthy(left) ==> or_of(left, right) == left,
        left != right ==> and_of(left, right) != or_of(left, right),
{
}

} // verus!
