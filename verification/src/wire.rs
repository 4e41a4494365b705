//! Little-endian byte writing and bounds-checked byte reading.

use vstd::prelude::*;
use vstd::arithmetic::div_mod::{lemma_mod_breakdown, lemma_fundamental_div_mod_converse};

use crate::module::{BytecodeError, bytecode_refusal, verify_error, limit_error};

verus! {

/// 256 to the power `n`.
pub open spec fn pow256(n: nat) -> nat
    decreases n,
{
    if n == 0 {
        1
    } else {
        pow256((n - 1) as nat) * 256
    }
}

/// The `n` little-endian bytes of `v` (the low `n` bytes).
pub open spec fn le_bytes(v: nat, n: nat) -> Seq<u8> {
    Seq::new(n, |i: int| ((v / pow256(i as nat)) % 256) as u8)
}

/// The value of little-endian bytes.
pub open spec fn le_value(s: Seq<u8>) -> nat
    decreases s.len(),
{
    if s.len() == 0 {
        0
    } else {
        le_value(s.drop_last()) + (s.last() as nat) * pow256((s.len() - 1) as nat)
    }
}

pub open spec fn enc_u8(v: u8) -> Seq<u8> {
    seq![v]
}

pub open spec fn enc_u16(v: u16) -> Seq<u8> {
    le_bytes(v as nat, 2)
}

pub open spec fn enc_u32(v: u32) -> Seq<u8> {
    le_bytes(v as nat, 4)
}

pub open spec fn enc_u64(v: u64) -> Seq<u8> {
    le_bytes(v as nat, 8)
}

pub open spec fn enc_i64(v: i64) -> Seq<u8> {
    le_bytes((v as u64) as nat, 8)
}

pub open spec fn enc_bool(v: bool) -> Seq<u8> {
    seq![if v { 1u8 } else { 0u8 }]
}

/// A length-prefixed section: its length as four bytes, then its bytes.
pub open spec fn enc_section(s: Seq<u8>) -> Seq<u8> {
    le_bytes(s.len(), 4) + s
}

pub proof fn lemma_pow256_values()
    ensures
        pow256(0) == 1,
        pow256(1) == 256,
        pow256(2) == 65536,
        pow256(3) == 16777216,
        pow256(4) == 4294967296,
        pow256(5) == 1099511627776,
        pow256(6) == 281474976710656,
        pow256(7) == 72057594037927936,
        pow256(8) == 18446744073709551616,
{
    reveal_with_fuel(pow256, 9);
}

pub proof fn lemma_pow256_positive(n: nat)
    ensures
        pow256(n) > 0,
    decreases n,
{
    if n > 0 {
        lemma_pow256_positive((n - 1) as nat);
    }
}

pub proof fn lemma_pow256_monotonic(a: nat, b: nat)
    requires
        a <= b,
    ensures
        pow256(a) <= pow256(b),
    decreases b,
{
    if a < b {
        lemma_pow256_monotonic(a, (b - 1) as nat);
        lemma_pow256_positive((b - 1) as nat);
    }
}

/// Reading back the low `n` little-endian bytes of `v` gives `v` modulo 256^n.
pub proof fn lemma_le_value_of_bytes(v: nat, n: nat)
    ensures
        le_value(le_bytes(v, n)) == v % pow256(n),
        le_bytes(v, n).len() == n,
    decreases n,
{
    if n == 0 {
        assert(pow256(0) == 1);
    } else {
        let p = pow256((n - 1) as nat);
        lemma_pow256_positive((n - 1) as nat);
        lemma_le_value_of_bytes(v, (n - 1) as nat);
        assert(le_bytes(v, n).drop_last() =~= le_bytes(v, (n - 1) as nat));
        lemma_mod_breakdown(v as int, p as int, 256);
        assert(pow256(n) == p * 256);
        assert(p * ((v / p) % 256) == ((v / p) % 256) * p) by (nonlinear_arith);
    }
}

/// Little-endian bytes are worth less than 256^len.
pub proof fn lemma_le_value_bound(s: Seq<u8>)
    ensures
        le_value(s) < pow256(s.len()),
    decreases s.len(),
{
    if s.len() > 0 {
        let n = s.len();
        let p = pow256((n - 1) as nat);
        lemma_le_value_bound(s.drop_last());
        let a = le_value(s.drop_last());
        let c = s.last() as nat;
        assert(a + c * p < p * 256) by (nonlinear_arith)
            requires
                a < p,
                c < 256,
        ;
    }
}

/// Two byte strings of one length with one value are equal.
pub proof fn lemma_le_value_injective(s: Seq<u8>, t: Seq<u8>)
    requires
        s.len() == t.len(),
        le_value(s) == le_value(t),
    ensures
        s == t,
    decreases s.len(),
{
    if s.len() > 0 {
        let n = s.len();
        let p = pow256((n - 1) as nat);
        lemma_pow256_positive((n - 1) as nat);
        lemma_le_value_bound(s.drop_last());
        lemma_le_value_bound(t.drop_last());
        let v = le_value(s);
        lemma_fundamental_div_mod_converse(
            v as int,
            p as int,
            s.last() as int,
            le_value(s.drop_last()) as int,
        );
        lemma_fundamental_div_mod_converse(
            v as int,
            p as int,
            t.last() as int,
            le_value(t.drop_last()) as int,
        );
        lemma_le_value_injective(s.drop_last(), t.drop_last());
        assert(s =~= s.drop_last().push(s.last()));
        assert(t =~= t.drop_last().push(t.last()));
    }
}

/// Bytes are the little-endian bytes of their own value.
pub proof fn lemma_le_bytes_of_value(s: Seq<u8>)
    ensures
        le_bytes(le_value(s), s.len()) == s,
{
    let v = le_value(s);
    lemma_le_value_bound(s);
    lemma_le_value_of_bytes(v, s.len());
    lemma_pow256_positive(s.len());
    vstd::arithmetic::div_mod::lemma_small_mod(v, pow256(s.len()));
    lemma_le_value_injective(le_bytes(v, s.len()), s);
}

/// A value below 256^n read back from its `n` bytes.
pub proof fn lemma_le_roundtrip(v: nat, n: nat)
    requires
        v < pow256(n),
    ensures
        le_value(le_bytes(v, n)) == v,
        le_bytes(v, n).len() == n,
{
    lemma_le_value_of_bytes(v, n);
    vstd::arithmetic::div_mod::lemma_small_mod(v, pow256(n));
}

/// Two concatenations with equally long heads have equal heads and tails.
pub proof fn lemma_split(x1: Seq<u8>, r1: Seq<u8>, x2: Seq<u8>, r2: Seq<u8>)
    requires
        x1 + r1 == x2 + r2,
        x1.len() == x2.len(),
    ensures
        x1 == x2,
        r1 == r2,
{
    assert(x1 =~= (x1 + r1).subrange(0, x1.len() as int));
    assert(x2 =~= (x2 + r2).subrange(0, x2.len() as int));
    assert(r1 =~= (x1 + r1).subrange(x1.len() as int, (x1 + r1).len() as int));
    assert(r2 =~= (x2 + r2).subrange(x2.len() as int, (x2 + r2).len() as int));
}

/// An append-only byte buffer.
pub struct Writer {
    pub bytes: Vec<u8>,
}

impl Writer {
    pub fn new() -> (w: Writer)
        ensures
            w.bytes@ == Seq::<u8>::empty(),
    {
        Writer { bytes: Vec::new() }
    }

    fn put_le(&mut self, value: u64, n: usize)
        requires
            n <= 8,
            value < pow256(n as nat),
        ensures
            final(self).bytes@ == old(self).bytes@ + le_bytes(value as nat, n as nat),
    {
        let ghost start = self.bytes@;
        let mut v = value;
        let mut k: usize = 0;
        proof {
            lemma_pow256_values();
            assert(self.bytes@ =~= start + le_bytes(value as nat, 0));
        }
        while k < n
            invariant
                k <= n,
                n <= 8,
                v == value as nat / pow256(k as nat),
                self.bytes@ == start + le_bytes(value as nat, k as nat),
            decreases n - k,
        {
            self.bytes.push((v % 256) as u8);
            proof {
                lemma_pow256_positive(k as nat);
                vstd::arithmetic::div_mod::lemma_div_denominator(
                    value as int,
                    pow256(k as nat) as int,
                    256,
                );
                assert(self.bytes@ =~= start + le_bytes(value as nat, (k + 1) as nat));
            }
            v = v / 256;
            k = k + 1;
        }
    }

    pub fn u8(&mut self, value: u8)
        ensures
            final(self).bytes@ == old(self).bytes@ + enc_u8(value),
    {
        self.bytes.push(value);
    }

    pub fn bool(&mut self, value: bool)
        ensures
            final(self).bytes@ == old(self).bytes@ + enc_bool(value),
    {
        self.bytes.push(if value { 1 } else { 0 });
    }

    pub fn u16(&mut self, value: u16)
        ensures
            final(self).bytes@ == old(self).bytes@ + enc_u16(value),
    {
        proof {
            lemma_pow256_values();
        }
        self.put_le(value as u64, 2);
    }

    pub fn u32(&mut self, value: u32)
        ensures
            final(self).bytes@ == old(self).bytes@ + enc_u32(value),
    {
        proof {
            lemma_pow256_values();
        }
        self.put_le(value as u64, 4);
    }

    pub fn u64(&mut self, value: u64)
        ensures
            final(self).bytes@ == old(self).bytes@ + enc_u64(value),
    {
        proof {
            lemma_pow256_values();
        }
        self.put_le(value, 8);
    }

    pub fn i64(&mut self, value: i64)
        ensures
            final(self).bytes@ == old(self).bytes@ + enc_i64(value),
    {
        proof {
            lemma_pow256_values();
        }
        self.put_le(value as u64, 8);
    }

    /// Appends raw bytes.
    pub fn bytes(&mut self, value: &[u8])
        ensures
            final(self).bytes@ == old(self).bytes@ + value@,
    {
        let ghost start = self.bytes@;
        let mut i: usize = 0;
        while i < value.len()
            invariant
                i <= value.len(),
                self.bytes@ == start + value@.subrange(0, i as int),
            decreases value.len() - i,
        {
            self.bytes.push(value[i]);
            i = i + 1;
            assert(self.bytes@ =~= start + value@.subrange(0, i as int));
        }
        assert(value@.subrange(0, value.len() as int) =~= value@);
    }
}

/// The start and end offsets of a length-prefixed section.
#[derive(Clone, Copy, Debug, PartialEq, Eq)]
pub struct Section {
    pub start: usize,
    pub end: usize,
}

/// A bounds-checked reader over `bytes[offset..end]`; offsets are absolute
/// positions in `bytes`.
pub struct Reader<'a> {
    pub bytes: &'a [u8],
    pub offset: usize,
    pub end: usize,
}

impl<'a> Reader<'a> {
    pub open spec fn wf(&self) -> bool {
        self.offset <= self.end <= self.bytes@.len()
    }

    /// The bytes that are left to read.
    pub open spec fn rest(&self) -> Seq<u8> {
        self.bytes@.subrange(self.offset as int, self.end as int)
    }

    /// A reader over all of `bytes`.
    pub fn new(bytes: &'a [u8]) -> (r: Reader<'a>)
        ensures
            r.wf(),
            r.bytes == bytes,
            r.offset == 0,
            r.end == bytes@.len(),
    {
        Reader { bytes, offset: 0, end: bytes.len() }
    }

    /// A reader over one section of `bytes`.
    pub fn within(bytes: &'a [u8], section: Section) -> (r: Reader<'a>)
        requires
            section.start <= section.end <= bytes@.len(),
        ensures
            r.wf(),
            r.bytes == bytes,
            r.offset == section.start,
            r.end == section.end,
    {
        Reader { bytes, offset: section.start, end: section.end }
    }

    /// The absolute offset of the next byte.
    pub fn location(&self) -> (r: usize)
        ensures
            r == self.offset,
    {
        self.offset
    }

    /// Whether every byte has been read.
    pub fn is_empty(&self) -> (r: bool)
        ensures
            r == (self.offset == self.end),
    {
        self.offset == self.end
    }

    /// Skips `count` bytes and returns where they start; fails at the
    /// current offset, without moving, when fewer bytes are left.
    pub fn take(&mut self, count: usize) -> (r: Result<usize, BytecodeError>)
        requires
            old(self).wf(),
        ensures
            final(self).wf(),
            final(self).bytes == old(self).bytes,
            final(self).end == old(self).end,
            r is Ok <==> count <= old(self).end - old(self).offset,
            r matches Ok(start) ==> start == old(self).offset && final(self).offset == old(self).offset + count,
            r matches Err(e) ==> final(self).offset == old(self).offset && e.code == crate::module::BytecodeErrorCode::Verify && e.offset == old(self).offset,
            r matches Err(e) ==> bytecode_refusal(e),
    {
        if count > self.end - self.offset {
            return Err(verify_error(self.offset, "RVLU bytes 截斷"));
        }
        let start = self.offset;
        self.offset = self.offset + count;
        Ok(start)
    }

    fn le(&mut self, n: usize) -> (r: Result<u64, BytecodeError>)
        requires
            old(self).wf(),
            1 <= n <= 8,
        ensures
            final(self).wf(),
            final(self).bytes == old(self).bytes,
            final(self).end == old(self).end,
            r is Ok <==> n <= old(self).rest().len(),
            r matches Ok(v) ==> {
                &&& final(self).offset == old(self).offset + n
                &&& v as nat == le_value(old(self).rest().subrange(0, n as int))
                &&& v < pow256(n as nat)
            },
            r matches Err(e) ==> final(self).offset == old(self).offset && e.code == crate::module::BytecodeErrorCode::Verify && e.offset == old(self).offset,
            r matches Err(e) ==> bytecode_refusal(e),
    {
        let start = self.take(n)?;
        let ghost s = self.bytes@.subrange(start as int, start + n);
        let mut acc: u128 = 0;
        let mut mult: u128 = 1;
        let mut i: usize = 0;
        proof {
            lemma_pow256_values();
        }
        while i < n
            invariant
                i <= n,
                n <= 8,
                start + n <= self.bytes@.len(),
                start + n <= self.end,
                s == self.bytes@.subrange(start as int, start + n),
                mult == pow256(i as nat),
                acc == le_value(s.subrange(0, i as int)),
                acc < pow256(i as nat),
            decreases n - i,
        {
            let b = self.bytes[start + i];
            proof {
                lemma_pow256_monotonic(i as nat, 7);
                lemma_pow256_values();
                assert(s.subrange(0, i + 1).drop_last() =~= s.subrange(0, i as int));
                assert(acc + (b as nat) * mult < mult * 256) by (nonlinear_arith)
                    requires acc < mult, b < 256;
                assert((b as nat) * mult <= 255 * 72057594037927936) by (nonlinear_arith)
                    requires mult <= 72057594037927936, b < 256;
            }
            acc = acc + (b as u128) * mult;
            mult = mult * 256;
            i = i + 1;
        }
        proof {
            lemma_pow256_monotonic(n as nat, 8);
            assert(s.subrange(0, n as int) =~= s);
            assert(self.bytes@.subrange(start as int, start + n) =~= old(self).rest().subrange(0, n as int));
        }
        Ok(acc as u64)
    }

    pub fn u8(&mut self) -> (r: Result<u8, BytecodeError>)
        requires
            old(self).wf(),
        ensures
            final(self).wf(),
            final(self).bytes == old(self).bytes,
            final(self).end == old(self).end,
            r is Ok <==> 1 <= old(self).rest().len(),
            r matches Ok(v) ==> old(self).rest() == enc_u8(v) + final(self).rest(),
            r matches Err(e) ==> final(self).offset == old(self).offset && e.code == crate::module::BytecodeErrorCode::Verify && e.offset == old(self).offset,
            forall|v: u8, t: Seq<u8>| #[trigger] (enc_u8(v) + t) == old(self).rest() ==> (r matches Ok(x) && x == v && final(self).rest() == t),
            r matches Err(e) ==> bytecode_refusal(e),
    {
        let r = self.u8_inner();
        proof {
            assert forall|v: u8, t: Seq<u8>| #[trigger] (enc_u8(v) + t) == old(self).rest() implies (r matches Ok(x) && x == v && self.rest() == t) by {
                if let Ok(x) = r {
                    lemma_split(enc_u8(x), self.rest(), enc_u8(v), t);
                    assert(enc_u8(x)[0] == x);
                }
            }
        }
        r
    }

    fn u8_inner(&mut self) -> (r: Result<u8, BytecodeError>)
        requires
            old(self).wf(),
        ensures
            final(self).wf(),
            final(self).bytes == old(self).bytes,
            final(self).end == old(self).end,
            r is Ok <==> 1 <= old(self).rest().len(),
            r matches Ok(v) ==> old(self).rest() == enc_u8(v) + final(self).rest(),
            r matches Err(e) ==> final(self).offset == old(self).offset && e.code == crate::module::BytecodeErrorCode::Verify && e.offset == old(self).offset,
            r matches Err(e) ==> bytecode_refusal(e),
    {
        let start = self.take(1)?;
        let v = self.bytes[start];
        assert(old(self).rest() =~= enc_u8(v) + self.rest());
        Ok(v)
    }

    pub fn u16(&mut self) -> (r: Result<u16, BytecodeError>)
        requires
            old(self).wf(),
        ensures
            final(self).wf(),
            final(self).bytes == old(self).bytes,
            final(self).end == old(self).end,
            r is Ok <==> 2 <= old(self).rest().len(),
            r matches Ok(v) ==> old(self).rest() == enc_u16(v) + final(self).rest(),
            r matches Err(e) ==> final(self).offset == old(self).offset && e.code == crate::module::BytecodeErrorCode::Verify && e.offset == old(self).offset,
            forall|v: u16, t: Seq<u8>| #[trigger] (enc_u16(v) + t) == old(self).rest() ==> (r matches Ok(x) && x == v && final(self).rest() == t),
            r matches Err(e) ==> bytecode_refusal(e),
    {
        let r = self.u16_inner();
        proof {
            assert forall|v: u16, t: Seq<u8>| #[trigger] (enc_u16(v) + t) == old(self).rest() implies (r matches Ok(x) && x == v && self.rest() == t) by {
                if let Ok(x) = r {
                    lemma_split(enc_u16(x), self.rest(), enc_u16(v), t);
                    lemma_u16_inj(x, v);
                }
            }
        }
        r
    }

    fn u16_inner(&mut self) -> (r: Result<u16, BytecodeError>)
        requires
            old(self).wf(),
        ensures
            final(self).wf(),
            final(self).bytes == old(self).bytes,
            final(self).end == old(self).end,
            r is Ok <==> 2 <= old(self).rest().len(),
            r matches Ok(v) ==> old(self).rest() == enc_u16(v) + final(self).rest(),
            r matches Err(e) ==> final(self).offset == old(self).offset && e.code == crate::module::BytecodeErrorCode::Verify && e.offset == old(self).offset,
            r matches Err(e) ==> bytecode_refusal(e),
    {
        let ghost before = self.rest();
        let v = self.le(2)?;
        proof {
            lemma_pow256_values();
            lemma_le_bytes_of_value(before.subrange(0, 2));
            assert(before =~= before.subrange(0, 2) + self.rest());
        }
        Ok(v as u16)
    }

    pub fn u32(&mut self) -> (r: Result<u32, BytecodeError>)
        requires
            old(self).wf(),
        ensures
            final(self).wf(),
            final(self).bytes == old(self).bytes,
            final(self).end == old(self).end,
            r is Ok <==> 4 <= old(self).rest().len(),
            r matches Ok(v) ==> old(self).rest() == enc_u32(v) + final(self).rest(),
            r matches Err(e) ==> final(self).offset == old(self).offset && e.code == crate::module::BytecodeErrorCode::Verify && e.offset == old(self).offset,
            forall|v: u32, t: Seq<u8>| #[trigger] (enc_u32(v) + t) == old(self).rest() ==> (r matches Ok(x) && x == v && final(self).rest() == t),
            r matches Err(e) ==> bytecode_refusal(e),
    {
        let r = self.u32_inner();
        proof {
            assert forall|v: u32, t: Seq<u8>| #[trigger] (enc_u32(v) + t) == old(self).rest() implies (r matches Ok(x) && x == v && self.rest() == t) by {
                if let Ok(x) = r {
                    lemma_split(enc_u32(x), self.rest(), enc_u32(v), t);
                    lemma_u32_inj(x, v);
                }
            }
        }
        r
    }

    fn u32_inner(&mut self) -> (r: Result<u32, BytecodeError>)
        requires
            old(self).wf(),
        ensures
            final(self).wf(),
            final(self).bytes == old(self).bytes,
            final(self).end == old(self).end,
            r is Ok <==> 4 <= old(self).rest().len(),
            r matches Ok(v) ==> old(self).rest() == enc_u32(v) + final(self).rest(),
            r matches Err(e) ==> final(self).offset == old(self).offset && e.code == crate::module::BytecodeErrorCode::Verify && e.offset == old(self).offset,
            r matches Err(e) ==> bytecode_refusal(e),
    {
        let ghost before = self.rest();
        let v = self.le(4)?;
        proof {
            lemma_pow256_values();
            lemma_le_bytes_of_value(before.subrange(0, 4));
            assert(before =~= before.subrange(0, 4) + self.rest());
        }
        Ok(v as u32)
    }

    pub fn u64(&mut self) -> (r: Result<u64, BytecodeError>)
        requires
            old(self).wf(),
        ensures
            final(self).wf(),
            final(self).bytes == old(self).bytes,
            final(self).end == old(self).end,
            r is Ok <==> 8 <= old(self).rest().len(),
            r matches Ok(v) ==> old(self).rest() == enc_u64(v) + final(self).rest(),
            r matches Err(e) ==> final(self).offset == old(self).offset && e.code == crate::module::BytecodeErrorCode::Verify && e.offset == old(self).offset,
            forall|v: u64, t: Seq<u8>| #[trigger] (enc_u64(v) + t) == old(self).rest() ==> (r matches Ok(x) && x == v && final(self).rest() == t),
            r matches Err(e) ==> bytecode_refusal(e),
    {
        let r = self.u64_inner();
        proof {
            assert forall|v: u64, t: Seq<u8>| #[trigger] (enc_u64(v) + t) == old(self).rest() implies (r matches Ok(x) && x == v && self.rest() == t) by {
                if let Ok(x) = r {
                    lemma_split(enc_u64(x), self.rest(), enc_u64(v), t);
                    lemma_u64_inj(x, v);
                }
            }
        }
        r
    }

    fn u64_inner(&mut self) -> (r: Result<u64, BytecodeError>)
        requires
            old(self).wf(),
        ensures
            final(self).wf(),
            final(self).bytes == old(self).bytes,
            final(self).end == old(self).end,
            r is Ok <==> 8 <= old(self).rest().len(),
            r matches Ok(v) ==> old(self).rest() == enc_u64(v) + final(self).rest(),
            r matches Err(e) ==> final(self).offset == old(self).offset && e.code == crate::module::BytecodeErrorCode::Verify && e.offset == old(self).offset,
            r matches Err(e) ==> bytecode_refusal(e),
    {
        let ghost before = self.rest();
        let v = self.le(8)?;
        proof {
            lemma_pow256_values();
            lemma_le_bytes_of_value(before.subrange(0, 8));
            assert(before =~= before.subrange(0, 8) + self.rest());
        }
        Ok(v)
    }

    pub fn i64(&mut self) -> (r: Result<i64, BytecodeError>)
        requires
            old(self).wf(),
        ensures
            final(self).wf(),
            final(self).bytes == old(self).bytes,
            final(self).end == old(self).end,
            r is Ok <==> 8 <= old(self).rest().len(),
            r matches Ok(v) ==> old(self).rest() == enc_i64(v) + final(self).rest(),
            r matches Err(e) ==> final(self).offset == old(self).offset && e.code == crate::module::BytecodeErrorCode::Verify && e.offset == old(self).offset,
            forall|v: i64, t: Seq<u8>| #[trigger] (enc_i64(v) + t) == old(self).rest() ==> (r matches Ok(x) && x == v && final(self).rest() == t),
            r matches Err(e) ==> bytecode_refusal(e),
    {
        let r = self.i64_inner();
        proof {
            assert forall|v: i64, t: Seq<u8>| #[trigger] (enc_i64(v) + t) == old(self).rest() implies (r matches Ok(x) && x == v && self.rest() == t) by {
                if let Ok(x) = r {
                    lemma_split(enc_i64(x), self.rest(), enc_i64(v), t);
                    lemma_i64_inj(x, v);
                }
            }
        }
        r
    }

    fn i64_inner(&mut self) -> (r: Result<i64, BytecodeError>)
        requires
            old(self).wf(),
        ensures
            final(self).wf(),
            final(self).bytes == old(self).bytes,
            final(self).end == old(self).end,
            r is Ok <==> 8 <= old(self).rest().len(),
            r matches Ok(v) ==> old(self).rest() == enc_i64(v) + final(self).rest(),
            r matches Err(e) ==> final(self).offset == old(self).offset && e.code == crate::module::BytecodeErrorCode::Verify && e.offset == old(self).offset,
            r matches Err(e) ==> bytecode_refusal(e),
    {
        let v = self.u64_inner()?;
        let w = v as i64;
        assert((w as u64) == v) by (bit_vector)
            requires w == v as i64;
        Ok(w)
    }

    /// A four-byte count; a count above `limit_value` is a limit error at the
    /// count's offset.
    pub fn count(&mut self, limit_value: usize, message: &str) -> (r: Result<usize, BytecodeError>)
        requires
            old(self).wf(),
        ensures
            final(self).wf(),
            final(self).bytes == old(self).bytes,
            final(self).end == old(self).end,
            r matches Ok(n) ==> n <= limit_value && n <= 4294967295 && old(self).rest() == enc_u32(n as u32) + final(self).rest(),
            forall|v: u32, t: Seq<u8>| #[trigger] (enc_u32(v) + t) == old(self).rest() && v <= limit_value ==> (r matches Ok(x) && x == v && final(self).rest() == t),
            r matches Err(e) ==> e.offset == old(self).offset,
            r matches Err(e) ==> bytecode_refusal(e),
    {
        let offset = self.location();
        let value = self.u32()?;
        if value as usize > limit_value {
            return Err(limit_error(offset, message));
        }
        Ok(value as usize)
    }

    /// A length-prefixed byte string, copied out.
    pub fn blob(&mut self) -> (r: Result<Vec<u8>, BytecodeError>)
        requires
            old(self).wf(),
        ensures
            final(self).wf(),
            final(self).bytes == old(self).bytes,
            final(self).end == old(self).end,
            r matches Ok(v) ==> v@.len() <= 4294967295 && old(self).rest() == enc_u32(v@.len() as u32) + v@ + final(self).rest(),
            forall|v: Seq<u8>, t: Seq<u8>| #[trigger] (enc_u32(v.len() as u32) + v + t) == old(self).rest() && v.len() <= 4294967295 ==> (r matches Ok(x) && x@ == v && final(self).rest() == t),
            r matches Err(e) ==> bytecode_refusal(e),
    {
        let ghost rest0 = self.rest();
        let len = self.u32()?;
        let ghost rest1 = self.rest();
        proof {
            assert forall|v: Seq<u8>, t: Seq<u8>| #[trigger] (enc_u32(v.len() as u32) + v + t) == rest0 && v.len() <= 4294967295 implies (len == v.len() && rest1 == v + t) by {
                assert(rest0 =~= enc_u32(v.len() as u32) + (v + t));
                lemma_split(enc_u32(len), rest1, enc_u32(v.len() as u32), v + t);
                lemma_u32_inj(len, v.len() as u32);
            }
        }
        let start = self.take(len as usize)?;
        let mut out: Vec<u8> = Vec::new();
        let mut i: usize = 0;
        while i < len as usize
            invariant
                i <= len,
                start + len <= self.bytes@.len(),
                start + len <= self.end,
                out@ == self.bytes@.subrange(start as int, start + i),
            decreases len - i,
        {
            out.push(self.bytes[start + i]);
            i = i + 1;
            assert(out@ =~= self.bytes@.subrange(start as int, start + i));
        }
        proof {
            assert(rest1 =~= out@ + self.rest());
            assert(rest0 =~= enc_u32(out@.len() as u32) + out@ + self.rest());
            assert forall|v: Seq<u8>, t: Seq<u8>| #[trigger] (enc_u32(v.len() as u32) + v + t) == rest0 && v.len() <= 4294967295 implies (out@ == v && self.rest() == t) by {
                assert(rest0 =~= enc_u32(v.len() as u32) + (v + t));
                lemma_split(enc_u32(len), rest1, enc_u32(v.len() as u32), v + t);
                lemma_u32_inj(len, v.len() as u32);
                lemma_split(out@, self.rest(), v, t);
            }
        }
        Ok(out)
    }

    /// A length-prefixed section: its bounds, with the reader moved past it.
    pub fn section(&mut self) -> (r: Result<Section, BytecodeError>)
        requires
            old(self).wf(),
        ensures
            final(self).wf(),
            final(self).bytes == old(self).bytes,
            final(self).end == old(self).end,
            r matches Ok(sec) ==> {
                &&& sec.start <= sec.end <= old(self).end
                &&& sec.start == old(self).offset + 4
                &&& sec.end == final(self).offset
                &&& old(self).rest() == enc_section(old(self).bytes@.subrange(sec.start as int, sec.end as int)) + final(self).rest()
                &&& sec.end - sec.start <= 4294967295
            },
            forall|v: Seq<u8>, t: Seq<u8>| #[trigger] (enc_section(v) + t) == old(self).rest() && v.len() <= 4294967295 ==> (r matches Ok(sec) && old(self).bytes@.subrange(sec.start as int, sec.end as int) == v && final(self).rest() == t),
            r matches Err(e) ==> bytecode_refusal(e),
    {
        let ghost rest0 = self.rest();
        let len = self.u32()?;
        let ghost rest1 = self.rest();
        proof {
            lemma_pow256_values();
            assert forall|v: Seq<u8>, t: Seq<u8>| #[trigger] (enc_section(v) + t) == rest0 && v.len() <= 4294967295 implies (len == v.len() && rest1 == v + t) by {
                assert(rest0 =~= enc_u32(v.len() as u32) + (v + t));
                lemma_le_roundtrip(v.len(), 4);
                assert(le_bytes(v.len(), 4) == enc_u32(v.len() as u32));
                lemma_split(enc_u32(len), rest1, enc_u32(v.len() as u32), v + t);
                lemma_u32_inj(len, v.len() as u32);
            }
        }
        let start = self.take(len as usize)?;
        let sec = Section { start, end: start + len as usize };
        proof {
            let body = self.bytes@.subrange(sec.start as int, sec.end as int);
            assert(rest1 =~= body + self.rest());
            lemma_pow256_values();
            lemma_le_roundtrip(len as nat, 4);
            assert(rest0 =~= enc_section(body) + self.rest());
            assert forall|v: Seq<u8>, t: Seq<u8>| #[trigger] (enc_section(v) + t) == rest0 && v.len() <= 4294967295 implies (body == v && self.rest() == t) by {
                assert(rest0 =~= enc_u32(v.len() as u32) + (v + t));
                lemma_le_roundtrip(v.len(), 4);
                assert(le_bytes(v.len(), 4) == enc_u32(v.len() as u32));
                lemma_split(enc_u32(len), rest1, enc_u32(v.len() as u32), v + t);
                lemma_u32_inj(len, v.len() as u32);
                lemma_split(body, self.rest(), v, t);
            }
        }
        Ok(sec)
    }
}

/// Decoding the encoding of a `u16` gives it back, and only it.
pub proof fn lemma_u16_inj(a: u16, b: u16)
    requires
        enc_u16(a) == enc_u16(b),
    ensures
        a == b,
{
    lemma_pow256_values();
    lemma_le_roundtrip(a as nat, 2);
    lemma_le_roundtrip(b as nat, 2);
}

pub proof fn lemma_u32_inj(a: u32, b: u32)
    requires
        enc_u32(a) == enc_u32(b),
    ensures
        a == b,
{
    lemma_pow256_values();
    lemma_le_roundtrip(a as nat, 4);
    lemma_le_roundtrip(b as nat, 4);
}

pub proof fn lemma_u64_inj(a: u64, b: u64)
    requires
        enc_u64(a) == enc_u64(b),
    ensures
        a == b,
{
    lemma_pow256_values();
    lemma_le_roundtrip(a as nat, 8);
    lemma_le_roundtrip(b as nat, 8);
}

pub proof fn lemma_i64_inj(a: i64, b: i64)
    requires
        enc_i64(a) == enc_i64(b),
    ensures
        a == b,
{
    lemma_u64_inj(a as u64, b as u64);
    assert((a as u64) == (b as u64) ==> a == b) by (bit_vector);
}

pub proof fn lemma_enc_lengths()
    ensures
        forall|v: u16| #[trigger] enc_u16(v).len() == 2,
        forall|v: u32| #[trigger] enc_u32(v).len() == 4,
        forall|v: u64| #[trigger] enc_u64(v).len() == 8,
        forall|v: i64| #[trigger] enc_i64(v).len() == 8,
{
}

} // verus!
