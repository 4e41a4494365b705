//! Verified RVLU v2 modules: the verifier's entry point, encoding to bytes and
//! decoding from untrusted bytes.

use vstd::prelude::*;

use crate::bytecode::{BytecodeVersion, LuaProfile, ProtoId, RVLU_V1_NUMBER, RVLU_V2_NUMBER, Register};
use crate::encode::encode_module_bytes;
use crate::decode::{decode_prototype, prototype_decodable, read_span};
use crate::format::{
    concat_map, enc_list, enc_module, enc_prototype, enc_prototypes, enc_span, function_map,
    lemma_concat_map_at, lemma_concat_map_push, magic_bytes, module_fits, profile_tag, u32_max,
};
use crate::injective::lemma_assoc;
use crate::wire::{Reader, Section, enc_section, enc_u16, enc_u32, enc_u8, lemma_split};
use crate::module::{
    BytecodeError, BytecodeErrorCode, BytecodeModule, BytecodePrototype, ModuleModel, PrototypeModel, VerifyLimits,
    bytecode_refusal, limit_error, verify_error,
};
use crate::rules::{
    first_proto_index, mapping_ok, module_valid, numeric_config_i64_f64, prototype_valid, span_ok, total_constants,
    total_instructions,
};
use crate::validation::{find_proto_index, validate_prototype};

verus! {

/// A module that passed the verifier.
#[derive(Clone, Debug, PartialEq)]
pub struct VerifiedModule {
    module: BytecodeModule,
}

impl View for VerifiedModule {
    type V = ModuleModel;

    closed spec fn view(&self) -> ModuleModel {
        self.module@
    }
}

impl VerifiedModule {
    pub fn format_version(&self) -> (r: BytecodeVersion)
        ensures
            r == self@.format_version,
    {
        self.module.format_version
    }

    pub fn profile(&self) -> (r: LuaProfile)
        ensures
            r == self@.profile,
    {
        self.module.profile
    }

    pub fn module(&self) -> (r: &BytecodeModule)
        ensures
            r@ == self@,
    {
        &self.module
    }
}

/// The bytes of a verified module, together with the module.
#[derive(Clone, Debug, PartialEq)]
pub struct EncodedModule {
    bytes: Vec<u8>,
    verified: VerifiedModule,
}

impl EncodedModule {
    /// The encoded bytes.
    pub closed spec fn spec_bytes(&self) -> Seq<u8> {
        self.bytes@
    }

    /// The module that was encoded.
    pub closed spec fn spec_module(&self) -> ModuleModel {
        self.verified@
    }

    pub fn bytes(&self) -> (r: &[u8])
        ensures
            r@ == self.spec_bytes(),
    {
        self.bytes.as_slice()
    }

    pub fn verified(&self) -> (r: &VerifiedModule)
        ensures
            r@ == self.spec_module(),
    {
        &self.verified
    }
}

proof fn lemma_total_instructions_step(ps: Seq<PrototypeModel>, i: int)
    requires
        0 <= i < ps.len(),
    ensures
        total_instructions(ps.take(i + 1)) == total_instructions(ps.take(i)) + ps[i].instructions.len(),
        total_constants(ps.take(i + 1)) == total_constants(ps.take(i)) + ps[i].constants.len(),
{
    assert(ps.take(i + 1).drop_last() =~= ps.take(i));
}

proof fn lemma_totals_monotonic(ps: Seq<PrototypeModel>, i: int)
    requires
        0 <= i <= ps.len(),
    ensures
        total_instructions(ps.take(i)) <= total_instructions(ps),
        total_constants(ps.take(i)) <= total_constants(ps),
    decreases ps.len() - i,
{
    if i == ps.len() {
        assert(ps.take(i) =~= ps);
    } else {
        lemma_total_instructions_step(ps, i);
        lemma_totals_monotonic(ps, i + 1);
    }
}

/// The module header: format version 2, the expected profile, 64-bit
/// integers and floats, and an ordered span.
pub open spec fn header_ok(m: ModuleModel, profile: LuaProfile) -> bool {
    &&& m.format_version == BytecodeVersion(RVLU_V2_NUMBER)
    &&& m.profile == profile
    &&& m.numeric_config == numeric_config_i64_f64()
    &&& span_ok(m.span)
}

/// Every rule of `module_valid` but the module-wide instruction and
/// constant totals.
pub open spec fn valid_but_totals(m: ModuleModel, profile: LuaProfile, limits: VerifyLimits) -> bool {
    &&& header_ok(m, profile)
    &&& m.prototypes.len() <= limits.max_prototypes
    &&& m.function_prototypes.len() == m.prototypes.len()
    &&& forall|i: int, j: int|
        0 <= i < j < m.prototypes.len() ==> (#[trigger] m.prototypes[i]).id != (#[trigger] m.prototypes[j]).id
    &&& forall|i: int, j: int|
        0 <= i < j < m.prototypes.len() ==> (#[trigger] m.prototypes[i]).function
            != (#[trigger] m.prototypes[j]).function
    &&& forall|i: int| 0 <= i < m.prototypes.len() ==> prototype_valid(m, #[trigger] m.prototypes[i], limits)
    &&& forall|k: int| 0 <= k < m.function_prototypes.len() ==> mapping_ok(m, #[trigger] m.function_prototypes[k])
}

/// Checks a candidate module against every rule of the format for the
/// expected profile and the limits.  A bad header is a `Verify` error; too
/// many prototypes, or module-wide instruction or constant totals over the
/// limits where every other rule holds, a `CompileLimit` error.
pub fn verify_module(module: BytecodeModule, expected_profile: LuaProfile, limits: &VerifyLimits) -> (r: Result<VerifiedModule, BytecodeError>)
    ensures
        r is Ok <==> module_valid(module@, expected_profile, *limits),
        r matches Ok(v) ==> v@ == module@,
        r matches Err(e) ==> e.offset == 0,
        r matches Err(e) ==> e.code == BytecodeErrorCode::Verify || e.code == BytecodeErrorCode::CompileLimit,
        !header_ok(module@, expected_profile) ==> (r matches Err(e) && e.code == BytecodeErrorCode::Verify),
        header_ok(module@, expected_profile) && module@.prototypes.len() > limits.max_prototypes
            ==> (r matches Err(e) && e.code == BytecodeErrorCode::CompileLimit),
        valid_but_totals(module@, expected_profile, *limits)
            && !(total_instructions(module@.prototypes) <= limits.max_instructions && total_constants(module@.prototypes) <= limits.max_constants)
            ==> (r matches Err(e) && e.code == BytecodeErrorCode::CompileLimit),
{
    reveal(module_valid);
    if module.format_version.0 != RVLU_V2_NUMBER {
        return Err(verify_error(0, "RVLU v1 或未知 format version 不可驗證"));
    }
    if module.profile != expected_profile {
        return Err(verify_error(0, "RVLU profile 不符"));
    }
    if module.numeric_config != crate::format::RVLU_NUMERIC_I64_F64 {
        return Err(verify_error(0, "RVLU numeric configuration 不支援"));
    }
    if module.span.start_byte > module.span.end_byte {
        return Err(verify_error(0, "RVLU module span 無效"));
    }
    if module.prototypes.len() > limits.max_prototypes {
        return Err(limit_error(0, "RVLU prototype 數超過限制"));
    }
    if module.function_prototypes.len() != module.prototypes.len() {
        return Err(verify_error(0, "RVLU function/prototype map 長度不符"));
    }
    let ghost m = module@;
    let ghost ps = m.prototypes;
    let mut total_instructions_count: usize = 0;
    let mut total_constants_count: usize = 0;
    let mut i: usize = 0;
    assert(ps.take(0) =~= Seq::<PrototypeModel>::empty());
    while i < module.prototypes.len()
        invariant
            m == module@,
            header_ok(module@, expected_profile),
            module@.prototypes.len() <= limits.max_prototypes,
            ps == m.prototypes,
            i <= ps.len(),
            ps.len() == module.prototypes@.len(),
            total_instructions_count == total_instructions(ps.take(i as int)),
            total_constants_count == total_constants(ps.take(i as int)),
            total_instructions_count <= limits.max_instructions,
            total_constants_count <= limits.max_constants,
            forall|a: int, b: int| 0 <= a < b < i ==> (#[trigger] ps[a]).id != (#[trigger] ps[b]).id,
            forall|a: int, b: int| 0 <= a < b < i ==> (#[trigger] ps[a]).function != (#[trigger] ps[b]).function,
            forall|k: int| 0 <= k < i ==> prototype_valid(m, #[trigger] ps[k], *limits),
        decreases module.prototypes.len() - i,
    {
        proof {
            reveal(module_valid);
        }
        let prototype = &module.prototypes[i];
        assert(ps[i as int] == prototype@);
        proof {
            lemma_total_instructions_step(ps, i as int);
            lemma_totals_monotonic(ps, i as int + 1);
        }
        let next_instructions = total_instructions_count.checked_add(prototype.instructions.len());
        let next_instructions = match next_instructions {
            Some(v) => v,
            None => {
                return Err(limit_error(0, "RVLU instruction 總量溢位"));
            },
        };
        let next_constants = total_constants_count.checked_add(prototype.constants.len());
        let next_constants = match next_constants {
            Some(v) => v,
            None => {
                return Err(limit_error(0, "RVLU constant 總量溢位"));
            },
        };
        total_instructions_count = next_instructions;
        total_constants_count = next_constants;
        if total_instructions_count > limits.max_instructions {
            return Err(limit_error(0, "RVLU module instruction 總量超過限制"));
        }
        if total_constants_count > limits.max_constants {
            return Err(limit_error(0, "RVLU module constant 總量超過限制"));
        }
        let mut j: usize = 0;
        while j < i
            invariant
                m == module@,
                header_ok(module@, expected_profile),
                module@.prototypes.len() <= limits.max_prototypes,
                ps == m.prototypes,
                i < ps.len(),
                ps.len() == module.prototypes@.len(),
                j <= i,
                forall|k: int| 0 <= k < j ==> (#[trigger] ps[k]).id != ps[i as int].id && ps[k].function != ps[i as int].function,
            decreases i - j,
        {
            proof {
                reveal(module_valid);
            }
            assert(ps[j as int] == module.prototypes@[j as int]@);
            assert(ps[i as int] == module.prototypes@[i as int]@);
            if module.prototypes[j].id == module.prototypes[i].id {
                assert(ps[j as int].id == ps[i as int].id);
                return Err(verify_error(0, "RVLU prototype ID 重複"));
            }
            if module.prototypes[j].function == module.prototypes[i].function {
                assert(ps[j as int].function == ps[i as int].function);
                return Err(verify_error(0, "RVLU function ID 重複"));
            }
            j = j + 1;
        }
        let checked = validate_prototype(&module.prototypes[i], &module, limits);
        if checked.is_err() {
            assert(!prototype_valid(m, ps[i as int], *limits));
            return Err(checked.unwrap_err());
        }
        i = i + 1;
    }
    assert(ps.take(ps.len() as int) =~= ps);
    let mut k: usize = 0;
    while k < module.function_prototypes.len()
        invariant
            m == module@,
            header_ok(module@, expected_profile),
            module@.prototypes.len() <= limits.max_prototypes,
            ps == m.prototypes,
            k <= m.function_prototypes.len(),
            m.function_prototypes.len() == module.function_prototypes@.len(),
            forall|t: int| 0 <= t < k ==> mapping_ok(m, #[trigger] m.function_prototypes[t]),
        decreases module.function_prototypes.len() - k,
    {
        proof {
            reveal(module_valid);
        }
        let (function, proto) = module.function_prototypes[k];
        let found = find_proto_index(&module, proto);
        match found {
            None => {
                assert(!mapping_ok(m, m.function_prototypes[k as int])) by {
                    if mapping_ok(m, m.function_prototypes[k as int]) {
                        let x = choose|x: int| #[trigger] first_proto_index(m, proto, x) && m.prototypes[x].function == function;
                        assert(m.prototypes[x].id == proto);
                    }
                }
                return Err(verify_error(0, "RVLU function/prototype map 指向不存在 prototype"));
            },
            Some(index) => {
                assert(ps[index as int] == module.prototypes@[index as int]@);
                if module.prototypes[index].function != function {
                    assert(!mapping_ok(m, m.function_prototypes[k as int])) by {
                        if mapping_ok(m, m.function_prototypes[k as int]) {
                            let x = choose|x: int| #[trigger] first_proto_index(m, proto, x) && m.prototypes[x].function == function;
                            if x < index {
                                assert(m.prototypes[x].id == proto);
                            } else if index < x {
                                assert(m.prototypes[index as int].id == proto);
                            }
                        }
                    }
                    return Err(verify_error(0, "RVLU function/prototype map 不符"));
                }
                assert(mapping_ok(m, m.function_prototypes[k as int]));
            },
        }
        k = k + 1;
    }
    Ok(VerifiedModule { module })
}

/// Verifies a module and writes its bytes; the bytes must fit the module
/// byte limit.
pub fn encode_module(module: BytecodeModule, expected_profile: LuaProfile, limits: &VerifyLimits) -> (r: Result<EncodedModule, BytecodeError>)
    ensures
        r is Ok <==> module_valid(module@, expected_profile, *limits) && module_fits(module@)
            && enc_module(module@).len() <= limits.max_module_bytes,
        r matches Ok(e) ==> e.spec_bytes() == enc_module(module@) && e.spec_module() == module@,
        r matches Err(e) ==> e.offset == 0,
        r matches Err(e) ==> e.code == BytecodeErrorCode::Verify || e.code == BytecodeErrorCode::CompileLimit,
        !header_ok(module@, expected_profile) ==> (r matches Err(e) && e.code == BytecodeErrorCode::Verify),
        header_ok(module@, expected_profile) && module@.prototypes.len() > limits.max_prototypes
            ==> (r matches Err(e) && e.code == BytecodeErrorCode::CompileLimit),
        valid_but_totals(module@, expected_profile, *limits)
            && !(total_instructions(module@.prototypes) <= limits.max_instructions && total_constants(module@.prototypes) <= limits.max_constants)
            ==> (r matches Err(e) && e.code == BytecodeErrorCode::CompileLimit),
        module_valid(module@, expected_profile, *limits) && !(module_fits(module@) && enc_module(module@).len() <= limits.max_module_bytes)
            ==> (r matches Err(e) && e.code == BytecodeErrorCode::CompileLimit),
{
    let ghost m = module@;
    let verified = verify_module(module, expected_profile, limits)?;
    let bytes = encode_module_bytes(&verified.module, limits);
    let bytes = match bytes {
        Ok(b) => b,
        Err(e) => {
            assert(!module_fits(m)) by {
                reveal(module_valid);
                assert forall|i: int| 0 <= i < verified.module.prototypes@.len() implies crate::encode::prototype_within_limits(#[trigger] verified.module.prototypes@[i], *limits) by {
                    assert(m.prototypes[i] == verified.module.prototypes@[i]@);
                    assert(prototype_valid(m, m.prototypes[i], *limits));
                }
            }
            return Err(e);
        },
    };
    if bytes.len() > limits.max_module_bytes {
        return Err(limit_error(0, "RVLU module bytes 超過限制"));
    }
    Ok(EncodedModule { bytes, verified })
}

pub open spec fn proto_views(v: Seq<BytecodePrototype>) -> Seq<PrototypeModel> {
    v.map_values(|p: BytecodePrototype| p@)
}

/// The limits for decoding prototype `i`: what is left of the module's
/// instruction and constant budgets after the prototypes before it.
pub open spec fn bounded_limits(ps: Seq<PrototypeModel>, i: int, limits: VerifyLimits) -> VerifyLimits {
    VerifyLimits {
        max_module_bytes: limits.max_module_bytes,
        max_prototypes: limits.max_prototypes,
        max_instructions: (limits.max_instructions - total_instructions(ps.take(i))) as usize,
        max_constants: (limits.max_constants - total_constants(ps.take(i))) as usize,
        max_registers: limits.max_registers,
        max_upvalues_per_prototype: limits.max_upvalues_per_prototype,
    }
}

/// Every prototype can be read back under the limits left for it.
pub open spec fn module_decodable(m: ModuleModel, limits: VerifyLimits) -> bool {
    forall|i: int|
        0 <= i < m.prototypes.len() ==> prototype_decodable(#[trigger] m.prototypes[i], bounded_limits(m.prototypes, i, limits))
}

/// A module whose bytes `decode_module` reads back as the module itself: it
/// is valid, its counts fit the format, its items fit the decoding limits,
/// its function map is the one its prototypes give, and its bytes fit the
/// module byte limit.
pub open spec fn roundtrip_ready(m: ModuleModel, profile: LuaProfile, limits: VerifyLimits) -> bool {
    &&& module_valid(m, profile, limits)
    &&& module_fits(m)
    &&& module_decodable(m, limits)
    &&& m.function_prototypes == function_map(m.prototypes)
    &&& enc_module(m).len() <= limits.max_module_bytes
}

/// The module header, field by field.
pub proof fn lemma_module_split(m: ModuleModel, t: Seq<u8>)
    ensures
        enc_module(m) + t == magic_bytes() + (enc_u16(RVLU_V2_NUMBER) + (enc_u8(profile_tag(m.profile)) + (enc_u8(m.numeric_config)
            + (enc_span(m.span) + (enc_section(enc_prototypes(m)) + t))))),
{
    let a = magic_bytes();
    let b = enc_u16(RVLU_V2_NUMBER);
    let c = enc_u8(profile_tag(m.profile));
    let d = enc_u8(m.numeric_config);
    let e = enc_span(m.span);
    let f = enc_section(enc_prototypes(m));
    lemma_assoc((((a + b) + c) + d) + e, f, t);
    lemma_assoc(((a + b) + c) + d, e, f + t);
    lemma_assoc((a + b) + c, d, e + (f + t));
    lemma_assoc(a + b, c, d + (e + (f + t)));
    lemma_assoc(a, b, c + (d + (e + (f + t))));
}

/// Every prototype record of the list is within the decoding limits left
/// for it, and the list as a whole within the module limits.
pub open spec fn records_decodable(ps: Seq<PrototypeModel>, limits: VerifyLimits) -> bool {
    &&& ps.len() <= limits.max_prototypes
    &&& ps.len() <= u32_max()
    &&& total_instructions(ps) <= limits.max_instructions
    &&& total_constants(ps) <= limits.max_constants
    &&& forall|k: int| 0 <= k < ps.len() ==> prototype_decodable(#[trigger] ps[k], bounded_limits(ps, k, limits))
        && enc_prototype(ps[k]).len() <= u32_max()
}

/// One length-prefixed prototype record.
#[verifier::spinoff_prover]
#[verifier::rlimit(100)]
fn read_record(r: &mut Reader, bounded: &VerifyLimits, Ghost(expect): Ghost<Option<(PrototypeModel, Seq<u8>)>>) -> (res: Result<BytecodePrototype, BytecodeError>)
    requires
        old(r).wf(),
    ensures
        final(r).wf(),
        final(r).bytes == old(r).bytes,
        final(r).end == old(r).end,
        res matches Ok(p) ==> old(r).rest() == enc_section(enc_prototype(p@)) + final(r).rest()
            && prototype_decodable(p@, *bounded) && enc_prototype(p@).len() <= u32_max(),
        expect matches Some((m, t)) ==> (old(r).rest() == enc_section(enc_prototype(m)) + t && prototype_decodable(m, *bounded)
            && enc_prototype(m).len() <= u32_max() ==> (res matches Ok(p) && p@ == m && final(r).rest() == t)),
        res matches Err(e) ==> bytecode_refusal(e),
{
    let ghost before = r.rest();
    let record = r.section()?;
    let ghost ok = match expect {
        Some((m, t)) => before == enc_section(enc_prototype(m)) + t && prototype_decodable(m, *bounded) && enc_prototype(m).len() <= u32_max(),
        None => false,
    };
    let ghost m: PrototypeModel = match expect { Some((m, t)) => m, None => arbitrary() };
    let p = decode_prototype(r.bytes, record, bounded, Ghost(if ok { Some(m) } else { None }))?;
    Ok(p)
}

/// The state of reading prototype records: the bytes read so far encode the
/// prototypes read so far, their totals are counted, each was decoded under
/// the limits its predecessors left, and, when the bytes are those of `ps`,
/// the prototypes read are a prefix of `ps` and the rest encodes the others.
#[verifier::opaque]
pub open spec fn records_state(
    limits: VerifyLimits,
    rest_items: Seq<u8>,
    pr_rest: Seq<u8>,
    qs: Seq<PrototypeModel>,
    ti: usize,
    tc: usize,
    ok: bool,
    ps: Seq<PrototypeModel>,
) -> bool {
    &&& rest_items == concat_map(qs, |p: PrototypeModel| enc_section(enc_prototype(p))) + pr_rest
    &&& ti == total_instructions(qs)
    &&& tc == total_constants(qs)
    &&& ti <= limits.max_instructions
    &&& tc <= limits.max_constants
    &&& forall|k: int| 0 <= k < qs.len() ==> prototype_decodable(#[trigger] qs[k], bounded_limits(qs, k, limits))
        && enc_prototype(qs[k]).len() <= u32_max()
    &&& ok ==> {
        &&& qs.len() <= ps.len()
        &&& qs == ps.take(qs.len() as int)
        &&& pr_rest == concat_map(ps.subrange(qs.len() as int, ps.len() as int), |p: PrototypeModel| enc_section(enc_prototype(p)))
        &&& records_decodable(ps, limits)
    }
}

#[verifier::spinoff_prover]
fn read_records_step(
    pr: &mut Reader,
    prototypes: &mut Vec<BytecodePrototype>,
    ti: &mut usize,
    tc: &mut usize,
    limits: &VerifyLimits,
    Ghost(rest_items): Ghost<Seq<u8>>,
    Ghost(ok): Ghost<bool>,
    Ghost(ps): Ghost<Seq<PrototypeModel>>,
) -> (res: Result<(), BytecodeError>)
    requires
        old(pr).wf(),
        records_state(*limits, rest_items, old(pr).rest(), proto_views(old(prototypes)@), *old(ti), *old(tc), ok, ps),
        ok ==> old(prototypes)@.len() < ps.len(),
    ensures
        final(pr).wf(),
        final(pr).bytes == old(pr).bytes,
        final(pr).end == old(pr).end,
        res is Ok ==> records_state(*limits, rest_items, final(pr).rest(), proto_views(final(prototypes)@), *final(ti), *final(tc), ok, ps)
            && final(prototypes)@.len() == old(prototypes)@.len() + 1,
        ok ==> res is Ok,
        res matches Err(e) ==> bytecode_refusal(e),
{
    proof {
        reveal(records_state);
    }
    let ghost f = |p: PrototypeModel| enc_section(enc_prototype(p));
    let ghost qs0 = proto_views(prototypes@);
    let ghost i = qs0.len() as int;
    let ghost before = pr.rest();
    let remaining_instructions = limits.max_instructions - *ti;
    let remaining_constants = limits.max_constants - *tc;
    let bounded = VerifyLimits {
        max_module_bytes: limits.max_module_bytes,
        max_prototypes: limits.max_prototypes,
        max_instructions: remaining_instructions,
        max_constants: remaining_constants,
        max_registers: limits.max_registers,
        max_upvalues_per_prototype: limits.max_upvalues_per_prototype,
    };
    proof {
        assert(qs0.take(i) =~= qs0);
        assert(bounded == bounded_limits(qs0, i, *limits));
        if ok {
            lemma_concat_map_at(ps, i, f);
            assert(ps.subrange(i, ps.len() as int) =~= ps.subrange(i, ps.len() as int));
            assert(before == f(ps[i]) + concat_map(ps.subrange(i + 1, ps.len() as int), f));
            assert(before =~= enc_section(enc_prototype(ps[i])) + concat_map(ps.subrange(i + 1, ps.len() as int), f));
            assert(bounded == bounded_limits(ps, i, *limits));
            assert(prototype_decodable(ps[i], bounded_limits(ps, i, *limits)));
            assert(enc_prototype(ps[i]).len() <= u32_max());
        }
    }
    let ghost item: Option<(PrototypeModel, Seq<u8>)> = if ok { Some((ps[i], concat_map(ps.subrange(i + 1, ps.len() as int), f))) } else { None };
    let prototype = read_record(pr, &bounded, Ghost(item))?;
    let ghost qs1 = qs0.push(prototype@);
    proof {
        crate::decode::lemma_decodable_counts(prototype@, bounded);
        assert(qs1.drop_last() =~= qs0);
        lemma_concat_map_push(qs0, prototype@, f);
    }
    *ti = *ti + prototype.instructions.len();
    *tc = *tc + prototype.constants.len();
    prototypes.push(prototype);
    proof {
        assert(proto_views(prototypes@) =~= qs1);
        assert(rest_items =~= concat_map(qs1, f) + pr.rest());
        assert forall|k: int| 0 <= k < qs1.len() implies prototype_decodable(#[trigger] qs1[k], bounded_limits(qs1, k, *limits))
            && enc_prototype(qs1[k]).len() <= u32_max() by {
            assert(qs1.take(k) =~= qs0.take(k));
            if k < i {
                assert(qs1[k] == qs0[k]);
            }
        }
        if ok {
            assert(qs1 =~= ps.take(i + 1));
        }
    }
    Ok(())
}

/// The prototype section: a count, then one record per prototype, each
/// decoded under the limits its predecessors leave.
fn read_records(bytes: &[u8], section: Section, limits: &VerifyLimits, Ghost(expect): Ghost<Option<Seq<PrototypeModel>>>) -> (res: Result<Vec<BytecodePrototype>, BytecodeError>)
    requires
        section.start <= section.end <= bytes@.len(),
    ensures
        res matches Ok(v) ==> bytes@.subrange(section.start as int, section.end as int) == enc_list(proto_views(v@), |p: PrototypeModel| enc_section(enc_prototype(p)))
            && records_decodable(proto_views(v@), *limits),
        expect matches Some(ps) ==> (bytes@.subrange(section.start as int, section.end as int) == enc_list(ps, |p: PrototypeModel| enc_section(enc_prototype(p)))
            && records_decodable(ps, *limits) ==> (res matches Ok(v) && proto_views(v@) == ps)),
        res matches Err(e) ==> bytecode_refusal(e),
{
    let mut pr = Reader::within(bytes, section);
    let ghost sec_bytes = pr.rest();
    let ghost f = |p: PrototypeModel| enc_section(enc_prototype(p));
    let ghost ok = match expect {
        Some(ps) => sec_bytes == enc_list(ps, f) && records_decodable(ps, *limits),
        None => false,
    };
    let ghost ps: Seq<PrototypeModel> = match expect { Some(ps) => ps, None => Seq::empty() };
    let ghost empty = Seq::<u8>::empty();
    proof {
        if ok {
            assert(sec_bytes =~= enc_u32(ps.len() as u32) + (concat_map(ps, f) + empty));
        }
    }
    let count = pr.count(limits.max_prototypes, "RVLU prototype 數超過限制")?;
    let ghost rest_items = pr.rest();
    let mut prototypes: Vec<BytecodePrototype> = Vec::new();
    let mut total_instructions_count: usize = 0;
    let mut total_constants_count: usize = 0;
    let mut i: usize = 0;
    proof {
        reveal(records_state);
        assert(proto_views(prototypes@) =~= Seq::<PrototypeModel>::empty());
        assert(concat_map(Seq::<PrototypeModel>::empty(), f) + pr.rest() =~= pr.rest());
        if ok {
            assert(count == ps.len());
            assert(ps.subrange(0, ps.len() as int) =~= ps);
            assert(ps.take(0) =~= Seq::<PrototypeModel>::empty());
            assert(rest_items =~= concat_map(ps, f));
        }
        assert(records_state(*limits, rest_items, pr.rest(), proto_views(prototypes@), total_instructions_count, total_constants_count, ok, ps));
    }
    while i < count
        invariant
            pr.wf(),
            pr.bytes == bytes,
            pr.end == section.end,
            i <= count,
            count <= limits.max_prototypes,
            count <= u32_max(),
            prototypes@.len() == i,
            ok ==> count == ps.len(),
            ok ==> expect == Some(ps),
            sec_bytes == bytes@.subrange(section.start as int, section.end as int),
            f == (|p: PrototypeModel| enc_section(enc_prototype(p))),
            ok == (expect matches Some(q) && sec_bytes == enc_list(q, f) && records_decodable(q, *limits)),
            records_state(*limits, rest_items, pr.rest(), proto_views(prototypes@), total_instructions_count, total_constants_count, ok, ps),
        decreases count - i,
    {
        read_records_step(&mut pr, &mut prototypes, &mut total_instructions_count, &mut total_constants_count, limits, Ghost(rest_items), Ghost(ok), Ghost(ps))?;
        i = i + 1;
    }
    proof {
        reveal(records_state);
    }
    if !pr.is_empty() {
        proof {
            if ok {
                assert(ps.subrange(count as int, ps.len() as int) =~= Seq::<PrototypeModel>::empty());
            }
        }
        return Err(verify_error(pr.location(), "RVLU prototype section 尾端 bytes 無效"));
    }
    proof {
        let qs = proto_views(prototypes@);
        assert(pr.rest() =~= empty);
        assert(sec_bytes =~= enc_u32(count as u32) + concat_map(qs, f));
        assert(qs.take(qs.len() as int) =~= qs);
        if ok {
            assert(qs =~= ps);
        }
    }
    Ok(prototypes)
}

/// The fixed module header and the bounds of the prototype section.
#[verifier::spinoff_prover]
#[verifier::rlimit(100)]
fn read_header(r: &mut Reader, expected_profile: LuaProfile, Ghost(expect): Ghost<Option<ModuleModel>>) -> (res: Result<(u16, LuaProfile, u8, crate::module::BytecodeSpan, crate::wire::Section), BytecodeError>)
    requires
        old(r).wf(),
        old(r).offset == 0,
        old(r).end == old(r).bytes@.len(),
    ensures
        final(r).wf(),
        final(r).bytes == old(r).bytes,
        res matches Ok((version, profile, numeric_config, span, section)) ==> {
            &&& version == RVLU_V2_NUMBER
            &&& profile == expected_profile
            &&& section.start <= section.end <= old(r).bytes@.len()
            &&& section.end - section.start <= u32_max()
            &&& old(r).bytes@ == magic_bytes() + (enc_u16(version) + (enc_u8(profile_tag(profile)) + (enc_u8(numeric_config)
                + (enc_span(span) + (enc_section(old(r).bytes@.subrange(section.start as int, section.end as int)) + Seq::<u8>::empty())))))
        },
        expect matches Some(m) ==> (enc_module(m) == old(r).bytes@ && m.profile == expected_profile && m.numeric_config == crate::format::RVLU_NUMERIC_I64_F64
            && m.span.start_byte <= m.span.end_byte && enc_prototypes(m).len() <= u32_max() ==> (res matches Ok((version, profile, numeric_config, span, section))
            && profile == m.profile && numeric_config == m.numeric_config && span == m.span
            && old(r).bytes@.subrange(section.start as int, section.end as int) == enc_prototypes(m))),
        res matches Err(e) ==> bytecode_refusal(e),
{
    let bytes = r.bytes;
    let ghost ok = match expect {
        Some(m) => enc_module(m) == bytes@ && m.profile == expected_profile && m.numeric_config == crate::format::RVLU_NUMERIC_I64_F64
            && m.span.start_byte <= m.span.end_byte && enc_prototypes(m).len() <= u32_max(),
        None => false,
    };
    let ghost m: ModuleModel = match expect { Some(m) => m, None => arbitrary() };
    let ghost empty = Seq::<u8>::empty();
    let ghost t5 = enc_section(enc_prototypes(m)) + empty;
    let ghost t4 = enc_span(m.span) + t5;
    let ghost t3 = enc_u8(m.numeric_config) + t4;
    let ghost t2 = enc_u8(profile_tag(m.profile)) + t3;
    let ghost t1 = enc_u16(RVLU_V2_NUMBER) + t2;
    proof {
        if ok {
            lemma_module_split(m, empty);
            assert(enc_module(m) + empty =~= enc_module(m));
            assert(bytes@ == magic_bytes() + t1);
            assert(r.rest() =~= bytes@);
        }
    }
    let start = r.take(4);
    if start.is_err() {
        return Err(start.unwrap_err());
    }
    if bytes[0] != 82u8 || bytes[1] != 86u8 || bytes[2] != 76u8 || bytes[3] != 85u8 {
        proof {
            if ok {
                assert(bytes@[0] == magic_bytes()[0]);
                assert(bytes@[1] == magic_bytes()[1]);
                assert(bytes@[2] == magic_bytes()[2]);
                assert(bytes@[3] == magic_bytes()[3]);
            }
        }
        return Err(verify_error(0, "RVLU magic 不符"));
    }
    let ghost rest1 = r.rest();
    assert(bytes@ =~= magic_bytes() + rest1);
    proof {
        if ok {
            lemma_split(magic_bytes(), rest1, magic_bytes(), t1);
        }
    }
    let version = r.u16()?;
    if version == RVLU_V1_NUMBER {
        return Err(verify_error(4, "RVLU v1 語意不完整，明確拒絕"));
    }
    if version != RVLU_V2_NUMBER {
        return Err(verify_error(4, "RVLU format version 不支援"));
    }
    let ghost rest2 = r.rest();
    let tag = r.u8()?;
    let profile = if tag == 0 {
        LuaProfile::Lua55
    } else if tag == 1 {
        LuaProfile::Lua54
    } else {
        return Err(verify_error(6, "RVLU profile tag 無效"));
    };
    assert(profile_tag(profile) == tag);
    if profile != expected_profile {
        return Err(verify_error(6, "RVLU profile 不符"));
    }
    let ghost rest3 = r.rest();
    let numeric_config = r.u8()?;
    if numeric_config != crate::format::RVLU_NUMERIC_I64_F64 {
        return Err(verify_error(7, "RVLU numeric configuration 不支援"));
    }
    let ghost rest4 = r.rest();
    let span = read_span(r)?;
    let ghost rest5 = r.rest();
    let section = r.section()?;
    if !r.is_empty() {
        return Err(verify_error(r.location(), "RVLU module 有未宣告尾端 bytes"));
    }
    proof {
        assert(r.rest() =~= empty);
        if ok {
            assert(version == RVLU_V2_NUMBER && rest2 == t2);
            assert(tag == profile_tag(m.profile) && rest3 == t3);
            assert(profile == m.profile);
            assert(numeric_config == m.numeric_config && rest4 == t4);
            assert(span == m.span && rest5 == t5);
        }
    }
    Ok((version, profile, numeric_config, span, section))
}

#[verifier::spinoff_prover]
#[verifier::rlimit(100)]
fn decode_module_expecting(
    bytes: &[u8],
    expected_profile: LuaProfile,
    limits: &VerifyLimits,
    Ghost(expect): Ghost<Option<ModuleModel>>,
) -> (r: Result<VerifiedModule, BytecodeError>)
    ensures
        r matches Ok(v) ==> bytes@ == enc_module(v@) && roundtrip_ready(v@, expected_profile, *limits),
        expect matches Some(m) ==> (enc_module(m) == bytes@ && roundtrip_ready(m, expected_profile, *limits) ==> (r matches Ok(v) && v@ == m)),
        bytes@.len() > limits.max_module_bytes ==> (r matches Err(e) && e.code == BytecodeErrorCode::CompileLimit && e.offset == 0),
        r matches Err(e) ==> bytecode_refusal(e),
{
    if bytes.len() > limits.max_module_bytes {
        return Err(limit_error(0, "RVLU module bytes 超過限制"));
    }
    let ghost ok = match expect {
        Some(m) => enc_module(m) == bytes@ && roundtrip_ready(m, expected_profile, *limits),
        None => false,
    };
    let ghost m: ModuleModel = match expect { Some(m) => m, None => arbitrary() };
    let ghost f = |p: PrototypeModel| enc_section(enc_prototype(p));
    proof {
        if ok {
            assert(records_decodable(m.prototypes, *limits)) by {
                reveal(module_valid);
                assert(m.prototypes.take(m.prototypes.len() as int) =~= m.prototypes);
            }
            assert(m.profile == expected_profile && m.numeric_config == crate::format::RVLU_NUMERIC_I64_F64
                && m.span.start_byte <= m.span.end_byte && m.format_version == BytecodeVersion(RVLU_V2_NUMBER)) by {
                reveal(module_valid);
            }
        }
    }
    let mut r = Reader::new(bytes);
    let header = read_header(&mut r, expected_profile, Ghost(if ok { Some(m) } else { None }));
    let (version, profile, numeric_config, span, section) = header?;
    let prototypes = read_records(bytes, section, limits, Ghost(if ok { Some(m.prototypes) } else { None }));
    let prototypes = prototypes?;
    let ghost qs = proto_views(prototypes@);
    let mut mappings: Vec<(u32, ProtoId)> = Vec::new();
    let mut k: usize = 0;
    while k < prototypes.len()
        invariant
            k <= prototypes@.len(),
            qs == proto_views(prototypes@),
            mappings@ == function_map(qs.take(k as int)),
        decreases prototypes.len() - k,
    {
        proof {
            assert(qs[k as int] == prototypes@[k as int]@);
        }
        mappings.push((prototypes[k].function, prototypes[k].id));
        k = k + 1;
        assert(mappings@ =~= function_map(qs.take(k as int)));
    }
    let candidate = BytecodeModule {
        format_version: BytecodeVersion(version),
        profile,
        numeric_config,
        span,
        function_prototypes: mappings,
        prototypes,
    };
    proof {
        let c = candidate@;
        assert(qs.take(qs.len() as int) =~= qs);
        assert(c.prototypes == qs);
        assert(c.function_prototypes == function_map(c.prototypes));
        lemma_module_split(c, Seq::<u8>::empty());
        assert(enc_module(c) + Seq::<u8>::empty() =~= enc_module(c));
        assert(bytes@ == enc_module(c));
        if ok {
            assert(qs =~= m.prototypes);
            assert(c == m);
        }
    }
    let verified = verify_module(candidate, expected_profile, limits);
    proof {
        if verified is Ok {
            let c = verified->Ok_0@;
            assert(module_fits(c)) by {
                assert forall|j: int| 0 <= j < c.prototypes.len() implies crate::format::prototype_fits(#[trigger] c.prototypes[j]) by {
                    assert(prototype_decodable(qs[j], bounded_limits(qs, j, *limits)));
                    reveal(prototype_decodable);
                }
            }
            assert(module_decodable(c, *limits));
        }
    }
    verified
}

/// Reads a module from untrusted bytes and verifies it for the expected
/// profile under the limits.  It succeeds exactly on the bytes of a module
/// that is ready for the round trip, and gives that module back; bytes
/// over the module byte limit are a `CompileLimit` error at offset 0.
#[verifier::spinoff_prover]
#[verifier::rlimit(100)]
pub fn decode_module(bytes: &[u8], expected_profile: LuaProfile, limits: &VerifyLimits) -> (r: Result<VerifiedModule, BytecodeError>)
    ensures
        r is Ok <==> exists|m: ModuleModel| #[trigger] enc_module(m) == bytes@ && roundtrip_ready(m, expected_profile, *limits),
        r matches Ok(v) ==> bytes@ == enc_module(v@) && module_valid(v@, expected_profile, *limits),
        forall|m: ModuleModel| #[trigger] enc_module(m) == bytes@ && roundtrip_ready(m, expected_profile, *limits) ==> (r matches Ok(v) && v@ == m),
        bytes@.len() > limits.max_module_bytes ==> (r matches Err(e) && e.code == BytecodeErrorCode::CompileLimit && e.offset == 0),
        r matches Err(e) ==> bytecode_refusal(e),
{
    let ghost expect = if exists|m: ModuleModel| #[trigger] enc_module(m) == bytes@ && roundtrip_ready(m, expected_profile, *limits) {
        Some(choose|m: ModuleModel| #[trigger] enc_module(m) == bytes@ && roundtrip_ready(m, expected_profile, *limits))
    } else {
        None
    };
    let r = decode_module_expecting(bytes, expected_profile, limits, Ghost(expect));
    proof {
        assert forall|m: ModuleModel| #[trigger] enc_module(m) == bytes@ && roundtrip_ready(m, expected_profile, *limits) implies (r matches Ok(v) && v@ == m) by {
            let m1 = expect->0;
            reveal(module_valid);
            crate::injective::lemma_module_injective(m1, m);
        }
    }
    r
}

} // verus!
