use rivetlua::bytecode::{BinaryOperation, Instruction, IrLimits, LuaProfile, ProtoId, Register};
use rivetlua::codec::{decode_module, verify_module};
use rivetlua::codegen::{emit, lower};
use rivetlua::lexer::{CompileLimits, DiagnosticCode, LanguageProfile, LexedChunk, Span, lex};
use rivetlua::module::{BytecodeConstant, BytecodeErrorCode, VerifyLimits};
use rivetlua::parser::parse;
use rivetlua::resolve::resolve;
use rivetlua::resolved::{BindingKind, FunctionId, ResolvedExpr, ResolvedName, ResolvedStmt};
use rivetlua::value::{IdCounter, ObjectRef, VmId};

const SOURCES: [&[u8]; 6] = [
    b"return",
    b"return 1+2",
    b"local x = 1; x = x + 1; return x",
    b"local function f(a, b) return a .. b end return f('x', 'y')",
    b"for i = 1, 3 do local t = {i, [i] = i} end return",
    b"local a = 4 while a > 0 do a = a - 1 end return function(...) return ... end",
];

#[test]
fn every_lexed_source_is_accepted_by_the_parser() {
    let limits = CompileLimits::default();
    for profile in [LanguageProfile::Lua54, LanguageProfile::Lua55] {
        for source in SOURCES {
            let chunk = lex(source, profile, &limits).unwrap();
            let module = parse(&chunk, profile, &limits).unwrap();
            assert_eq!(module.profile, profile);
            assert_eq!(module.span, Span { start_byte: 0, end_byte: source.len() });
            assert_eq!(module.root.span, module.span);
            assert!(module.root.terminator.is_none());
        }
    }
}

#[test]
fn parser_refuses_an_empty_stream_and_a_stream_of_another_profile() {
    let limits = CompileLimits::default();
    let empty = LexedChunk { profile: LanguageProfile::Lua55, source_len: 0, tokens: Vec::new() };
    let error = parse(&empty, LanguageProfile::Lua55, &limits).unwrap_err();
    assert_eq!(error.code, DiagnosticCode::Parse);
    assert_eq!(error.span, Span { start_byte: 0, end_byte: 0 });

    let chunk = lex(b"return 1", LanguageProfile::Lua55, &limits).unwrap();
    let error = parse(&chunk, LanguageProfile::Lua54, &limits).unwrap_err();
    assert_eq!(error.code, DiagnosticCode::Parse);
    assert_eq!(error.span, chunk.tokens[0].span);
}

#[test]
fn parser_refuses_a_statement_after_return() {
    let limits = CompileLimits::default();
    let chunk = lex(b"return 1 local x = 2", LanguageProfile::Lua55, &limits).unwrap();
    let error = parse(&chunk, LanguageProfile::Lua55, &limits).unwrap_err();
    assert_eq!(error.code, DiagnosticCode::Parse);
}

#[test]
fn every_parsed_tree_is_accepted_by_the_resolver() {
    let limits = CompileLimits::default();
    for profile in [LanguageProfile::Lua54, LanguageProfile::Lua55] {
        for source in SOURCES {
            let chunk = lex(source, profile, &limits).unwrap();
            let module = parse(&chunk, profile, &limits).unwrap();
            let resolved = resolve(&module, &chunk, profile, &limits).unwrap();
            assert_eq!(resolved.profile, profile);
            assert_eq!(resolved.span, module.span);
            assert_eq!(resolved.root.statements.len(), module.root.statements.len());
            assert_eq!(resolved.functions[0].id, FunctionId(0));
            assert!(resolved.functions[0].parent.is_none());
            assert_eq!(resolved.functions[0].bindings[0].kind, BindingKind::Environment);
            assert_eq!(resolved.functions[0].bindings[0].name, b"_ENV".to_vec());
            for function in resolved.functions.iter() {
                for (ordinal, binding) in function.bindings.iter().enumerate() {
                    assert_eq!(binding.id.function, function.id);
                    assert_eq!(binding.id.ordinal as usize, ordinal);
                    assert_eq!(binding.owner, function.id);
                }
            }
        }
    }
}

#[test]
fn resolver_refuses_a_tree_that_does_not_match_its_tokens() {
    let limits = CompileLimits::default();
    let chunk = lex(b"return 1", LanguageProfile::Lua55, &limits).unwrap();
    let module = parse(&chunk, LanguageProfile::Lua55, &limits).unwrap();
    let other = lex(b"return 10", LanguageProfile::Lua55, &limits).unwrap();
    let error = resolve(&module, &other, LanguageProfile::Lua55, &limits).unwrap_err();
    assert_eq!(error.code, DiagnosticCode::Resolve);
    let error = resolve(&module, &chunk, LanguageProfile::Lua54, &limits).unwrap_err();
    assert_eq!(error.code, DiagnosticCode::Resolve);
}

#[test]
fn lowering_gives_one_prototype_per_function_in_order() {
    let limits = CompileLimits::default();
    let source: &[u8] = b"local function f() return function() end end local g = function(x) return x end";
    let chunk = lex(source, LanguageProfile::Lua54, &limits).unwrap();
    let module = parse(&chunk, LanguageProfile::Lua54, &limits).unwrap();
    let resolved = resolve(&module, &chunk, LanguageProfile::Lua54, &limits).unwrap();
    let ir = lower(&resolved, &IrLimits::default()).unwrap();
    assert_eq!(ir.profile, LuaProfile::Lua54);
    assert_eq!(ir.span, resolved.span);
    assert_eq!(resolved.functions.len(), 4);
    assert_eq!(ir.prototypes.len(), 4);
    assert_eq!(ir.function_prototypes.len(), 4);
    for (index, (function, proto)) in ir.function_prototypes.iter().enumerate() {
        assert_eq!(*proto, ProtoId(index as u32));
        assert_eq!(ir.prototypes[index].id, ProtoId(index as u32));
        assert_eq!(ir.prototypes[index].function, *function);
        if index > 0 {
            assert!(ir.function_prototypes[index - 1].0 .0 < function.0);
        }
    }
}

#[test]
fn emitted_modules_verify_and_decode_back_to_themselves() {
    let limits = CompileLimits::default();
    for source in SOURCES {
        let chunk = lex(source, LanguageProfile::Lua55, &limits).unwrap();
        let module = parse(&chunk, LanguageProfile::Lua55, &limits).unwrap();
        let resolved = resolve(&module, &chunk, LanguageProfile::Lua55, &limits).unwrap();
        let ir = lower(&resolved, &IrLimits::default()).unwrap();
        let encoded = emit(&ir, &Vec::new(), &VerifyLimits::default()).unwrap();
        let verified = encoded.verified();
        assert_eq!(verified.profile(), LuaProfile::Lua55);
        assert_eq!(verified.module().prototypes.len(), ir.prototypes.len());
        let again = verify_module(
            verified.module().clone(),
            LuaProfile::Lua55,
            &VerifyLimits::default(),
        )
        .unwrap();
        assert_eq!(&again, verified);
        let decoded =
            decode_module(encoded.bytes(), LuaProfile::Lua55, &VerifyLimits::default()).unwrap();
        assert_eq!(&decoded, verified);
    }
}

#[test]
fn emitted_modules_carry_the_lowered_prototypes() {
    let limits = CompileLimits::default();
    for source in SOURCES {
        let chunk = lex(source, LanguageProfile::Lua55, &limits).unwrap();
        let module = parse(&chunk, LanguageProfile::Lua55, &limits).unwrap();
        let resolved = resolve(&module, &chunk, LanguageProfile::Lua55, &limits).unwrap();
        let ir = lower(&resolved, &IrLimits::default()).unwrap();
        let encoded = emit(&ir, &Vec::new(), &VerifyLimits::default()).unwrap();
        let written = encoded.verified().module();
        assert_eq!(written.function_prototypes.len(), ir.function_prototypes.len());
        for (index, prototype) in ir.prototypes.iter().enumerate() {
            let out = &written.prototypes[index];
            assert_eq!(out.id, prototype.id);
            assert_eq!(out.function, prototype.function.0);
            assert_eq!(out.parent, prototype.parent);
            assert_eq!(out.register_count, prototype.register_count);
            assert_eq!(out.parameter_count, prototype.parameter_count);
            assert_eq!(out.constants.len(), prototype.constants.len());
            assert_eq!(out.instructions.len(), prototype.instructions.len());
            for (k, entry) in prototype.instructions.iter().enumerate() {
                assert_eq!(out.instructions[k].instruction, entry.instruction);
                assert_eq!(out.instructions[k].span.start_byte, entry.span.start_byte as u64);
                assert_eq!(out.instructions[k].span.end_byte, entry.span.end_byte as u64);
            }
        }
    }
}

#[test]
fn float_constants_take_the_bits_given_for_their_text() {
    let limits = CompileLimits::default();
    let chunk = lex(b"return 1.5", LanguageProfile::Lua55, &limits).unwrap();
    let module = parse(&chunk, LanguageProfile::Lua55, &limits).unwrap();
    let resolved = resolve(&module, &chunk, LanguageProfile::Lua55, &limits).unwrap();
    let ir = lower(&resolved, &IrLimits::default()).unwrap();
    assert!(emit(&ir, &Vec::new(), &VerifyLimits::default()).is_err());
    let bits = 1.5f64.to_bits();
    let table = vec![(b"2.5".to_vec(), 7u64), (b"1.5".to_vec(), bits), (b"1.5".to_vec(), 9u64)];
    let encoded = emit(&ir, &table, &VerifyLimits::default()).unwrap();
    let constants = &encoded.verified().module().prototypes[0].constants;
    assert!(constants.contains(&BytecodeConstant::FloatBits(bits)));
    assert!(!constants.contains(&BytecodeConstant::FloatBits(9)));
}

#[test]
fn and_and_or_lower_to_short_circuit_jumps() {
    let limits = CompileLimits::default();
    for source in [b"local f; return false and f()".as_slice(), b"local f; return true or f()".as_slice()] {
        let chunk = lex(source, LanguageProfile::Lua55, &limits).unwrap();
        let module = parse(&chunk, LanguageProfile::Lua55, &limits).unwrap();
        let resolved = resolve(&module, &chunk, LanguageProfile::Lua55, &limits).unwrap();
        let ir = lower(&resolved, &IrLimits::default()).unwrap();
        let encoded = emit(&ir, &Vec::new(), &VerifyLimits::default()).unwrap();
        let instructions = &encoded.verified().module().prototypes[0].instructions;
        assert!(instructions.iter().any(|e| matches!(e.instruction, Instruction::JumpIfFalse { .. })));
        assert!(instructions.iter().any(|e| matches!(e.instruction, Instruction::Call { .. })));
        assert!(!instructions.iter().any(|e| matches!(
            e.instruction,
            Instruction::BinaryOp { op: BinaryOperation::And | BinaryOperation::Or, .. }
        )));
    }
}

#[test]
fn a_trailing_call_fills_the_remaining_targets() {
    let limits = CompileLimits::default();
    let source = b"local f,a,b,c; a,b,c=f(1,2,3,4); a,b=(f(1,2,3,4)); return a";
    let chunk = lex(source, LanguageProfile::Lua55, &limits).unwrap();
    let module = parse(&chunk, LanguageProfile::Lua55, &limits).unwrap();
    let resolved = resolve(&module, &chunk, LanguageProfile::Lua55, &limits).unwrap();
    let ir = lower(&resolved, &IrLimits::default()).unwrap();
    let encoded = emit(&ir, &Vec::new(), &VerifyLimits::default()).unwrap();
    let counts: Vec<u16> = encoded.verified().module().prototypes[0]
        .instructions
        .iter()
        .filter_map(|e| match e.instruction {
            Instruction::Call { arg_count: 4, result_mode: rivetlua::bytecode::ResultMode::Fixed(n), .. } => Some(n),
            _ => None,
        })
        .collect();
    assert_eq!(counts, vec![3, 1]);
}

#[test]
fn indexed_targets_are_fixed_before_values_are_stored() {
    let limits = CompileLimits::default();
    let source = b"local i,t = 1, {}; i,t[i]=i+1,20; return i";
    let chunk = lex(source, LanguageProfile::Lua55, &limits).unwrap();
    let module = parse(&chunk, LanguageProfile::Lua55, &limits).unwrap();
    let resolved = resolve(&module, &chunk, LanguageProfile::Lua55, &limits).unwrap();
    let ir = lower(&resolved, &IrLimits::default()).unwrap();
    let encoded = emit(&ir, &Vec::new(), &VerifyLimits::default()).unwrap();
    let instructions = &encoded.verified().module().prototypes[0].instructions;
    let (set, table, key) = instructions
        .iter()
        .enumerate()
        .find_map(|(k, e)| match e.instruction {
            Instruction::SetTable { table, key, .. } => Some((k, table, key)),
            _ => None,
        })
        .unwrap();
    let add = instructions
        .iter()
        .position(|e| matches!(e.instruction, Instruction::BinaryOp { op: BinaryOperation::Add, .. }))
        .unwrap();
    for snapshot in [table, key] {
        let copy = instructions[..add]
            .iter()
            .position(|e| matches!(e.instruction, Instruction::Move { dest, .. } if dest == snapshot))
            .unwrap();
        assert!(copy < add && add < set);
    }
}

#[test]
fn a_break_outside_every_loop_is_refused() {
    let limits = CompileLimits::default();
    for source in [b"local x = 1 break".as_slice(), b"do break end".as_slice()] {
        let chunk = lex(source, LanguageProfile::Lua55, &limits).unwrap();
        let module = parse(&chunk, LanguageProfile::Lua55, &limits).unwrap();
        let error = resolve(&module, &chunk, LanguageProfile::Lua55, &limits).unwrap_err();
        assert_eq!(error.code, DiagnosticCode::Resolve);
    }
    let chunk = lex(b"while true do break end return", LanguageProfile::Lua55, &limits).unwrap();
    let module = parse(&chunk, LanguageProfile::Lua55, &limits).unwrap();
    assert!(resolve(&module, &chunk, LanguageProfile::Lua55, &limits).is_ok());
}

#[test]
fn a_function_that_falls_off_its_end_is_not_emitted() {
    let limits = CompileLimits::default();
    let chunk = lex(b"local x = 1", LanguageProfile::Lua55, &limits).unwrap();
    let module = parse(&chunk, LanguageProfile::Lua55, &limits).unwrap();
    let resolved = resolve(&module, &chunk, LanguageProfile::Lua55, &limits).unwrap();
    let ir = lower(&resolved, &IrLimits::default()).unwrap();
    let error = emit(&ir, &Vec::new(), &VerifyLimits::default()).unwrap_err();
    assert_eq!(error.code, BytecodeErrorCode::Verify);
}

#[test]
fn counters_hand_out_increasing_identities() {
    let mut counter = IdCounter::new();
    let first = counter.take().unwrap();
    let second = counter.take().unwrap();
    assert_eq!(first, 1);
    assert!(first < second);
    let vm = VmId::new_unique_from(&mut counter).unwrap();
    assert_eq!(vm.get(), 3);
    let left = ObjectRef::new_opaque_from(&mut counter).unwrap();
    let right = ObjectRef::new_opaque_from(&mut counter).unwrap();
    assert_ne!(left, right);
}

#[test]
fn prototypes_carry_their_function_metadata() {
    let limits = CompileLimits::default();
    let source: &[u8] = b"local up = 1 local function f(a, b, ...) return a + up end return f";
    let chunk = lex(source, LanguageProfile::Lua55, &limits).unwrap();
    let module = parse(&chunk, LanguageProfile::Lua55, &limits).unwrap();
    let resolved = resolve(&module, &chunk, LanguageProfile::Lua55, &limits).unwrap();
    let ir = lower(&resolved, &IrLimits::default()).unwrap();
    for prototype in ir.prototypes.iter() {
        let function = resolved
            .functions
            .iter()
            .find(|function| function.id == prototype.function)
            .unwrap();
        assert_eq!(prototype.binding_registers.len(), function.bindings.len());
        for (index, (binding, register)) in prototype.binding_registers.iter().enumerate() {
            assert_eq!(*binding, function.bindings[index].id);
            assert_eq!(*register, Register(index as u16 + 1));
        }
        assert_eq!(prototype.upvalues.len(), function.upvalues.len());
        for (index, upvalue) in prototype.upvalues.iter().enumerate() {
            assert_eq!(upvalue.source, function.upvalues[index]);
        }
        let parent = function.parent.map(|parent| ir.proto_id_for(parent).unwrap());
        assert_eq!(prototype.parent, parent);
    }
    let nested = ir.prototypes.iter().find(|prototype| prototype.function != FunctionId(0)).unwrap();
    assert_eq!(nested.parameter_count, 2);
    assert_eq!(nested.upvalues.len(), 1);
    assert_eq!(nested.parent, Some(ProtoId(0)));
}

#[test]
fn names_resolve_to_locals_of_their_own_function_only() {
    let limits = CompileLimits::default();
    let source: &[u8] = b"local x = 1 local f = function(y) return x, y end return x";
    let chunk = lex(source, LanguageProfile::Lua55, &limits).unwrap();
    let module = parse(&chunk, LanguageProfile::Lua55, &limits).unwrap();
    let resolved = resolve(&module, &chunk, LanguageProfile::Lua55, &limits).unwrap();
    let ResolvedStmt::Local { values, .. } = &resolved.root.statements[1] else {
        panic!("the second statement declares f");
    };
    let ResolvedExpr::Function { body, .. } = &values[0] else {
        panic!("f is a function");
    };
    let ResolvedStmt::Return { values: returned, .. } = &body.body.statements[0] else {
        panic!("the body returns");
    };
    let ResolvedExpr::Name { name, resolution, .. } = &returned[0] else {
        panic!("x is a name");
    };
    assert_eq!(name, &b"x".to_vec());
    assert!(matches!(resolution, ResolvedName::Upvalue(_)));
    let ResolvedExpr::Name { resolution, .. } = &returned[1] else {
        panic!("y is a name");
    };
    assert!(matches!(resolution, ResolvedName::Local(b) if b.function == body.function));
    let ResolvedName::Local(y) = resolution else {
        panic!("y is a local of f");
    };
    let inner = resolved.functions.iter().find(|f| f.id == body.function).unwrap();
    assert_eq!(inner.bindings[y.ordinal as usize].name, b"y".to_vec());
    let ResolvedStmt::Return { values: outer, .. } = &resolved.root.statements[2] else {
        panic!("the chunk returns");
    };
    assert!(matches!(&outer[0], ResolvedExpr::Name { resolution: ResolvedName::Local(b), .. } if b.function == FunctionId(0)));
    let ResolvedExpr::Name { resolution: ResolvedName::Local(x), .. } = &outer[0] else {
        panic!("x is a local of the chunk");
    };
    assert_eq!(resolved.functions[0].bindings[x.ordinal as usize].name, b"x".to_vec());
}

#[test]
fn the_empty_chunk_lexes_and_parses() {
    let limits = CompileLimits::default();
    let chunk = lex(b"", LanguageProfile::Lua55, &limits).unwrap();
    assert_eq!(chunk.tokens.len(), 1);
    assert_eq!(chunk.tokens[0].span, Span { start_byte: 0, end_byte: 0 });
    assert_eq!((chunk.tokens[0].start.line, chunk.tokens[0].start.column), (1, 1));
    let module = parse(&chunk, LanguageProfile::Lua55, &limits).unwrap();
    assert!(module.root.statements.is_empty());
    let mut small = CompileLimits::default();
    small.max_source_bytes = 2;
    let error = lex(b"   ", LanguageProfile::Lua55, &small).unwrap_err();
    assert_eq!(error.code, DiagnosticCode::CompileLimit);
    assert_eq!((error.start.line, error.start.column, error.end.line, error.end.column), (1, 1, 1, 1));
}

#[test]
fn a_generic_for_adjusts_its_values_to_four() {
    let limits = CompileLimits::default();
    let source = b"local f, t; for k in f(t) do end return";
    let chunk = lex(source, LanguageProfile::Lua55, &limits).unwrap();
    let module = parse(&chunk, LanguageProfile::Lua55, &limits).unwrap();
    let resolved = resolve(&module, &chunk, LanguageProfile::Lua55, &limits).unwrap();
    let ir = lower(&resolved, &IrLimits::default()).unwrap();
    let encoded = emit(&ir, &Vec::new(), &VerifyLimits::default()).unwrap();
    let instructions = &encoded.verified().module().prototypes[0].instructions;
    assert!(instructions.iter().any(|e| matches!(
        e.instruction,
        Instruction::Call { arg_count: 1, result_mode: rivetlua::bytecode::ResultMode::Fixed(4), .. }
    )));
}

#[test]
fn a_statement_takes_the_kind_its_first_token_names() {
    let limits = CompileLimits::default();
    let cases: [(&[u8], fn(&rivetlua::ast::Stmt) -> bool); 4] = [
        (b"while true do end", |s| matches!(s, rivetlua::ast::Stmt::While { .. })),
        (b"x = 1", |s| matches!(s, rivetlua::ast::Stmt::Assignment { .. })),
        (b"::top::", |s| matches!(s, rivetlua::ast::Stmt::Label { .. })),
        (b"; return", |s| matches!(s, rivetlua::ast::Stmt::Empty { .. })),
    ];
    for (source, kind) in cases {
        let chunk = lex(source, LanguageProfile::Lua55, &limits).unwrap();
        let module = parse(&chunk, LanguageProfile::Lua55, &limits).unwrap();
        assert!(kind(&module.root.statements[0]));
    }
}
