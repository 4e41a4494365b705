use rivetlua::bytecode::{
    ConstId, EnvironmentSource, FrameLayout, Instruction, InstructionEffects, InstructionOffset,
    LuaProfile, ProtoId, RVLU_V1_NUMBER, RVLU_V2_NUMBER, Register, ResultMode, UpvalueId, rvlu_v2,
};
use rivetlua::codec::{decode_module, encode_module, verify_module};
use rivetlua::decode::{read_binding, read_frame, read_instruction, read_optional_proto, read_span};
use rivetlua::format::{RVLU_MAGIC, RVLU_NUMERIC_I64_F64};
use rivetlua::module::{
    BytecodeBindingId, BytecodeClosePath, BytecodeConstant, BytecodeErrorCode, BytecodeExitKind,
    BytecodeInstruction, BytecodeModule, BytecodePrototype, BytecodeSpan, VerifyLimits,
};
use rivetlua::wire::Reader;

fn first_instruction_offsets(bytes: &[u8]) -> (usize, usize) {
    let mut module_reader = Reader::new(bytes);
    module_reader.take(4).unwrap();
    module_reader.u16().unwrap();
    module_reader.u8().unwrap();
    module_reader.u8().unwrap();
    read_span(&mut module_reader).unwrap();
    let prototypes = module_reader.section().unwrap();
    let mut prototypes_reader = Reader::within(&bytes[..], prototypes);
    prototypes_reader.u32().unwrap();
    let record = prototypes_reader.section().unwrap();
    let mut record_reader = Reader::within(&bytes[..], record);
    record_reader.u32().unwrap();
    record_reader.u32().unwrap();
    read_optional_proto(&mut record_reader).unwrap();
    read_span(&mut record_reader).unwrap();
    record_reader.u16().unwrap();
    record_reader.u16().unwrap();
    record_reader.u8().unwrap();
    record_reader.u8().unwrap();
    read_frame(&mut record_reader).unwrap();
    record_reader.u16().unwrap();
    read_binding(&mut record_reader).unwrap();
    record_reader.section().unwrap();
    let instructions = record_reader.section().unwrap();
    let mut instructions_reader = Reader::within(&bytes[..], instructions);
    instructions_reader.u32().unwrap();
    let instruction_offset = instructions_reader.location();
    read_instruction(&mut instructions_reader).unwrap();
    let effect_offset = instructions_reader.location();
    (instruction_offset, effect_offset)
}

fn assert_high_count_operand_is_rejected(module: BytecodeModule, relative_offset: usize) {
    let limits = VerifyLimits::default();
    let encoded = encode_module(module.clone(), LuaProfile::Lua55, &limits).unwrap();
    let mut bytes = encoded.bytes().to_vec();
    let (instruction_offset, _) = first_instruction_offsets(&bytes);
    bytes[instruction_offset + relative_offset..instruction_offset + relative_offset + 2]
        .copy_from_slice(&u16::MAX.to_le_bytes());
    let error = decode_module(&bytes, LuaProfile::Lua55, &limits)
        .expect_err("高計數 operand 必須在驗證成功前拒絕");
    assert_eq!(error.code, BytecodeErrorCode::Verify);
}

fn sample() -> BytecodeModule {
    BytecodeModule {
        format_version: rvlu_v2(),
        profile: LuaProfile::Lua55,
        numeric_config: RVLU_NUMERIC_I64_F64,
        span: BytecodeSpan {
            start_byte: 0,
            end_byte: 10,
        },
        function_prototypes: vec![(0, ProtoId(0))],
        prototypes: vec![BytecodePrototype {
            id: ProtoId(0),
            function: 0,
            parent: None,
            span: BytecodeSpan {
                start_byte: 0,
                end_byte: 10,
            },
            register_count: 2,
            parameter_count: 0,
            is_variadic: false,
            named_vararg: None,
            frame: FrameLayout {
                register_limit: 2,
                initial_top: Register(2),
                dynamic_top: Register(2),
                return_base: Register(0),
                environment: Register(1),
                environment_source: EnvironmentSource::RootExternal,
                registers_start_as_nil: true,
            },
            global_environment: Register(1),
            global_environment_binding: BytecodeBindingId {
                function: 0,
                ordinal: 0,
            },
            binding_registers: vec![(
                BytecodeBindingId {
                    function: 0,
                    ordinal: 0,
                },
                Register(1),
            )],
            constants: vec![BytecodeConstant::Integer(1)],
            upvalues: vec![],
            instructions: vec![
                BytecodeInstruction {
                    instruction: Instruction::LoadConst {
                        dest: Register(0),
                        constant: ConstId(0),
                    },
                    span: BytecodeSpan {
                        start_byte: 0,
                        end_byte: 8,
                    },
                    close_path: None,
                },
                BytecodeInstruction {
                    instruction: Instruction::Return {
                        base: Register(0),
                        result_mode: ResultMode::Fixed(1),
                    },
                    span: BytecodeSpan {
                        start_byte: 0,
                        end_byte: 10,
                    },
                    close_path: None,
                },
            ],
            close_paths: vec![],
        }],
    }
}

#[test]
fn rvlu_roundtrip_is_little_endian_and_verified() {
    let limits = VerifyLimits::default();
    let encoded = encode_module(sample(), LuaProfile::Lua55, &limits).unwrap();
    assert_eq!(&encoded.bytes()[..4], &RVLU_MAGIC);
    assert_eq!(&encoded.bytes()[4..6], &RVLU_V2_NUMBER.to_le_bytes());
    assert_eq!(encoded.verified().format_version(), rvlu_v2());
    let decoded = decode_module(encoded.bytes(), LuaProfile::Lua55, &limits).unwrap();
    assert_eq!(decoded.module(), encoded.verified().module());
}

#[test]
fn decoder_rejects_high_count_loadnil_and_call_result_operands() {
    let mut load_nil = sample();
    load_nil.prototypes[0].instructions[0].instruction = Instruction::LoadNil {
        start: Register(0),
        count: 1,
    };
    assert_high_count_operand_is_rejected(load_nil, 3);

    let mut call_arguments = sample();
    call_arguments.prototypes[0].instructions[0].instruction = Instruction::Call {
        base: Register(0),
        arg_count: 0,
        result_mode: ResultMode::Fixed(0),
    };
    assert_high_count_operand_is_rejected(call_arguments.clone(), 3);
    assert_high_count_operand_is_rejected(call_arguments, 6);
}

#[test]
fn decoder_rejects_high_count_tailcall_vararg_and_return_operands() {
    let mut tail_call = sample();
    tail_call.prototypes[0].instructions[0].instruction = Instruction::TailCall {
        base: Register(0),
        arg_count: 0,
        result_mode: ResultMode::Fixed(0),
    };
    assert_high_count_operand_is_rejected(tail_call.clone(), 3);
    assert_high_count_operand_is_rejected(tail_call, 6);

    let mut vararg = sample();
    vararg.prototypes[0].is_variadic = true;
    vararg.prototypes[0].instructions[0].instruction = Instruction::Vararg {
        base: Register(0),
        result_mode: ResultMode::Fixed(1),
    };
    assert_high_count_operand_is_rejected(vararg, 4);

    let mut return_ = sample();
    return_.prototypes[0].instructions[0].instruction = Instruction::Return {
        base: Register(0),
        result_mode: ResultMode::Fixed(1),
    };
    assert_high_count_operand_is_rejected(return_, 4);
}

#[test]
fn decoder_accepts_canonical_effect_flags_and_rejects_unknown_or_mismatched_flags() {
    let limits = VerifyLimits::default();
    let encoded = encode_module(sample(), LuaProfile::Lua55, &limits).unwrap();
    let mut bytes = encoded.bytes().to_vec();
    let (_, effect_offset) = first_instruction_offsets(&bytes);
    assert!(decode_module(&bytes, LuaProfile::Lua55, &limits).is_ok());

    bytes[effect_offset] = InstructionEffects::KNOWN_FLAGS + 1;
    let error = decode_module(&bytes, LuaProfile::Lua55, &limits)
        .expect_err("未知 effect flag 必須拒絕");
    assert_eq!(error.code, BytecodeErrorCode::Verify);
    assert!(error.message.contains("未知 bit"));

    bytes[effect_offset] = InstructionEffects::ALLOCATES;
    let error = decode_module(&bytes, LuaProfile::Lua55, &limits)
        .expect_err("已知但矛盾的 effect flag 必須拒絕");
    assert_eq!(error.code, BytecodeErrorCode::Verify);
    assert!(error.message.contains("canonical"));
}

#[test]
fn verifier_rejects_bad_operands_cfg_top_and_close_metadata() {
    let limits = VerifyLimits::default();
    let mut bad_constant = sample();
    bad_constant.prototypes[0].instructions[0].instruction = Instruction::LoadConst {
        dest: Register(0),
        constant: ConstId(1),
    };
    assert_eq!(
        verify_module(bad_constant, LuaProfile::Lua55, &limits)
            .expect_err("const index 必須拒絕")
            .code,
        BytecodeErrorCode::Verify
    );

    let mut bad_upvalue = sample();
    bad_upvalue.prototypes[0].instructions[0].instruction = Instruction::GetUpvalue {
        dest: Register(0),
        upvalue: UpvalueId(0),
    };
    assert!(verify_module(bad_upvalue, LuaProfile::Lua55, &limits).is_err());

    let mut bad_child = sample();
    bad_child.prototypes[0].instructions[0].instruction = Instruction::Closure {
        dest: Register(0),
        proto: ProtoId(9),
    };
    assert!(verify_module(bad_child, LuaProfile::Lua55, &limits).is_err());

    let mut self_jump = sample();
    self_jump.prototypes[0].instructions[0].instruction = Instruction::Jump {
        target: InstructionOffset(0),
    };
    assert!(verify_module(self_jump, LuaProfile::Lua55, &limits).is_err());

    let mut fallthrough = sample();
    fallthrough.prototypes[0].instructions.pop();
    assert!(verify_module(fallthrough, LuaProfile::Lua55, &limits).is_err());

    let mut valid_open = sample();
    valid_open.prototypes[0].instructions[0].instruction = Instruction::Call {
        base: Register(0),
        arg_count: 0,
        result_mode: ResultMode::All,
    };
    valid_open.prototypes[0].instructions[1].instruction = Instruction::Return {
        base: Register(0),
        result_mode: ResultMode::All,
    };
    verify_module(valid_open, LuaProfile::Lua55, &limits)
        .expect("open result 只流向 Return(All) 必須合法");

    let mut open_without_consumer = sample();
    open_without_consumer.prototypes[0].instructions[1].instruction = Instruction::Return {
        base: Register(0),
        result_mode: ResultMode::All,
    };
    assert!(verify_module(open_without_consumer, LuaProfile::Lua55, &limits).is_err());

    let mut bad_top = sample();
    bad_top.prototypes[0].frame.dynamic_top = Register(1);
    assert!(verify_module(bad_top, LuaProfile::Lua55, &limits).is_err());

    let mut bad_close = sample();
    bad_close.prototypes[0].instructions.insert(
        1,
        BytecodeInstruction {
            instruction: Instruction::Close {
                base: Register(1),
                count: 1,
            },
            span: BytecodeSpan {
                start_byte: 0,
                end_byte: 10,
            },
            close_path: None,
        },
    );
    assert!(verify_module(bad_close, LuaProfile::Lua55, &limits).is_err());

    let instruction_limited = VerifyLimits {
        max_instructions: 1,
        ..limits
    };
    assert_eq!(
        verify_module(sample(), LuaProfile::Lua55, &instruction_limited)
            .expect_err("instruction/worklist 限額必須拒絕")
            .code,
        BytecodeErrorCode::CompileLimit
    );
}

#[test]
fn verifier_accepts_last_register_zero_arg_call_and_rejects_true_overflow() {
    let limits = VerifyLimits::default();
    let mut last_register = sample();
    last_register.prototypes[0].instructions[0].instruction = Instruction::Call {
        base: Register(1),
        arg_count: 0,
        result_mode: ResultMode::Fixed(0),
    };
    verify_module(last_register, LuaProfile::Lua55, &limits)
        .expect("base 位於 frame 最後 register 的 zero-argument Call 必須合法");

    let mut overflowing = sample();
    overflowing.prototypes[0].instructions[0].instruction = Instruction::Call {
        base: Register(1),
        arg_count: 1,
        result_mode: ResultMode::Fixed(0),
    };
    assert_eq!(
        verify_module(overflowing, LuaProfile::Lua55, &limits)
            .expect_err("base + arg_count 越界必須拒絕")
            .code,
        BytecodeErrorCode::Verify
    );
}

#[test]
fn verifier_rejects_numeric_for_next_without_matching_prepare() {
    let limits = VerifyLimits::default();
    let mut malformed = sample();
    let prototype = &mut malformed.prototypes[0];
    prototype.register_count = 4;
    prototype.frame.register_limit = 4;
    prototype.frame.initial_top = Register(4);
    prototype.frame.dynamic_top = Register(4);
    prototype.instructions = vec![
        BytecodeInstruction {
            instruction: Instruction::LoadNil {
                start: Register(0),
                count: 1,
            },
            span: BytecodeSpan {
                start_byte: 0,
                end_byte: 1,
            },
            close_path: None,
        },
        BytecodeInstruction {
            instruction: Instruction::NumericForNext {
                control: Register(0),
                limit: Register(1),
                step: Register(2),
                visible: Register(3),
                target: InstructionOffset(0),
                exit: InstructionOffset(2),
            },
            span: BytecodeSpan {
                start_byte: 1,
                end_byte: 2,
            },
            close_path: None,
        },
        BytecodeInstruction {
            instruction: Instruction::Return {
                base: Register(0),
                result_mode: ResultMode::Fixed(0),
            },
            span: BytecodeSpan {
                start_byte: 2,
                end_byte: 3,
            },
            close_path: None,
        },
    ];
    let error = verify_module(malformed, LuaProfile::Lua55, &limits)
        .expect_err("沒有 NumericForPrepare 的 Next 必須拒絕");
    assert_eq!(error.code, BytecodeErrorCode::Verify);
    assert!(error.message.contains("NumericForNext"));
}

#[test]
fn verifier_requires_numeric_for_prepare_on_every_next_path() {
    let limits = VerifyLimits::default();
    let mut module = sample();
    let prototype = &mut module.prototypes[0];
    prototype.register_count = 4;
    prototype.frame.register_limit = 4;
    prototype.frame.initial_top = Register(4);
    prototype.frame.dynamic_top = Register(4);
    prototype.instructions = vec![
        BytecodeInstruction {
            instruction: Instruction::Jump {
                target: InstructionOffset(1),
            },
            span: prototype.span,
            close_path: None,
        },
        BytecodeInstruction {
            instruction: Instruction::NumericForPrepare {
                control: Register(0),
                limit: Register(1),
                step: Register(2),
                visible: Register(3),
                exit: InstructionOffset(4),
            },
            span: prototype.span,
            close_path: None,
        },
        BytecodeInstruction {
            instruction: Instruction::Move {
                dest: Register(3),
                src: Register(3),
            },
            span: prototype.span,
            close_path: None,
        },
        BytecodeInstruction {
            instruction: Instruction::NumericForNext {
                control: Register(0),
                limit: Register(1),
                step: Register(2),
                visible: Register(3),
                target: InstructionOffset(2),
                exit: InstructionOffset(4),
            },
            span: prototype.span,
            close_path: None,
        },
        BytecodeInstruction {
            instruction: Instruction::Return {
                base: Register(0),
                result_mode: ResultMode::Fixed(0),
            },
            span: prototype.span,
            close_path: None,
        },
    ];
    verify_module(module.clone(), LuaProfile::Lua55, &limits)
        .expect("Prepare body entry 與 Next 回邊應合法");
    let mut exit_bypass = module.clone();
    exit_bypass.prototypes[0].instructions[4].instruction = Instruction::Jump {
        target: InstructionOffset(2),
    };
    let error = verify_module(exit_bypass, LuaProfile::Lua55, &limits)
        .expect_err("Prepare 的 exit 分支不可回跳至 Next body");
    assert_eq!(error.code, BytecodeErrorCode::Verify);
    assert!(error.message.contains("NumericForNext"));
    module.prototypes[0].instructions[0].instruction = Instruction::Jump {
        target: InstructionOffset(2),
    };
    let error = verify_module(module, LuaProfile::Lua55, &limits)
        .expect_err("從入口跳過 Prepare 進入 Next 必須拒絕");
    assert_eq!(error.code, BytecodeErrorCode::Verify);
    assert!(error.message.contains("NumericForNext"));
}

#[test]
fn verifier_and_decoder_reject_vararg_in_non_variadic_prototype() {
    let limits = VerifyLimits::default();
    let mut module = sample();
    module.prototypes[0].instructions[0].instruction = Instruction::Vararg {
        base: Register(0),
        result_mode: ResultMode::Fixed(1),
    };
    let error = verify_module(module.clone(), LuaProfile::Lua55, &limits)
        .expect_err("非 variadic prototype 不可含 Vararg");
    assert_eq!(error.code, BytecodeErrorCode::Verify);

    module.prototypes[0].is_variadic = true;
    let encoded = encode_module(module, LuaProfile::Lua55, &limits)
        .expect("variadic prototype 可使用 Vararg");
    let mut bytes = encoded.bytes().to_vec();
    let mut module_reader = Reader::new(&bytes);
    module_reader.take(4).unwrap();
    module_reader.u16().unwrap();
    module_reader.u8().unwrap();
    module_reader.u8().unwrap();
    read_span(&mut module_reader).unwrap();
    let prototypes = module_reader.section().unwrap();
    let mut prototypes_reader = Reader::within(&bytes[..], prototypes);
    prototypes_reader.u32().unwrap();
    let record = prototypes_reader.section().unwrap();
    let mut record_reader = Reader::within(&bytes[..], record);
    record_reader.u32().unwrap();
    record_reader.u32().unwrap();
    read_optional_proto(&mut record_reader).unwrap();
    read_span(&mut record_reader).unwrap();
    record_reader.u16().unwrap();
    record_reader.u16().unwrap();
    let variadic_flag_offset = record_reader.location();
    bytes[variadic_flag_offset] = 0;
    let error = decode_module(&bytes, LuaProfile::Lua55, &limits)
        .expect_err("decode 不可接受非 variadic prototype 的 Vararg");
    assert_eq!(error.code, BytecodeErrorCode::Verify);
}

#[test]
fn verifier_distinguishes_normal_close_from_pending_return_close() {
    let limits = VerifyLimits::default();
    let mut module = sample();
    let prototype = &mut module.prototypes[0];
    prototype.register_count = 3;
    prototype.frame.register_limit = 3;
    prototype.frame.initial_top = Register(3);
    prototype.frame.dynamic_top = Register(3);
    let binding = BytecodeBindingId {
        function: 0,
        ordinal: 1,
    };
    prototype.binding_registers.push((binding, Register(2)));
    let path = BytecodeClosePath {
        kind: BytecodeExitKind::Normal,
        span: prototype.span,
        from_scope: 1,
        target_scope: Some(0),
        bindings: vec![binding],
        registers: vec![Register(2)],
    };
    prototype.close_paths.push(path.clone());
    prototype.instructions = vec![
        BytecodeInstruction {
            instruction: Instruction::Close {
                base: Register(2),
                count: 1,
            },
            span: prototype.span,
            close_path: Some(path),
        },
        BytecodeInstruction {
            instruction: Instruction::TailCall {
                base: Register(0),
                arg_count: 0,
                result_mode: ResultMode::All,
            },
            span: prototype.span,
            close_path: None,
        },
    ];
    verify_module(module.clone(), LuaProfile::Lua55, &limits)
        .expect("正常區塊 Close 後的 TailCall 應合法");
    module.prototypes[0].close_paths[0].kind = BytecodeExitKind::Return;
    module.prototypes[0].instructions[0]
        .close_path
        .as_mut()
        .unwrap()
        .kind = BytecodeExitKind::Return;
    let error = verify_module(module, LuaProfile::Lua55, &limits)
        .expect_err("pending Return ClosePath 不可接 TailCall");
    assert_eq!(error.code, BytecodeErrorCode::Verify);
}

#[test]
fn verifier_requires_exact_contiguous_close_path_order() {
    let limits = VerifyLimits::default();
    let mut module = sample();
    let prototype = &mut module.prototypes[0];
    prototype.register_count = 3;
    prototype.frame.register_limit = 3;
    prototype.frame.initial_top = Register(3);
    prototype.frame.dynamic_top = Register(3);
    let inner = BytecodeBindingId {
        function: 0,
        ordinal: 1,
    };
    prototype.binding_registers.push((inner, Register(2)));
    let path = BytecodeClosePath {
        kind: BytecodeExitKind::Return,
        span: BytecodeSpan {
            start_byte: 0,
            end_byte: 10,
        },
        from_scope: 1,
        target_scope: None,
        bindings: vec![inner, prototype.global_environment_binding],
        registers: vec![Register(2), Register(1)],
    };
    prototype.close_paths.push(path.clone());
    prototype.instructions = vec![
        BytecodeInstruction {
            instruction: Instruction::Close {
                base: Register(1),
                count: 1,
            },
            span: path.span,
            close_path: Some(path.clone()),
        },
        BytecodeInstruction {
            instruction: Instruction::Close {
                base: Register(2),
                count: 1,
            },
            span: path.span,
            close_path: Some(path),
        },
        BytecodeInstruction {
            instruction: Instruction::Return {
                base: Register(0),
                result_mode: ResultMode::Fixed(1),
            },
            span: BytecodeSpan {
                start_byte: 0,
                end_byte: 10,
            },
            close_path: None,
        },
    ];
    assert!(verify_module(module, LuaProfile::Lua55, &limits).is_err());
}

#[test]
fn verifier_applies_instruction_and_constant_limits_to_whole_module() {
    let limits = VerifyLimits {
        max_instructions: 3,
        max_constants: 1,
        ..VerifyLimits::default()
    };
    let mut module = sample();
    let mut child = module.prototypes[0].clone();
    child.id = ProtoId(1);
    child.function = 1;
    child.parent = Some(ProtoId(0));
    child.frame.environment_source = EnvironmentSource::ParentFrame {
        parent: ProtoId(0),
        register: Register(1),
    };
    module.prototypes.push(child);
    module.function_prototypes.push((1, ProtoId(1)));
    assert_eq!(
        verify_module(module.clone(), LuaProfile::Lua55, &limits)
            .expect_err("跨 prototype instruction/constant 總量必須拒絕")
            .code,
        BytecodeErrorCode::CompileLimit
    );
    let encoded = encode_module(module, LuaProfile::Lua55, &VerifyLimits::default()).unwrap();
    assert_eq!(
        decode_module(encoded.bytes(), LuaProfile::Lua55, &limits)
            .expect_err("decode 必須在累計配置前套用剩餘總量")
            .code,
        BytecodeErrorCode::CompileLimit
    );
}

#[test]
fn rvlu_rejects_unknown_opcode_with_actual_instruction_offset() {
    let limits = VerifyLimits::default();
    let encoded = encode_module(sample(), LuaProfile::Lua55, &limits).unwrap();
    let mut bytes = encoded.bytes().to_vec();
    let mut module_reader = Reader::new(&bytes);
    module_reader.take(4).unwrap();
    module_reader.u16().unwrap();
    module_reader.u8().unwrap();
    module_reader.u8().unwrap();
    read_span(&mut module_reader).unwrap();
    let prototypes = module_reader.section().unwrap();
    let mut prototypes_reader = Reader::within(&bytes[..], prototypes);
    prototypes_reader.u32().unwrap();
    let record = prototypes_reader.section().unwrap();
    let mut record_reader = Reader::within(&bytes[..], record);
    record_reader.u32().unwrap();
    record_reader.u32().unwrap();
    read_optional_proto(&mut record_reader).unwrap();
    read_span(&mut record_reader).unwrap();
    record_reader.u16().unwrap();
    read_frame(&mut record_reader).unwrap();
    record_reader.u16().unwrap();
    read_binding(&mut record_reader).unwrap();
    record_reader.section().unwrap();
    let instructions = record_reader.section().unwrap();
    let mut instructions_reader = Reader::within(&bytes[..], instructions);
    instructions_reader.u32().unwrap();
    let opcode_offset = instructions_reader.location();
    bytes[opcode_offset] = 0xff;
    let error =
        decode_module(&bytes, LuaProfile::Lua55, &limits).expect_err("unknown opcode 必須拒絕");
    assert_eq!(error.code, BytecodeErrorCode::Verify);
    assert_eq!(error.offset, opcode_offset);
}

#[test]
fn rvlu_rejects_header_section_and_limit_failures_without_panic() {
    let limits = VerifyLimits::default();
    let encoded = encode_module(sample(), LuaProfile::Lua55, &limits).unwrap();
    for (offset, value) in [(0, 0xff), (4, 3), (6, 1), (7, 0)] {
        let mut bytes = encoded.bytes().to_vec();
        bytes[offset] = value;
        assert_eq!(
            decode_module(&bytes, LuaProfile::Lua55, &limits)
                .expect_err("損壞 RVLU header 必須拒絕")
                .code,
            BytecodeErrorCode::Verify
        );
    }
    let mut v1 = encoded.bytes().to_vec();
    v1[4..6].copy_from_slice(&RVLU_V1_NUMBER.to_le_bytes());
    assert_eq!(
        decode_module(&v1, LuaProfile::Lua55, &limits)
            .expect_err("RVLU v1 必須明確拒絕")
            .code,
        BytecodeErrorCode::Verify
    );
    let mut oversized_section = encoded.bytes().to_vec();
    oversized_section[24..28].copy_from_slice(&u32::MAX.to_le_bytes());
    assert_eq!(
        decode_module(&oversized_section, LuaProfile::Lua55, &limits)
            .expect_err("溢位 section 長度必須拒絕")
            .code,
        BytecodeErrorCode::Verify
    );
    let restricted = VerifyLimits {
        max_module_bytes: encoded.bytes().len() - 1,
        ..limits
    };
    assert_eq!(
        decode_module(encoded.bytes(), LuaProfile::Lua55, &restricted)
            .expect_err("module bytes 限額必須在讀取前拒絕")
            .code,
        BytecodeErrorCode::CompileLimit
    );
    for length in 0..encoded.bytes().len() {
        assert!(decode_module(&encoded.bytes()[..length], LuaProfile::Lua55, &limits).is_err());
    }
}

#[test]
fn an_unknown_opcode_is_refused_where_the_instruction_starts() {
    let bytes = [0u8, 0, 0, 0, 20, 1, 2];
    let mut reader = Reader::new(&bytes);
    let _ = reader.take(4).unwrap();
    let before = reader.location();
    let error = read_instruction(&mut reader).unwrap_err();
    assert_eq!(error.code, rivetlua::module::BytecodeErrorCode::Verify);
    assert_eq!(error.offset, before);
}
