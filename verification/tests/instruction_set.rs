use rivetlua::bytecode::{
    BinaryOperation, ConstId, ControlFlow, EnvironmentSource, FrameLayout, Instruction,
    InstructionEffects, InstructionOffset, Opcode, ProfileRequirement, ProtoId, Register,
    ResultMode, UnaryOperation, UpvalueId,
};

#[test]
fn fixed_opcode_set_and_effects_are_typed() {
    assert_eq!(Opcode::ALL.len(), 20);
    assert!(Opcode::ALL.contains(&Opcode::Call));
    assert!(Opcode::ALL.contains(&Opcode::Close));
    assert!(Opcode::ALL.contains(&Opcode::NumericForPrepare));
    assert!(Opcode::ALL.contains(&Opcode::NumericForNext));
    let instruction = Instruction::BinaryOp {
        dest: Register(3),
        op: BinaryOperation::Add,
        left: Register(1),
        right: Register(2),
    };
    assert_eq!(instruction.opcode(), Opcode::BinaryOp);
    assert_eq!(instruction.profile_requirement(), ProfileRequirement::Any);
    assert_eq!(instruction.effects().reads, vec![Register(1), Register(2)]);
    assert_eq!(instruction.effects().writes, vec![Register(3)]);
    assert!(instruction.effects().may_call);
    assert!(instruction.effects().may_yield);
    assert!(instruction.effects().safe_point);
    assert!(!instruction.effects().allocates);
    let concat = Instruction::BinaryOp {
        dest: Register(3),
        op: BinaryOperation::Concat,
        left: Register(1),
        right: Register(2),
    }
    .effects();
    assert!(concat.allocates);
    assert_ne!(concat.encoded_flags() & InstructionEffects::ALLOCATES, 0);
    let get = Instruction::GetTable {
        dest: Register(3),
        table: Register(1),
        key: Register(2),
    }
    .effects();
    assert!(get.may_call && get.may_yield && get.safe_point);
    let upvalue_write = Instruction::SetUpvalue {
        upvalue: UpvalueId(0),
        src: Register(1),
    }
    .effects();
    assert!(upvalue_write.writes_heap && upvalue_write.safe_point);
    assert_eq!(
        Instruction::Close {
            base: Register(2),
            count: 1
        }
        .effects()
        .control_flow,
        ControlFlow::Linear
    );
    let frame = FrameLayout {
        register_limit: 8,
        initial_top: Register(3),
        dynamic_top: Register(3),
        return_base: Register(0),
        environment: Register(1),
        environment_source: EnvironmentSource::RootExternal,
        registers_start_as_nil: true,
    };
    assert!(frame.registers_start_as_nil);
    assert_eq!(frame.environment, Register(1));
}

#[test]
fn canonical_effect_flags_match_instruction_effects_for_every_opcode() {
    let instructions = [
        Instruction::LoadConst {
            dest: Register(0),
            constant: ConstId(0),
        },
        Instruction::LoadNil {
            start: Register(0),
            count: u16::MAX,
        },
        Instruction::Move {
            dest: Register(0),
            src: Register(1),
        },
        Instruction::GetUpvalue {
            dest: Register(0),
            upvalue: UpvalueId(0),
        },
        Instruction::SetUpvalue {
            upvalue: UpvalueId(0),
            src: Register(1),
        },
        Instruction::NewTable { dest: Register(0) },
        Instruction::GetTable {
            dest: Register(0),
            table: Register(1),
            key: Register(2),
        },
        Instruction::SetTable {
            table: Register(0),
            key: Register(1),
            value: Register(2),
        },
        Instruction::UnaryOp {
            dest: Register(0),
            op: UnaryOperation::Negate,
            src: Register(1),
        },
        Instruction::BinaryOp {
            dest: Register(0),
            op: BinaryOperation::Concat,
            left: Register(1),
            right: Register(2),
        },
        Instruction::Jump {
            target: InstructionOffset(0),
        },
        Instruction::JumpIfFalse {
            condition: Register(0),
            target: InstructionOffset(0),
        },
        Instruction::Closure {
            dest: Register(0),
            proto: ProtoId(0),
        },
        Instruction::Call {
            base: Register(0),
            arg_count: u16::MAX,
            result_mode: ResultMode::Fixed(u16::MAX),
        },
        Instruction::TailCall {
            base: Register(0),
            arg_count: u16::MAX,
            result_mode: ResultMode::All,
        },
        Instruction::Vararg {
            base: Register(0),
            result_mode: ResultMode::Fixed(u16::MAX),
        },
        Instruction::Return {
            base: Register(0),
            result_mode: ResultMode::All,
        },
        Instruction::Close {
            base: Register(0),
            count: u16::MAX,
        },
        Instruction::NumericForPrepare {
            control: Register(0),
            limit: Register(1),
            step: Register(2),
            visible: Register(3),
            exit: InstructionOffset(0),
        },
        Instruction::NumericForNext {
            control: Register(0),
            limit: Register(1),
            step: Register(2),
            visible: Register(3),
            target: InstructionOffset(0),
            exit: InstructionOffset(1),
        },
    ];

    for instruction in instructions {
        let flags = instruction.canonical_effect_flags();
        let effects = instruction.effects();
        assert_eq!(effects.encoded_flags(), flags);
        assert_eq!(
            effects.allocates,
            flags & InstructionEffects::ALLOCATES != 0
        );
        assert_eq!(
            effects.writes_heap,
            flags & InstructionEffects::WRITES_HEAP != 0
        );
        assert_eq!(effects.may_call, flags & InstructionEffects::MAY_CALL != 0);
        assert_eq!(
            effects.may_yield,
            flags & InstructionEffects::MAY_YIELD != 0
        );
        assert_eq!(
            effects.may_error,
            flags & InstructionEffects::MAY_ERROR != 0
        );
        assert_eq!(
            effects.safe_point,
            flags & InstructionEffects::SAFE_POINT != 0
        );
    }
}
