use lox::codegen::{Instruction, InstructionKind, SymbolicInstruction, SymbolicOp, SymbolicProgram};

#[test]
fn labels_resolve_to_next_instruction_index() {
    let mut p = SymbolicProgram::new();
    let start = p.create_label("start");
    let end = p.create_label("end");
    assert_eq!(start.id(), 0);
    assert_eq!(end.id(), 1);
    assert_eq!(end.name(), "end");
    p.add_instruction(SymbolicInstruction::Label(start));
    p.add_instruction(SymbolicInstruction::Instruction(InstructionKind::Constant, SymbolicOp::Imm(7)));
    p.add_instruction(SymbolicInstruction::Instruction(InstructionKind::Pop, SymbolicOp::Omitted));
    p.add_instruction(SymbolicInstruction::Instruction(InstructionKind::Return, SymbolicOp::Label(end)));
    p.add_instruction(SymbolicInstruction::Instruction(InstructionKind::Add, SymbolicOp::Label(start)));
    p.add_instruction(SymbolicInstruction::Label(end));
    p.add_instruction(SymbolicInstruction::Instruction(InstructionKind::Print, SymbolicOp::Omitted));
    let out = p.parse().expect("resolves");
    assert_eq!(
        out,
        vec![
            Instruction { kind: InstructionKind::Constant, operand: 7 },
            Instruction { kind: InstructionKind::Pop, operand: 0 },
            Instruction { kind: InstructionKind::Return, operand: 4 },
            Instruction { kind: InstructionKind::Add, operand: 0 },
            Instruction { kind: InstructionKind::Print, operand: 0 },
        ]
    );
}

#[test]
fn label_bound_twice_fails() {
    let mut p = SymbolicProgram::new();
    let l = p.create_label("l");
    p.add_instruction(SymbolicInstruction::Label(l));
    p.add_instruction(SymbolicInstruction::Instruction(InstructionKind::Pop, SymbolicOp::Omitted));
    p.add_instruction(SymbolicInstruction::Label(l));
    p.add_instruction(SymbolicInstruction::Instruction(InstructionKind::Pop, SymbolicOp::Omitted));
    assert!(p.parse().is_none());
}

#[test]
fn label_bound_past_end_fails() {
    let mut p = SymbolicProgram::new();
    let l = p.create_label("l");
    p.add_instruction(SymbolicInstruction::Instruction(InstructionKind::Pop, SymbolicOp::Omitted));
    p.add_instruction(SymbolicInstruction::Label(l));
    assert!(p.parse().is_none());
}

#[test]
fn unbound_label_fails() {
    let mut p = SymbolicProgram::new();
    let l = p.create_label("l");
    p.add_instruction(SymbolicInstruction::Instruction(InstructionKind::Return, SymbolicOp::Label(l)));
    assert!(p.parse().is_none());
}

#[test]
fn label_position_too_large_for_operand_fails() {
    let mut p = SymbolicProgram::new();
    let l = p.create_label("far");
    for _ in 0..256 {
        p.add_instruction(SymbolicInstruction::Instruction(InstructionKind::Pop, SymbolicOp::Omitted));
    }
    p.add_instruction(SymbolicInstruction::Label(l));
    p.add_instruction(SymbolicInstruction::Instruction(InstructionKind::Return, SymbolicOp::Label(l)));
    assert!(p.parse().is_none());
}

#[test]
fn empty_program_parses_to_nothing() {
    let p = SymbolicProgram::new();
    assert_eq!(p.parse(), Some(vec![]));
}

#[test]
fn from_instruction_keeps_operand() {
    let i = Instruction { kind: InstructionKind::Constant, operand: 3 };
    let mut p = SymbolicProgram::new();
    p.add_instruction(SymbolicInstruction::from_instruction(i));
    assert_eq!(p.parse(), Some(vec![i]));
}

#[test]
fn labels_differ_by_name_too() {
    let mut other = SymbolicProgram::new();
    let foreign = other.create_label("elsewhere");
    let mut p = SymbolicProgram::new();
    let own = p.create_label("here");
    assert_eq!(own.id(), foreign.id());
    p.add_instruction(SymbolicInstruction::Label(own));
    p.add_instruction(SymbolicInstruction::Instruction(InstructionKind::Return, SymbolicOp::Label(foreign)));
    assert!(p.parse().is_none());
    let mut q = SymbolicProgram::new();
    let same = q.create_label("elsewhere");
    q.add_instruction(SymbolicInstruction::Label(same));
    q.add_instruction(SymbolicInstruction::Instruction(InstructionKind::Return, SymbolicOp::Label(foreign)));
    assert_eq!(q.parse(), Some(vec![Instruction { kind: InstructionKind::Return, operand: 0 }]));
}
