use lox::assembler;
use lox::codegen::{Instruction, InstructionKind};

#[test]
fn instruction_new_has_zero_operand() {
    let i = Instruction::new(InstructionKind::Return);
    assert_eq!(i, Instruction { kind: InstructionKind::Return, operand: 0 });
    let a = assembler::Instruction::new(assembler::InstructionKind::Callq);
    assert_eq!(a.operand, 0);
    assert_eq!(a.kind, assembler::InstructionKind::Callq);
}

#[test]
fn kind_representation_round_trips() {
    for r in 0..=255u8 {
        match InstructionKind::from_repr(r) {
            Some(k) => assert_eq!(k.repr(), r),
            None => assert!(r >= 15),
        }
    }
    assert_eq!(InstructionKind::from_repr(2), Some(InstructionKind::Add));
    assert_eq!(assembler::InstructionKind::from_repr(2), Some(assembler::InstructionKind::Callq));
    assert_eq!(assembler::InstructionKind::from_repr(34), Some(assembler::InstructionKind::MakeClass));
    assert_eq!(assembler::InstructionKind::from_repr(39), None);
}

#[test]
fn instruction_renders_as_kind_and_operand() {
    let i = Instruction { kind: InstructionKind::Constant, operand: 42 };
    assert_eq!(i.render(), "(Constant 42)");
    let j = assembler::Instruction { kind: assembler::InstructionKind::LoadUpValue, operand: 255 };
    assert_eq!(j.render(), "(LoadUpValue 255)");
    assert_eq!(Instruction::new(InstructionKind::Pop).render(), "(Pop 0)");
}
