use lox::assembler::{Instruction, InstructionKind};
use lox::codegen;
use lox::codegen::ChunkBuilder;
use lox::executor::CallFrame;
use lox::frontend::ast::{BinOp, Binary, Expression, Literal, Unary, UnaryOp};
use lox::gc::{Heap, HeapConfig};

#[test]
fn call_frame_walks_its_instructions() {
    let code = vec![
        Instruction::new(InstructionKind::Constant),
        Instruction::new(InstructionKind::Pop),
        Instruction::new(InstructionKind::Return),
    ];
    let mut frame = CallFrame::new("main", 2, vec![10u64, 20]);
    assert_eq!(frame.ip, 0);
    assert_eq!(frame.pop_instruction(&code), Some(code[0]));
    assert_eq!(frame.pop_instruction(&code), Some(code[1]));
    assert_eq!(frame.ip, 2);
    frame.jmp(&code, 0);
    assert_eq!(frame.ip, 0);
    frame.jmp(&code, 2);
    assert_eq!(frame.pop_instruction(&code), Some(code[2]));
    assert_eq!(frame.pop_instruction(&code), None);
    assert_eq!(frame.ip, 3);
    assert_eq!(frame.constants, vec![10, 20]);
}

#[test]
fn call_frame_loads_relative_to_its_base() {
    let frame: CallFrame<&str, u64> = CallFrame::new("f", 2, vec![]);
    let stack = [7u64, 8, 9, 10];
    assert_eq!(frame.load_val(0, &stack), Some(9));
    assert_eq!(frame.load_val(1, &stack), Some(10));
    assert_eq!(frame.load_val(2, &stack), None);
}

#[test]
fn chunk_builder_keeps_order() {
    let mut b: ChunkBuilder<&str> = ChunkBuilder::new();
    assert_eq!(b.add_constant("a"), 0);
    b.emit(codegen::Instruction::new(codegen::InstructionKind::Constant));
    assert_eq!(b.add_constant("b"), 1);
    b.emit(codegen::Instruction::new(codegen::InstructionKind::Return));
    let chunk = b.chunk();
    assert_eq!(chunk.constants, vec!["a", "b"]);
    assert_eq!(chunk.instructions.len(), 2);
    assert_eq!(chunk.instructions[1], codegen::Instruction::new(codegen::InstructionKind::Return));
}

#[test]
fn ast_nodes_box_their_operands() {
    let u = Unary::new(UnaryOp::Not, Expression::Lit(Literal::Bool(true)));
    assert!(matches!(u.op, UnaryOp::Not));
    assert!(matches!(*u.operand, Expression::Lit(Literal::Bool(true))));
    let b = Binary::new(Expression::Nil, BinOp::Plus, Expression::Unary(u));
    assert!(matches!(*b.lhs, Expression::Nil));
    assert!(matches!(b.op, BinOp::Plus));
    assert!(matches!(*b.rhs, Expression::Unary(_)));
}

#[test]
fn heap_headers_carry_generations() {
    let mut heap: Heap<u32> = Heap::new(HeapConfig { initial_size: 2, gc_growth_factor: 2 });
    let a = heap.allocate(5).unwrap();
    let header = heap.header(a);
    assert_eq!(header.generation(), a.generation());
    assert!(!header.is_marked());
}
