use lox::assembler::func_state::{FuncStack, VariableLocation};
use lox::assembler::{FuncState, Instruction, InstructionKind, Symbol, UpValueDescriptor};

fn op(kind: InstructionKind, operand: u8) -> Instruction {
    Instruction { kind, operand }
}

#[test]
fn globals_locals_and_scopes() {
    let mut f: FuncState<u32> = FuncState::new(Symbol(0), 0, None);
    assert!(f.at_global_depth());
    f.constant(11);
    f.define_var(Symbol(5));
    f.begin_scope();
    f.constant(12);
    f.define_var(Symbol(6));
    f.load_var(Symbol(6));
    f.load_var(Symbol(5));
    f.set_variable(Symbol(6));
    f.end_scope();
    f.ret();
    let func = f.assemble();
    assert_eq!(func.constants, vec![11, 12]);
    assert_eq!(
        func.instructions,
        vec![
            op(InstructionKind::Constant, 0),
            op(InstructionKind::AddGlobal, 5),
            op(InstructionKind::Constant, 1),
            op(InstructionKind::LoadLocal, 0),
            op(InstructionKind::LoadGlobal, 5),
            op(InstructionKind::SetLocal, 0),
            op(InstructionKind::LoadLocal, 0),
            op(InstructionKind::Pop, 0),
            op(InstructionKind::Return, 0),
        ]
    );
}

#[test]
fn loops_and_breaks() {
    let mut f: FuncState<u32> = FuncState::new(Symbol(0), 0, None);
    f.loop_break();
    let start = f.create_label("while start");
    let end = f.create_label("after while");
    f.begin_loop(end);
    f.bind_label(start);
    f.constant(1);
    f.jmp_if_false(end);
    f.loop_break();
    f.jmp(start);
    f.bind_label(end);
    f.end_loop();
    f.ret();
    let func = f.assemble();
    assert_eq!(
        func.instructions,
        vec![
            op(InstructionKind::Constant, 0),
            op(InstructionKind::JumpIfFalse, 4),
            op(InstructionKind::Jmp, 4),
            op(InstructionKind::Jmp, 0),
            op(InstructionKind::Return, 0),
        ]
    );
}

#[test]
fn closures_capture_enclosing_locals() {
    let mut stack: FuncStack<u32> = FuncStack::new(FuncState::new(Symbol(0), 0, None));
    stack.head_mut().begin_scope();
    stack.head_mut().constant(1);
    stack.head_mut().define_var(Symbol(7));
    stack.push(Symbol(1), 0);
    stack.push(Symbol(2), 0);
    // the innermost function reads and writes a local of the outermost one
    stack.head_mut().load_var(Symbol(7));
    stack.head_mut().set_variable(Symbol(7));
    stack.head_mut().ret();
    let inner = stack.pop().unwrap();
    assert_eq!(inner.upvalues, vec![(Symbol(7), UpValueDescriptor::Recursive { parent_upvalue_pos: 0 })]);
    assert_eq!(
        inner.instructions,
        vec![
            op(InstructionKind::LoadUpValue, 0),
            op(InstructionKind::SetUpValue, 0),
            op(InstructionKind::LoadUpValue, 0),
            op(InstructionKind::Return, 0),
        ]
    );
    stack.head_mut().ret();
    let middle = stack.pop().unwrap();
    assert_eq!(middle.upvalues, vec![(Symbol(7), UpValueDescriptor::Local { parent_stack_pos: 0 })]);
    assert!(stack.pop().is_none());
    stack.head_mut().end_scope();
    stack.head_mut().ret();
    let main = stack.pop_last().unwrap();
    assert_eq!(
        main.instructions,
        vec![op(InstructionKind::Constant, 0), op(InstructionKind::Pop, 0), op(InstructionKind::Return, 0)]
    );
}

#[test]
fn ending_a_scope_pops_captured_locals_as_upvalues() {
    let mut stack: FuncStack<u32> = FuncStack::new(FuncState::new(Symbol(0), 0, None));
    stack.push(Symbol(1), 0);
    stack.head_mut().begin_scope();
    stack.head_mut().constant(3);
    stack.head_mut().define_var(Symbol(9));
    stack.push(Symbol(2), 0);
    stack.head_mut().load_var(Symbol(9));
    stack.head_mut().ret();
    let inner = stack.pop().unwrap();
    assert_eq!(inner.upvalues, vec![(Symbol(9), UpValueDescriptor::Local { parent_stack_pos: 0 })]);
    stack.head_mut().end_scope();
    stack.head_mut().ret();
    let f = stack.pop().unwrap();
    assert_eq!(f.instructions.last(), Some(&op(InstructionKind::Return, 0)));
    assert_eq!(f.instructions[1], op(InstructionKind::Pop, 0));
    assert!(stack.pop_last().is_some());
}

#[test]
fn class_and_method_instructions() {
    let mut f: FuncState<u32> = FuncState::new(Symbol(0), 0, None);
    f.make_class(Symbol(3));
    f.add_method(40);
    f.inherit();
    f.get_class_attr(Symbol(4));
    f.set_class_attr(Symbol(5));
    f.begin_scope();
    f.bind_this(Symbol(8));
    f.load_super_method(Symbol(8), Symbol(6), Symbol(2));
    f.callq(2);
    f.pop();
    f.add_closure_to_scope(41, Symbol(10));
    f.end_scope();
    f.emit_nullary(InstructionKind::Return);
    let func = f.assemble();
    assert_eq!(func.constants, vec![40, 41]);
    assert_eq!(
        func.instructions,
        vec![
            op(InstructionKind::MakeClass, 3),
            op(InstructionKind::Constant, 0),
            op(InstructionKind::AddMethod, 0),
            op(InstructionKind::Inherit, 0),
            op(InstructionKind::LoadClassAttribute, 4),
            op(InstructionKind::SetClassAttribute, 5),
            op(InstructionKind::PushThis, 0),
            op(InstructionKind::LoadLocal, 0),
            op(InstructionKind::LoadGlobal, 6),
            op(InstructionKind::LoadSuperMethod, 2),
            op(InstructionKind::Callq, 2),
            op(InstructionKind::Pop, 0),
            op(InstructionKind::MakeClosure, 1),
            op(InstructionKind::Pop, 0),
            op(InstructionKind::Pop, 0),
            op(InstructionKind::Return, 0),
        ]
    );
    let _ = VariableLocation::Global(Symbol(0));
}
