use vstd::prelude::*;

use super::instruction::{Instruction, InstructionKind, OperandType};
use super::symbolic_instruction::{spec_parse, Label, SymbolicInstruction, SymbolicOp, SymbolicProgram};

verus! {

/// An interned name: a global, a local, a class attribute.
#[derive(Clone, Copy, Debug, PartialEq, Eq, Hash, Structural)]
pub struct Symbol(pub usize);

impl Symbol {
    /// The index of the name.
    pub fn into_usize(self) -> (r: usize)
        ensures
            r == self.0,
    {
        self.0
    }
}

/// Where a closure finds a variable it captures: on the stack of the
/// enclosing function, or among the enclosing function's own captures.
#[derive(Clone, Copy, Debug, PartialEq, Eq, Structural)]
pub enum UpValueDescriptor {
    Local { parent_stack_pos: usize },
    Recursive { parent_upvalue_pos: usize },
}

/// A local variable. Its index in the list of locals is its position on
/// the stack, relative to the base of the function's frame.
#[derive(Clone, Copy, Debug, PartialEq, Eq, Structural)]
pub struct Local {
    pub scope_depth: usize,
    pub symbol: Symbol,
}

/// Where a name is found at run time.
#[derive(Clone, Copy, Debug, PartialEq, Eq, Structural)]
pub enum VariableLocation {
    Global(Symbol),
    Local(usize),
    UpValue(usize),
}

/// A compiled function: its constants, its captures and its code.
pub struct Function<C> {
    pub name: Symbol,
    pub arity: usize,
    pub constants: Vec<C>,
    pub upvalues: Vec<(Symbol, UpValueDescriptor)>,
    pub instructions: Vec<Instruction>,
}

impl<C> Function<C> {
    /// A function with no constants, captures or code yet.
    pub fn new(name: Symbol, arity: usize) -> (r: Self)
        ensures
            r.name == name,
            r.arity == arity,
            r.constants@ == Seq::<C>::empty(),
            r.upvalues@ == Seq::<(Symbol, UpValueDescriptor)>::empty(),
            r.instructions@ == Seq::<Instruction>::empty(),
    {
        Function {
            name,
            arity,
            constants: Vec::new(),
            upvalues: Vec::new(),
            instructions: Vec::new(),
        }
    }
}

/// What the compiler knows of one function being compiled.
pub ghost struct Frame<C> {
    pub name: Symbol,
    pub arity: usize,
    pub constants: Seq<C>,
    pub entries: Seq<SymbolicInstruction>,
    pub next_label: usize,
    pub locals: Seq<Local>,
    pub upvalues: Seq<(Symbol, UpValueDescriptor)>,
    pub scope_depth: usize,
    pub loops: Seq<Label>,
}

/// The index of the last local named `sym`.
pub open spec fn last_local(locals: Seq<Local>, sym: Symbol) -> Option<nat>
    decreases locals.len(),
{
    if locals.len() == 0 {
        None
    } else if locals.last().symbol == sym {
        Some((locals.len() - 1) as nat)
    } else {
        last_local(locals.drop_last(), sym)
    }
}

/// Looking a name up among the locals finds the innermost declaration: the
/// local found has the name and no local declared after it does; when none
/// is found, no local has the name.
pub proof fn lemma_last_local_is_innermost(locals: Seq<Local>, sym: Symbol)
    ensures
        match last_local(locals, sym) {
            Some(i) => {
                &&& i < locals.len()
                &&& locals[i as int].symbol == sym
                &&& forall|j: int| i < j < locals.len() ==> #[trigger] locals[j].symbol != sym
            },
            None => forall|j: int| 0 <= j < locals.len() ==> #[trigger] locals[j].symbol != sym,
        },
    decreases locals.len(),
{
    if locals.len() > 0 && locals.last().symbol != sym {
        let rest = locals.drop_last();
        lemma_last_local_is_innermost(rest, sym);
        assert(last_local(locals, sym) == last_local(rest, sym));
        match last_local(rest, sym) {
            Some(i) => {
                assert(locals[i as int] == rest[i as int]);
                assert forall|j: int| i < j < locals.len() implies #[trigger] locals[j].symbol != sym by {
                    if j < rest.len() {
                        assert(locals[j] == rest[j]);
                    }
                }
            },
            None => {
                assert forall|j: int| 0 <= j < locals.len() implies #[trigger] locals[j].symbol != sym by {
                    if j < rest.len() {
                        assert(locals[j] == rest[j]);
                    }
                }
            },
        }
    }
}

/// The index of the last capture named `sym`.
pub open spec fn last_upvalue(upvalues: Seq<(Symbol, UpValueDescriptor)>, sym: Symbol) -> Option<
    nat,
>
    decreases upvalues.len(),
{
    if upvalues.len() == 0 {
        None
    } else if upvalues.last().0 == sym {
        Some((upvalues.len() - 1) as nat)
    } else {
        last_upvalue(upvalues.drop_last(), sym)
    }
}

/// The index of the first capture named `sym`.
pub open spec fn first_upvalue(upvalues: Seq<(Symbol, UpValueDescriptor)>, sym: Symbol) -> Option<
    nat,
>
    decreases upvalues.len(),
{
    if upvalues.len() == 0 {
        None
    } else if upvalues[0].0 == sym {
        Some(0)
    } else {
        match first_upvalue(upvalues.drop_first(), sym) {
            Some(i) => Some(i + 1),
            None => None,
        }
    }
}

/// Looking a name up among the captures from the end finds its last
/// capture: the capture found has the name and none after it does; when
/// none is found, no capture has the name.
pub proof fn lemma_last_upvalue_is_last(upvalues: Seq<(Symbol, UpValueDescriptor)>, sym: Symbol)
    ensures
        match last_upvalue(upvalues, sym) {
            Some(i) => {
                &&& i < upvalues.len()
                &&& upvalues[i as int].0 == sym
                &&& forall|j: int| i < j < upvalues.len() ==> #[trigger] upvalues[j].0 != sym
            },
            None => forall|j: int| 0 <= j < upvalues.len() ==> #[trigger] upvalues[j].0 != sym,
        },
    decreases upvalues.len(),
{
    if upvalues.len() > 0 && upvalues.last().0 != sym {
        let rest = upvalues.drop_last();
        lemma_last_upvalue_is_last(rest, sym);
        match last_upvalue(rest, sym) {
            Some(i) => {
                assert(upvalues[i as int] == rest[i as int]);
                assert forall|j: int| i < j < upvalues.len() implies #[trigger] upvalues[j].0 != sym by {
                    if j < rest.len() {
                        assert(upvalues[j] == rest[j]);
                    }
                }
            },
            None => {
                assert forall|j: int| 0 <= j < upvalues.len() implies #[trigger] upvalues[j].0 != sym by {
                    if j < rest.len() {
                        assert(upvalues[j] == rest[j]);
                    }
                }
            },
        }
    }
}

/// Looking a name up among the captures from the start finds its first
/// capture: the capture found has the name and none before it does; when
/// none is found, no capture has the name.
pub proof fn lemma_first_upvalue_is_first(upvalues: Seq<(Symbol, UpValueDescriptor)>, sym: Symbol)
    ensures
        match first_upvalue(upvalues, sym) {
            Some(i) => {
                &&& i < upvalues.len()
                &&& upvalues[i as int].0 == sym
                &&& forall|j: int| 0 <= j < i ==> #[trigger] upvalues[j].0 != sym
            },
            None => forall|j: int| 0 <= j < upvalues.len() ==> #[trigger] upvalues[j].0 != sym,
        },
    decreases upvalues.len(),
{
    if upvalues.len() > 0 && upvalues[0].0 != sym {
        let rest = upvalues.drop_first();
        lemma_first_upvalue_is_first(rest, sym);
        match first_upvalue(rest, sym) {
            Some(i) => {
                assert(upvalues[i as int + 1] == rest[i as int]);
                assert forall|j: int| 0 <= j < i + 1 implies #[trigger] upvalues[j].0 != sym by {
                    if j > 0 {
                        assert(upvalues[j] == rest[j - 1]);
                    }
                }
            },
            None => {
                assert forall|j: int| 0 <= j < upvalues.len() implies #[trigger] upvalues[j].0 != sym by {
                    if j > 0 {
                        assert(upvalues[j] == rest[j - 1]);
                    }
                }
            },
        }
    }
}

/// Registering the capture `(sym, desc)`: the index of the last capture
/// of that name when there is one, else a new capture at the end.
pub open spec fn add_upvalue_effect(
    upvalues: Seq<(Symbol, UpValueDescriptor)>,
    sym: Symbol,
    desc: UpValueDescriptor,
) -> (nat, Seq<(Symbol, UpValueDescriptor)>) {
    match last_upvalue(upvalues, sym) {
        Some(i) => (i, upvalues),
        None => (upvalues.len(), upvalues.push((sym, desc))),
    }
}

/// Finding `sym` for a closure whose enclosing functions are `chain`
/// (innermost first): a local of the innermost function where it has one,
/// else a capture of the innermost function, registered on the way down
/// in every function between the closure and the one where `sym` is a
/// local. Returns what is found and the functions afterwards.
pub open spec fn resolve_upvalue_effect<C>(chain: Seq<Frame<C>>, sym: Symbol) -> (
    Option<UpValueDescriptor>,
    Seq<Frame<C>>,
)
    decreases chain.len(),
{
    if chain.len() == 0 {
        (None, chain)
    } else {
        match last_local(chain[0].locals, sym) {
            Some(i) => (Some(UpValueDescriptor::Local { parent_stack_pos: i as usize }), chain),
            None => {
                let (found, rest) = resolve_upvalue_effect(chain.drop_first(), sym);
                match found {
                    None => (None, seq![chain[0]] + rest),
                    Some(desc) => {
                        let (idx, ups) = add_upvalue_effect(chain[0].upvalues, sym, desc);
                        (
                            Some(UpValueDescriptor::Recursive { parent_upvalue_pos: idx as usize }),
                            seq![Frame { upvalues: ups, ..chain[0] }] + rest,
                        )
                    },
                }
            },
        }
    }
}

/// Where `sym` is found from the innermost function of `chain`, and the
/// functions afterwards.
pub open spec fn locate_effect<C>(chain: Seq<Frame<C>>, sym: Symbol) -> (
    VariableLocation,
    Seq<Frame<C>>,
) {
    let (found, after) = resolve_upvalue_effect(chain, sym);
    match found {
        Some(UpValueDescriptor::Local { parent_stack_pos }) => (
            VariableLocation::Local(parent_stack_pos),
            after,
        ),
        Some(UpValueDescriptor::Recursive { parent_upvalue_pos }) => (
            VariableLocation::UpValue(parent_upvalue_pos),
            after,
        ),
        None => (VariableLocation::Global(sym), after),
    }
}

/// The operand that addresses a location.
pub open spec fn location_operand(loc: VariableLocation) -> int {
    match loc {
        VariableLocation::Global(s) => s.0 as int,
        VariableLocation::Local(i) => i as int,
        VariableLocation::UpValue(i) => i as int,
    }
}

/// A symbolic instruction with an immediate operand.
pub open spec fn imm(kind: InstructionKind, operand: int) -> SymbolicInstruction {
    SymbolicInstruction::Instruction(kind, SymbolicOp::Imm(operand as u8))
}

/// Leaving a scope of depth `depth`: for each local of that depth, from
/// the last one down, the instruction that pops it (`PopUpValue` when a
/// capture has its name, and that capture is dropped), until a local of
/// another depth is reached. Returns the remaining locals and captures and
/// the instructions.
pub open spec fn end_scope_effect(
    locals: Seq<Local>,
    upvalues: Seq<(Symbol, UpValueDescriptor)>,
    depth: usize,
) -> (Seq<Local>, Seq<(Symbol, UpValueDescriptor)>, Seq<SymbolicInstruction>)
    decreases locals.len(),
{
    if locals.len() == 0 || locals.last().scope_depth != depth {
        (locals, upvalues, Seq::empty())
    } else {
        let (kind, ups) = match first_upvalue(upvalues, locals.last().symbol) {
            Some(i) => (InstructionKind::PopUpValue, upvalues.remove(i as int)),
            None => (InstructionKind::Pop, upvalues),
        };
        let (ls, us, es) = end_scope_effect(locals.drop_last(), ups, depth);
        (ls, us, seq![imm(kind, 0)] + es)
    }
}

/// The instruction that pushes the value at a location.
pub open spec fn load_kind(loc: VariableLocation) -> InstructionKind {
    match loc {
        VariableLocation::Global(_) => InstructionKind::LoadGlobal,
        VariableLocation::Local(_) => InstructionKind::LoadLocal,
        VariableLocation::UpValue(_) => InstructionKind::LoadUpValue,
    }
}

/// The instruction that stores into a location.
pub open spec fn set_kind(loc: VariableLocation) -> InstructionKind {
    match loc {
        VariableLocation::Global(_) => InstructionKind::SetGlobal,
        VariableLocation::Local(_) => InstructionKind::SetLocal,
        VariableLocation::UpValue(_) => InstructionKind::SetUpValue,
    }
}

/// Resolving a name changes the captures of the functions only: their
/// number, and everything else of each, stays.
proof fn lemma_resolve_keeps_entries<C>(chain: Seq<Frame<C>>, sym: Symbol)
    ensures
        resolve_upvalue_effect(chain, sym).1.len() == chain.len(),
        forall|i: int|
            0 <= i < chain.len() ==> (#[trigger] resolve_upvalue_effect(chain, sym).1[i]) == (Frame {
                upvalues: resolve_upvalue_effect(chain, sym).1[i].upvalues,
                ..chain[i]
            }),
    decreases chain.len(),
{
    if chain.len() > 0 {
        lemma_resolve_keeps_entries(chain.drop_first(), sym);
        let (found, rest) = resolve_upvalue_effect(chain.drop_first(), sym);
        let after = resolve_upvalue_effect(chain, sym).1;
        assert forall|i: int| 0 <= i < chain.len() implies (#[trigger] after[i]) == (Frame {
            upvalues: after[i].upvalues,
            ..chain[i]
        }) by {
            if i > 0 {
                if last_local(chain[0].locals, sym) is None {
                    assert(after[i] == rest[i - 1]);
                    assert(chain.drop_first()[i - 1] == chain[i]);
                }
            }
        }
    }
}

/// Resolving a name looks at the locals and captures only: chains that
/// differ in their programs alone resolve alike.
proof fn lemma_resolve_ignores_entries<C>(a: Seq<Frame<C>>, b: Seq<Frame<C>>, sym: Symbol)
    requires
        a.len() == b.len(),
        forall|i: int| 0 <= i < a.len() ==> a[i] == (Frame { entries: a[i].entries, ..b[i] }),
    ensures
        resolve_upvalue_effect(a, sym).0 == resolve_upvalue_effect(b, sym).0,
        resolve_upvalue_effect(a, sym).1.len() == a.len(),
        forall|i: int|
            0 <= i < a.len() ==> resolve_upvalue_effect(a, sym).1[i] == (Frame {
                entries: a[i].entries,
                ..resolve_upvalue_effect(b, sym).1[i]
            }),
    decreases a.len(),
{
    lemma_resolve_keeps_entries(a, sym);
    lemma_resolve_keeps_entries(b, sym);
    if a.len() > 0 {
        assert(a[0] == (Frame { entries: a[0].entries, ..b[0] }));
        lemma_resolve_ignores_entries(a.drop_first(), b.drop_first(), sym);
        let ra = resolve_upvalue_effect(a, sym).1;
        let rb = resolve_upvalue_effect(b, sym).1;
        assert forall|i: int| 0 <= i < a.len() implies ra[i] == (Frame { entries: a[i].entries, ..rb[i] }) by {
            if i > 0 && last_local(a[0].locals, sym) is None {
                assert(a.drop_first()[i - 1] == a[i]);
            }
        }
    }
}

proof fn lemma_locate_keeps_entries<C>(chain: Seq<Frame<C>>, sym: Symbol)
    requires
        chain.len() > 0,
    ensures
        locate_effect(chain, sym).1.len() == chain.len(),
        locate_effect(chain, sym).1[0] == (Frame { upvalues: locate_effect(chain, sym).1[0].upvalues, ..chain[0] }),
{
    lemma_resolve_keeps_entries(chain, sym);
}

/// A local of the innermost function hides every other variable of that
/// name: it is found, and nothing is registered.
pub proof fn lemma_locals_shadow<C>(chain: Seq<Frame<C>>, sym: Symbol, i: nat)
    requires
        chain.len() > 0,
        last_local(chain[0].locals, sym) == Some(i),
    ensures
        locate_effect(chain, sym) == (VariableLocation::Local(i as usize), chain),
{
}

/// A name that the current function has among its locals is found there,
/// at its innermost declaration: the slot found holds the name, and no
/// local declared after it does; looking it up changes nothing.
pub proof fn lemma_local_lookup_is_innermost<C>(chain: Seq<Frame<C>>, sym: Symbol, k: int)
    requires
        chain.len() > 0,
        0 <= k < chain[0].locals.len(),
        chain[0].locals.len() <= usize::MAX,
        chain[0].locals[k].symbol == sym,
    ensures
        locate_effect(chain, sym).1 == chain,
        locate_effect(chain, sym).0 matches VariableLocation::Local(i) && {
            &&& i < chain[0].locals.len()
            &&& chain[0].locals[i as int].symbol == sym
            &&& k <= i
            &&& forall|j: int| i < j < chain[0].locals.len() ==> #[trigger] chain[0].locals[j].symbol != sym
        },
{
    lemma_last_local_is_innermost(chain[0].locals, sym);
    let i = last_local(chain[0].locals, sym).unwrap();
    lemma_locals_shadow(chain, sym, i);
    assert(k <= i) by {
        if k > i {
            assert(chain[0].locals[k].symbol != sym);
        }
    }
    assert((i as usize) as nat == i);
}

/// A name that no enclosing function has as a local is a global, and
/// looking it up changes nothing.
pub proof fn lemma_unknown_names_are_global<C>(chain: Seq<Frame<C>>, sym: Symbol)
    requires
        forall|j: int| 0 <= j < chain.len() ==> last_local(#[trigger] chain[j].locals, sym) is None,
    ensures
        locate_effect(chain, sym) == (VariableLocation::Global(sym), chain),
        resolve_upvalue_effect(chain, sym) == (None::<UpValueDescriptor>, chain),
    decreases chain.len(),
{
    if chain.len() > 0 {
        assert forall|j: int| 0 <= j < chain.drop_first().len() implies last_local(
            #[trigger] chain.drop_first()[j].locals,
            sym,
        ) is None by {
            assert(chain.drop_first()[j] == chain[j + 1]);
        }
        lemma_unknown_names_are_global(chain.drop_first(), sym);
        assert(chain[0] == chain[0]);
        assert(seq![chain[0]] + chain.drop_first() =~= chain);
    }
}

proof fn lemma_last_upvalue_push(ups: Seq<(Symbol, UpValueDescriptor)>, sym: Symbol, d: UpValueDescriptor)
    ensures
        last_upvalue(ups.push((sym, d)), sym) == Some(ups.len()),
{
    assert(ups.push((sym, d)).drop_last() =~= ups);
}

/// Looking a name up a second time finds the same place and registers
/// nothing more: captures are registered once.
pub proof fn lemma_resolve_idempotent<C>(chain: Seq<Frame<C>>, sym: Symbol)
    ensures
        resolve_upvalue_effect(resolve_upvalue_effect(chain, sym).1, sym) == resolve_upvalue_effect(
            chain,
            sym,
        ),
        locate_effect(locate_effect(chain, sym).1, sym) == locate_effect(chain, sym),
    decreases chain.len(),
{
    if chain.len() > 0 {
        lemma_resolve_keeps_entries(chain, sym);
        let (found, after) = resolve_upvalue_effect(chain, sym);
        match last_local(chain[0].locals, sym) {
            Some(i) => {},
            None => {
                lemma_resolve_idempotent(chain.drop_first(), sym);
                let (f1, rest) = resolve_upvalue_effect(chain.drop_first(), sym);
                assert(after.drop_first() =~= rest);
                assert(after[0].locals == chain[0].locals);
                match f1 {
                    None => {},
                    Some(d) => {
                        let (idx, ups) = add_upvalue_effect(chain[0].upvalues, sym, d);
                        if last_upvalue(chain[0].upvalues, sym) is None {
                            lemma_last_upvalue_push(chain[0].upvalues, sym, d);
                        }
                        assert(last_upvalue(ups, sym) == Some(idx));
                        assert(add_upvalue_effect(ups, sym, d) == (idx, ups));
                        assert(seq![after[0]] + rest =~= after);
                    },
                }
            },
        }
    }
}

/// Closing a scope pops exactly the trailing locals of that depth, one
/// instruction for each, and keeps the locals before them.
pub proof fn lemma_end_scope_pops_innermost(
    locals: Seq<Local>,
    upvalues: Seq<(Symbol, UpValueDescriptor)>,
    depth: usize,
)
    ensures
        ({
            let (ls, us, es) = end_scope_effect(locals, upvalues, depth);
            &&& ls == locals.take(ls.len() as int)
            &&& ls.len() <= locals.len()
            &&& forall|i: int| ls.len() <= i < locals.len() ==> (#[trigger] locals[i]).scope_depth == depth
            &&& ls.len() == 0 || ls.last().scope_depth != depth
            &&& es.len() == locals.len() - ls.len()
            &&& forall|j: int| 0 <= j < es.len() ==> (#[trigger] es[j] == imm(InstructionKind::Pop, 0) || es[j] == imm(InstructionKind::PopUpValue, 0))
        }),
    decreases locals.len(),
{
    if locals.len() > 0 && locals.last().scope_depth == depth {
        let ups = match first_upvalue(upvalues, locals.last().symbol) {
            Some(i) => upvalues.remove(i as int),
            None => upvalues,
        };
        lemma_end_scope_pops_innermost(locals.drop_last(), ups, depth);
        let (ls, us, es) = end_scope_effect(locals.drop_last(), ups, depth);
        assert(locals.drop_last().take(ls.len() as int) =~= locals.take(ls.len() as int));
        assert forall|i: int| ls.len() <= i < locals.len() implies (#[trigger] locals[i]).scope_depth == depth by {
            if i < locals.len() - 1 {
                assert(locals.drop_last()[i] == locals[i]);
            }
        }
    } else {
        assert(locals.take(locals.len() as int) =~= locals);
    }
}

/// The state of one function being compiled, and of the functions it is
/// nested in.
pub struct FuncState<C> {
    staging: Function<C>,
    instructions: SymbolicProgram,
    locals: Vec<Local>,
    upvalues: Vec<(Symbol, UpValueDescriptor)>,
    scope_depth: usize,
    // active_loops.last() is the end label of the innermost loop
    active_loops: Vec<Label>,
    parent: Option<Box<Self>>,
}

impl<C> FuncState<C> {
    /// The function being compiled.
    pub closed spec fn frame(&self) -> Frame<C> {
        Frame {
            name: self.staging.name,
            arity: self.staging.arity,
            constants: self.staging.constants@,
            entries: self.instructions.entries(),
            next_label: self.instructions.spec_next_label(),
            locals: self.locals@,
            upvalues: self.upvalues@,
            scope_depth: self.scope_depth,
            loops: self.active_loops@,
        }
    }

    /// The function being compiled, then the ones it is nested in, from the
    /// innermost out.
    pub closed spec fn chain(&self) -> Seq<Frame<C>>
        decreases self,
    {
        seq![self.frame()] + match self.parent {
            Some(p) => p.chain(),
            None => Seq::empty(),
        }
    }

    /// The functions this one is nested in, from the innermost out.
    pub open spec fn parents(&self) -> Seq<Frame<C>> {
        self.chain().drop_first()
    }

    /// `self` is `before` with the entries `es` appended to its program.
    pub open spec fn appended(&self, before: &Self, es: Seq<SymbolicInstruction>) -> bool {
        &&& self.frame() == (Frame { entries: before.frame().entries + es, ..before.frame() })
        &&& self.parents() == before.parents()
    }

    proof fn lemma_chain(&self)
        ensures
            self.chain().len() >= 1,
            self.chain()[0] == self.frame(),
            self.parents() == match self.parent {
                Some(p) => p.chain(),
                None => Seq::empty(),
            },
    {
        let tail = match self.parent {
            Some(p) => p.chain(),
            None => Seq::<Frame<C>>::empty(),
        };
        assert((seq![self.frame()] + tail).drop_first() =~= tail);
    }

    /// A function with no code yet, nested in `parent`.
    pub fn new(name: Symbol, arity: usize, parent: Option<Box<Self>>) -> (r: Self)
        ensures
            r.frame() == (Frame::<C> {
                name,
                arity,
                constants: Seq::empty(),
                entries: Seq::empty(),
                next_label: 0,
                locals: Seq::empty(),
                upvalues: Seq::empty(),
                scope_depth: 0,
                loops: Seq::empty(),
            }),
            r.parents() == match parent {
                Some(p) => p.chain(),
                None => Seq::empty(),
            },
    {
        let r = Self {
            staging: Function::new(name, arity),
            instructions: SymbolicProgram::new(),
            locals: Vec::new(),
            upvalues: Vec::new(),
            active_loops: Vec::new(),
            scope_depth: 0,
            parent,
        };
        proof { r.lemma_chain(); }
        r
    }

    fn emit_symbolic(&mut self, instruction: SymbolicInstruction)
        ensures
            final(self).appended(old(self), seq![instruction]),
    {
        proof { self.lemma_chain(); }
        self.instructions.add_instruction(instruction);
        proof {
            self.lemma_chain();
            assert(self.frame().entries =~= old(self).frame().entries + seq![instruction]);
        }
    }

    fn emit(&mut self, instruction: Instruction)
        ensures
            final(self).appended(
                old(self),
                seq![SymbolicInstruction::Instruction(instruction.kind, SymbolicOp::Imm(instruction.operand))],
            ),
    {
        self.emit_symbolic(SymbolicInstruction::from_instruction(instruction));
    }

    /// Emits an instruction whose operand is zero.
    pub fn emit_nullary(&mut self, instruction_kind: InstructionKind)
        ensures
            final(self).appended(old(self), seq![imm(instruction_kind, 0)]),
    {
        self.emit(Instruction { kind: instruction_kind, operand: 0 })
    }

    fn emit_unary_usize(&mut self, instruction_kind: InstructionKind, operand: usize)
        requires
            operand <= OperandType::MAX,
        ensures
            final(self).appended(old(self), seq![imm(instruction_kind, operand as int)]),
    {
        let op = operand as u8;
        self.emit(Instruction { kind: instruction_kind, operand: op })
    }

    /// Stack before: `[...]`; after: `[..., Class]`.
    pub fn make_class(&mut self, name: Symbol)
        requires
            name.0 <= OperandType::MAX,
        ensures
            final(self).appended(old(self), seq![imm(InstructionKind::MakeClass, name.0 as int)]),
    {
        self.emit_unary_usize(InstructionKind::MakeClass, name.into_usize());
    }

    /// Stack before: `[..., Superclass, Subclass]`; after: `[..., Superclass]`.
    pub fn inherit(&mut self)
        ensures
            final(self).appended(old(self), seq![imm(InstructionKind::Inherit, 0)]),
    {
        self.emit_nullary(InstructionKind::Inherit);
    }

    /// Stack before: `[..., Class]`; after: `[..., Class]`. Adds `method`
    /// as a constant and emits the loading of it and `AddMethod`.
    pub fn add_method(&mut self, method: C)
        requires
            old(self).frame().constants.len() <= OperandType::MAX,
        ensures
            final(self).frame() == (Frame {
                constants: old(self).frame().constants.push(method),
                entries: old(self).frame().entries + seq![
                    imm(InstructionKind::Constant, old(self).frame().constants.len() as int),
                    imm(InstructionKind::AddMethod, 0),
                ],
                ..old(self).frame()
            }),
            final(self).parents() == old(self).parents(),
    {
        self.constant(method);
        self.emit_nullary(InstructionKind::AddMethod);
        assert(self.frame().entries =~= old(self).frame().entries + seq![
            imm(InstructionKind::Constant, old(self).frame().constants.len() as int),
            imm(InstructionKind::AddMethod, 0),
        ]);
    }

    /// A new label; its name only helps a reader. It still has to be bound.
    pub fn create_label(&mut self, label_name: &'static str) -> (r: Label)
        requires
            old(self).frame().next_label < usize::MAX,
        ensures
            r.spec_id() == old(self).frame().next_label,
            r.spec_name() == label_name,
            final(self).frame() == (Frame { next_label: (old(self).frame().next_label + 1) as usize, ..old(self).frame() }),
            final(self).parents() == old(self).parents(),
    {
        proof { self.lemma_chain(); }
        let r = self.instructions.create_label(label_name);
        proof { self.lemma_chain(); }
        r
    }

    /// Binds `label` to the position of the next instruction.
    pub fn bind_label(&mut self, label: Label)
        ensures
            final(self).appended(old(self), seq![SymbolicInstruction::Label(label)]),
    {
        self.emit_symbolic(SymbolicInstruction::Label(label));
    }

    /// Adds `func` as a constant, emits the making of a closure of it, and
    /// defines the variable `called` as that closure.
    pub fn add_closure_to_scope(&mut self, func: C, called: Symbol)
        requires
            old(self).frame().constants.len() <= OperandType::MAX,
            old(self).frame().scope_depth == 0 ==> called.0 <= OperandType::MAX,
        ensures
            final(self).parents() == old(self).parents(),
            final(self).frame() == (Frame {
                constants: old(self).frame().constants.push(func),
                entries: old(self).frame().entries + seq![
                    imm(InstructionKind::MakeClosure, old(self).frame().constants.len() as int),
                ] + if old(self).frame().scope_depth == 0 {
                    seq![imm(InstructionKind::AddGlobal, called.0 as int)]
                } else {
                    Seq::empty()
                },
                locals: if old(self).frame().scope_depth == 0 {
                    old(self).frame().locals
                } else {
                    old(self).frame().locals.push(Local { scope_depth: old(self).frame().scope_depth, symbol: called })
                },
                ..old(self).frame()
            }),
    {
        let index = self.add_constant(func);
        self.emit_unary_usize(InstructionKind::MakeClosure, index);
        self.define_var(called);
        assert(final(self).frame().entries =~= old(self).frame().entries + seq![
            imm(InstructionKind::MakeClosure, old(self).frame().constants.len() as int),
        ] + if old(self).frame().scope_depth == 0 {
            seq![imm(InstructionKind::AddGlobal, called.0 as int)]
        } else {
            Seq::empty()
        });
    }

    /// Adds a constant and returns its index.
    pub fn add_constant(&mut self, constant: C) -> (r: usize)
        ensures
            r == old(self).frame().constants.len(),
            final(self).frame() == (Frame { constants: old(self).frame().constants.push(constant), ..old(self).frame() }),
            final(self).parents() == old(self).parents(),
    {
        proof { self.lemma_chain(); }
        let index = self.staging.constants.len();
        self.staging.constants.push(constant);
        proof { self.lemma_chain(); }
        index
    }

    // PUSH of the compile stack replaces its head with a fresh FuncState
    // and set_parent's the previous head; POP orphans the head and puts the
    // previous head back.
    fn try_pop(&mut self) -> (r: Option<Box<Self>>)
        ensures
            r == old(self).parent,
            final(self).parent is None,
            final(self).frame() == old(self).frame(),
    {
        let mut p: Option<Box<Self>> = None;
        std::mem::swap(&mut p, &mut self.parent);
        p
    }

    fn set_parent(&mut self, parent: Box<Self>)
        ensures
            final(self).parent == Some(parent),
            final(self).frame() == old(self).frame(),
    {
        self.parent = Some(parent);
    }

    /// The finished function: its constants, its captures, and its code
    /// with the labels resolved.
    pub fn assemble(self) -> (r: Function<C>)
        requires
            spec_parse(self.frame().entries) is Some,
        ensures
            r.name == self.frame().name,
            r.arity == self.frame().arity,
            r.constants@ == self.frame().constants,
            r.upvalues@ == self.frame().upvalues,
            Some(r.instructions@) == spec_parse(self.frame().entries),
    {
        let mut func = self.staging;
        func.upvalues = self.upvalues;
        func.instructions = self.instructions.parse().unwrap();
        func
    }

    /// Whether no scope is open: variables defined now are globals.
    pub fn at_global_depth(&self) -> (r: bool)
        ensures
            r == (self.frame().scope_depth == 0),
    {
        self.scope_depth == 0
    }

    /// Enters a loop whose end is `end_label`.
    pub fn begin_loop(&mut self, end_label: Label)
        ensures
            final(self).frame() == (Frame { loops: old(self).frame().loops.push(end_label), ..old(self).frame() }),
            final(self).parents() == old(self).parents(),
    {
        proof { self.lemma_chain(); }
        self.active_loops.push(end_label);
        proof { self.lemma_chain(); }
    }

    /// Leaves the innermost loop.
    pub fn end_loop(&mut self)
        requires
            old(self).frame().loops.len() > 0,
        ensures
            final(self).frame() == (Frame { loops: old(self).frame().loops.drop_last(), ..old(self).frame() }),
            final(self).parents() == old(self).parents(),
    {
        proof { self.lemma_chain(); }
        self.active_loops.pop().unwrap();
        proof { self.lemma_chain(); }
    }

    /// Opens a scope.
    pub fn begin_scope(&mut self)
        requires
            old(self).frame().scope_depth < usize::MAX,
        ensures
            final(self).frame() == (Frame { scope_depth: (old(self).frame().scope_depth + 1) as usize, ..old(self).frame() }),
            final(self).parents() == old(self).parents(),
    {
        proof { self.lemma_chain(); }
        self.scope_depth = self.scope_depth + 1;
        proof { self.lemma_chain(); }
    }

    /// Closes the innermost scope, popping its locals (see
    /// [`end_scope_effect`]).
    pub fn end_scope(&mut self)
        requires
            old(self).frame().scope_depth > 0,
        ensures
            ({
                let (ls, us, es) = end_scope_effect(
                    old(self).frame().locals,
                    old(self).frame().upvalues,
                    old(self).frame().scope_depth,
                );
                final(self).frame() == (Frame {
                    locals: ls,
                    upvalues: us,
                    entries: old(self).frame().entries + es,
                    scope_depth: (old(self).frame().scope_depth - 1) as usize,
                    ..old(self).frame()
                })
            }),
            final(self).parents() == old(self).parents(),
    {
        proof { self.lemma_chain(); }
        let ghost depth = self.scope_depth;
        let ghost start = self.frame();
        loop
            invariant
                self.scope_depth == depth,
                depth > 0,
                self.parents() == old(self).parents(),
                ({
                    let (ls, us, es) = end_scope_effect(self.locals@, self.upvalues@, depth);
                    let (ls0, us0, es0) = end_scope_effect(start.locals, start.upvalues, depth);
                    &&& ls == ls0
                    &&& us == us0
                    &&& self.frame().entries + es == start.entries + es0
                }),
                self.frame() == (Frame {
                    locals: self.locals@,
                    upvalues: self.upvalues@,
                    entries: self.frame().entries,
                    ..start
                }),
            ensures
                self.locals@.len() == 0 || self.locals@.last().scope_depth != depth,
            decreases self.locals@.len(),
        {
            let n = self.locals.len();
            if n == 0 {
                break;
            }
            let local = self.locals[n - 1];
            if local.scope_depth != self.scope_depth {
                break;
            }
            proof { self.lemma_chain(); }
            let ghost ups0 = self.upvalues@;
            let ghost locals0 = self.locals@;
            let ghost entries0 = self.frame().entries;
            let pos = self.position_of_upvalue(local.symbol);
            let instruction = match pos {
                Some(i) => {
                    self.upvalues.remove(i);
                    InstructionKind::PopUpValue
                },
                None => InstructionKind::Pop,
            };
            proof { self.lemma_chain(); }
            self.emit_nullary(instruction);
            proof { self.lemma_chain(); }
            self.locals.pop();
            proof {
                self.lemma_chain();
                assert(self.locals@ =~= locals0.drop_last());
                let (ls, us, es) = end_scope_effect(self.locals@, self.upvalues@, depth);
                assert(end_scope_effect(locals0, ups0, depth) == (ls, us, seq![imm(instruction, 0)] + es));
                assert(self.frame().entries =~= entries0 + seq![imm(instruction, 0)]);
                assert(entries0 + seq![imm(instruction, 0)] + es =~= entries0 + (seq![imm(instruction, 0)] + es));
            }
        }
        self.scope_depth = self.scope_depth - 1;
        proof {
            self.lemma_chain();
            let (ls, us, es) = end_scope_effect(self.locals@, self.upvalues@, depth);
            assert(es =~= Seq::<SymbolicInstruction>::empty());
            assert(self.frame().entries + es =~= self.frame().entries);
        }
    }

    //////////////////////////
    // Instructions
    //////////////////////////

    /// Stack before: `[assign_to, receiver]`.
    pub fn set_class_attr(&mut self, attr: Symbol)
        requires
            attr.0 <= OperandType::MAX,
        ensures
            final(self).appended(old(self), seq![imm(InstructionKind::SetClassAttribute, attr.0 as int)]),
    {
        self.emit_unary_usize(InstructionKind::SetClassAttribute, attr.into_usize());
    }

    /// Stack before: `[receiver]`.
    pub fn get_class_attr(&mut self, attr: Symbol)
        requires
            attr.0 <= OperandType::MAX,
        ensures
            final(self).appended(old(self), seq![imm(InstructionKind::LoadClassAttribute, attr.0 as int)]),
    {
        self.emit_unary_usize(InstructionKind::LoadClassAttribute, attr.into_usize());
    }

    /// Loads `this` and `super`, then the method `method` of the super
    /// class bound to `this`.
    pub fn load_super_method(&mut self, this_sym: Symbol, super_sym: Symbol, method: Symbol)
        requires
            location_operand(locate_effect(old(self).chain(), this_sym).0) <= OperandType::MAX,
            location_operand(locate_effect(locate_effect(old(self).chain(), this_sym).1, super_sym).0)
                <= OperandType::MAX,
            method.0 <= OperandType::MAX,
        ensures
            ({
                let (l1, c1) = locate_effect(old(self).chain(), this_sym);
                let (l2, c2) = locate_effect(c1, super_sym);
                &&& final(self).chain() == c2.update(0, Frame {
                    entries: old(self).frame().entries + seq![
                        imm(load_kind(l1), location_operand(l1)),
                        imm(load_kind(l2), location_operand(l2)),
                        imm(InstructionKind::LoadSuperMethod, method.0 as int),
                    ],
                    ..c2[0]
                })
            }),
    {
        let ghost c0 = self.chain();
        proof { lemma_locate_keeps_entries(c0, this_sym); }
        self.load_var(this_sym);
        let ghost c1 = self.chain();
        proof {
            let d1 = locate_effect(c0, this_sym).1;
            lemma_resolve_ignores_entries(c1, d1, super_sym);
            lemma_locate_keeps_entries(d1, super_sym);
        }
        self.load_var(super_sym);
        let ghost c2 = self.chain();
        proof { self.lemma_chain(); }
        let ghost f2 = self.frame();
        self.emit_unary_usize(InstructionKind::LoadSuperMethod, method.into_usize());
        proof {
            self.lemma_chain();
            let (l1, d1) = locate_effect(c0, this_sym);
            let (l2, d2) = locate_effect(d1, super_sym);
            lemma_locate_keeps_entries(c0, this_sym);
            lemma_locate_keeps_entries(d1, super_sym);
            lemma_resolve_keeps_entries(c0, this_sym);
            lemma_resolve_keeps_entries(d1, super_sym);
            lemma_resolve_ignores_entries(c1, d1, super_sym);
            let e1 = locate_effect(c1, super_sym).1;
            assert(locate_effect(c1, super_sym).0 == l2);
            assert forall|i: int| 0 < i < self.chain().len() implies self.chain()[i] == d2[i] by {
                assert(self.chain()[i] == c2[i]);
                assert(c2[i] == e1[i]);
                assert(e1[i] == (Frame { entries: c1[i].entries, ..d2[i] }));
                assert(c1[i] == d1[i]);
                assert(d2[i] == (Frame { upvalues: d2[i].upvalues, ..d1[i] }));
            }
            assert(c2[0] == f2);
            assert(e1[0] == (Frame { entries: c1[0].entries, ..d2[0] }));
            assert(c2[0].upvalues == e1[0].upvalues);
            assert(self.frame().upvalues == d2[0].upvalues);
            assert(d1[0].entries == c0[0].entries);
            assert(c1[0].entries =~= c0[0].entries + seq![imm(load_kind(l1), location_operand(l1))]);
            assert(self.frame().entries =~= c0[0].entries + seq![
                imm(load_kind(l1), location_operand(l1)),
                imm(load_kind(l2), location_operand(l2)),
                imm(InstructionKind::LoadSuperMethod, method.0 as int),
            ]);
            assert(self.chain()[0] == self.frame());
            assert(self.chain() =~= d2.update(0, Frame {
                entries: c0[0].entries + seq![
                    imm(load_kind(l1), location_operand(l1)),
                    imm(load_kind(l2), location_operand(l2)),
                    imm(InstructionKind::LoadSuperMethod, method.0 as int),
                ],
                ..d2[0]
            }));
        }
    }

    /// Pops the top of the stack.
    pub fn pop(&mut self)
        ensures
            final(self).appended(old(self), seq![imm(InstructionKind::Pop, 0)]),
    {
        self.emit_nullary(InstructionKind::Pop);
    }

    /// Jumps to `to`.
    pub fn jmp(&mut self, to: Label)
        ensures
            final(self).appended(old(self), seq![SymbolicInstruction::Instruction(InstructionKind::Jmp, SymbolicOp::Label(to))]),
    {
        self.emit_symbolic(SymbolicInstruction::Instruction(InstructionKind::Jmp, SymbolicOp::Label(to)));
    }

    /// Pops the top of the stack and jumps to `to` when it is false.
    pub fn jmp_if_false(&mut self, to: Label)
        ensures
            final(self).appended(old(self), seq![SymbolicInstruction::Instruction(InstructionKind::JumpIfFalse, SymbolicOp::Label(to))]),
    {
        self.emit_symbolic(SymbolicInstruction::Instruction(InstructionKind::JumpIfFalse, SymbolicOp::Label(to)));
    }

    /// Jumps to `to` when the top of the stack is false, leaving it there.
    pub fn jmp_if_false_preserving(&mut self, to: Label)
        ensures
            final(self).appended(old(self), seq![SymbolicInstruction::Instruction(InstructionKind::JumpIfFalsePreserving, SymbolicOp::Label(to))]),
    {
        self.emit_symbolic(SymbolicInstruction::Instruction(InstructionKind::JumpIfFalsePreserving, SymbolicOp::Label(to)));
    }

    /// Jumps to `to` when the top of the stack is true, leaving it there.
    pub fn jmp_if_true_preserving(&mut self, to: Label)
        ensures
            final(self).appended(old(self), seq![SymbolicInstruction::Instruction(InstructionKind::JumpIfTruePreserving, SymbolicOp::Label(to))]),
    {
        self.emit_symbolic(SymbolicInstruction::Instruction(InstructionKind::JumpIfTruePreserving, SymbolicOp::Label(to)));
    }

    /// Adds a constant and emits its loading.
    pub fn constant(&mut self, constant: C)
        requires
            old(self).frame().constants.len() <= OperandType::MAX,
        ensures
            final(self).frame() == (Frame {
                constants: old(self).frame().constants.push(constant),
                entries: old(self).frame().entries + seq![
                    imm(InstructionKind::Constant, old(self).frame().constants.len() as int),
                ],
                ..old(self).frame()
            }),
            final(self).parents() == old(self).parents(),
    {
        let index = self.add_constant(constant);
        self.emit_unary_usize(InstructionKind::Constant, index);
    }

    /// Calls the callee below the `nargs` arguments on the stack.
    pub fn callq(&mut self, nargs: usize)
        requires
            nargs <= OperandType::MAX,
        ensures
            final(self).appended(old(self), seq![imm(InstructionKind::Callq, nargs as int)]),
    {
        self.emit_unary_usize(InstructionKind::Callq, nargs);
    }

    /// Returns from the function.
    pub fn ret(&mut self)
        ensures
            final(self).appended(old(self), seq![imm(InstructionKind::Return, 0)]),
    {
        self.emit_nullary(InstructionKind::Return);
    }

    /// Pushes the receiver of the method being run and names it `to`.
    pub fn bind_this(&mut self, to: Symbol)
        ensures
            final(self).frame() == (Frame {
                entries: old(self).frame().entries + seq![imm(InstructionKind::PushThis, 0)],
                locals: old(self).frame().locals.push(Local { scope_depth: old(self).frame().scope_depth, symbol: to }),
                ..old(self).frame()
            }),
            final(self).parents() == old(self).parents(),
    {
        self.emit_nullary(InstructionKind::PushThis);
        self.add_local(to);
    }

    /// Jumps to the end of the innermost loop. Outside any loop, `break`
    /// emits nothing, so that compiling never fails once parsing succeeded.
    pub fn loop_break(&mut self)
        ensures
            final(self).appended(
                old(self),
                if old(self).frame().loops.len() > 0 {
                    seq![SymbolicInstruction::Instruction(InstructionKind::Jmp, SymbolicOp::Label(old(self).frame().loops.last()))]
                } else {
                    Seq::empty()
                },
            ),
    {
        let n = self.active_loops.len();
        if n > 0 {
            let loop_end = self.active_loops[n - 1];
            self.emit_symbolic(SymbolicInstruction::Instruction(InstructionKind::Jmp, SymbolicOp::Label(loop_end)));
        } else {
            proof {
                self.lemma_chain();
                assert(self.frame().entries =~= self.frame().entries + Seq::<SymbolicInstruction>::empty());
            }
        }
    }

    /// Names the next stack slot `sym`, in the current scope.
    pub fn add_local(&mut self, sym: Symbol)
        ensures
            final(self).frame() == (Frame {
                locals: old(self).frame().locals.push(Local { scope_depth: old(self).frame().scope_depth, symbol: sym }),
                ..old(self).frame()
            }),
            final(self).parents() == old(self).parents(),
    {
        proof { self.lemma_chain(); }
        self.locals.push(Local { scope_depth: self.scope_depth, symbol: sym });
        proof { self.lemma_chain(); }
    }

    /// Defines `sym` as the value on top of the stack: a global when no
    /// scope is open, else a local of the current scope.
    pub fn define_var(&mut self, sym: Symbol)
        requires
            old(self).frame().scope_depth == 0 ==> sym.0 <= OperandType::MAX,
        ensures
            old(self).frame().scope_depth == 0 ==> final(self).appended(old(self), seq![imm(InstructionKind::AddGlobal, sym.0 as int)]),
            old(self).frame().scope_depth != 0 ==> final(self).frame() == (Frame {
                locals: old(self).frame().locals.push(Local { scope_depth: old(self).frame().scope_depth, symbol: sym }),
                ..old(self).frame()
            }) && final(self).parents() == old(self).parents(),
    {
        if self.at_global_depth() {
            self.emit_unary_usize(InstructionKind::AddGlobal, sym.into_usize());
        } else {
            self.add_local(sym);
        }
    }

    /// The index of the last local named `sym`.
    fn find_local(&self, sym: Symbol) -> (r: Option<usize>)
        ensures
            match r {
                Some(i) => last_local(self.frame().locals, sym) == Some(i as nat),
                None => last_local(self.frame().locals, sym) is None,
            },
    {
        let mut i = self.locals.len();
        assert(self.locals@.subrange(0, i as int) =~= self.locals@);
        while i > 0
            invariant
                i <= self.locals@.len(),
                last_local(self.locals@, sym) == last_local(self.locals@.subrange(0, i as int), sym),
            decreases i,
        {
            assert(self.locals@.subrange(0, i as int).drop_last() =~= self.locals@.subrange(0, i - 1));
            if self.locals[i - 1].symbol == sym {
                return Some(i - 1);
            }
            i = i - 1;
        }
        None
    }

    /// Registers the capture `(sym, desc)` (see [`add_upvalue_effect`]).
    fn add_upvalue(&mut self, sym: Symbol, desc: UpValueDescriptor) -> (r: usize)
        ensures
            ({
                let (idx, ups) = add_upvalue_effect(old(self).frame().upvalues, sym, desc);
                &&& r == idx
                &&& final(self).frame() == (Frame { upvalues: ups, ..old(self).frame() })
            }),
            final(self).parents() == old(self).parents(),
    {
        proof { self.lemma_chain(); }
        let mut i = self.upvalues.len();
        assert(self.upvalues@.subrange(0, i as int) =~= self.upvalues@);
        while i > 0
            invariant
                i <= self.upvalues@.len(),
                self.upvalues@ == old(self).upvalues@,
                last_upvalue(self.upvalues@, sym) == last_upvalue(self.upvalues@.subrange(0, i as int), sym),
            decreases i,
        {
            assert(self.upvalues@.subrange(0, i as int).drop_last() =~= self.upvalues@.subrange(0, i - 1));
            if self.upvalues[i - 1].0 == sym {
                return i - 1;
            }
            i = i - 1;
        }
        let idx = self.upvalues.len();
        self.upvalues.push((sym, desc));
        proof { self.lemma_chain(); }
        idx
    }

    /// Finds `sym` for a closure compiled inside this function (see
    /// [`resolve_upvalue_effect`]).
    fn resolve_upvalue(&mut self, sym: Symbol) -> (r: Option<UpValueDescriptor>)
        ensures
            ({
                let (found, after) = resolve_upvalue_effect(old(self).chain(), sym);
                r == found && final(self).chain() == after
            }),
        decreases *old(self),
    {
        proof { self.lemma_chain(); }
        if let Some(local_index) = self.find_local(sym) {
            return Some(UpValueDescriptor::Local { parent_stack_pos: local_index });
        }
        let mut parent: Option<Box<Self>> = None;
        std::mem::swap(&mut parent, &mut self.parent);
        let found = match parent {
            Some(mut p) => {
                let found = (&mut *p).resolve_upvalue(sym);
                self.parent = Some(p);
                found
            },
            None => {
                self.parent = None;
                None
            },
        };
        let r = match found {
            Some(recursive_upvalue) => Some(UpValueDescriptor::Recursive {
                parent_upvalue_pos: self.add_upvalue(sym, recursive_upvalue),
            }),
            None => None,
        };
        proof {
            self.lemma_chain();
            old(self).lemma_chain();
            let c0 = old(self).chain();
            assert(c0.drop_first() == old(self).parents());
            let (f, rest) = resolve_upvalue_effect(c0.drop_first(), sym);
            match f {
                Some(desc) => {
                    assert(self.chain() =~= seq![self.frame()] + rest);
                },
                None => {
                    assert(self.chain() =~= seq![self.frame()] + rest);
                },
            }
        }
        r
    }

    /// Where `sym` is found from this function (see [`locate_effect`]).
    fn resolve_var_location(&mut self, sym: Symbol) -> (r: VariableLocation)
        ensures
            ({
                let (loc, after) = locate_effect(old(self).chain(), sym);
                r == loc && final(self).chain() == after
            }),
    {
        proof { self.lemma_chain(); }
        if let Some(local_index) = self.find_local(sym) {
            return VariableLocation::Local(local_index);
        }
        let mut parent: Option<Box<Self>> = None;
        std::mem::swap(&mut parent, &mut self.parent);
        let found = match parent {
            Some(mut p) => {
                let found = (&mut *p).resolve_upvalue(sym);
                self.parent = Some(p);
                found
            },
            None => {
                self.parent = None;
                None
            },
        };
        let r = match found {
            Some(upvalue_descriptor) => VariableLocation::UpValue(self.add_upvalue(sym, upvalue_descriptor)),
            None => VariableLocation::Global(sym),
        };
        proof {
            self.lemma_chain();
            old(self).lemma_chain();
            let c0 = old(self).chain();
            let (f, rest) = resolve_upvalue_effect(c0.drop_first(), sym);
            assert(self.chain() =~= seq![self.frame()] + rest);
        }
        r
    }

    /// Finds, at compile time, the variable `sym` and emits the pushing of
    /// its value.
    pub fn load_var(&mut self, sym: Symbol)
        requires
            location_operand(locate_effect(old(self).chain(), sym).0) <= OperandType::MAX,
        ensures
            ({
                let (loc, after) = locate_effect(old(self).chain(), sym);
                final(self).chain() == after.update(0, Frame {
                    entries: after[0].entries + seq![imm(load_kind(loc), location_operand(loc))],
                    ..after[0]
                })
            }),
    {
        let loc = self.resolve_var_location(sym);
        proof { lemma_locate_keeps_entries(old(self).chain(), sym); }
        let ghost mid = self.chain();
        match loc {
            VariableLocation::Local(idx) => self.emit_unary_usize(InstructionKind::LoadLocal, idx),
            VariableLocation::UpValue(upvalue_index) => {
                self.emit_unary_usize(InstructionKind::LoadUpValue, upvalue_index);
            },
            VariableLocation::Global(g) => {
                self.emit_unary_usize(InstructionKind::LoadGlobal, g.into_usize());
            },
        }
        proof {
            self.lemma_chain();
            assert(self.chain() =~= mid.update(0, self.frame()));
        }
    }

    /// Emits the storing of the value on top of the stack in `lhs`, then
    /// the pushing of the value of `lhs` (an assignment is an expression).
    pub fn set_variable(&mut self, lhs: Symbol)
        requires
            location_operand(locate_effect(old(self).chain(), lhs).0) <= OperandType::MAX,
        ensures
            ({
                let (loc, after) = locate_effect(old(self).chain(), lhs);
                final(self).chain() == after.update(0, Frame {
                    entries: after[0].entries + seq![
                        imm(set_kind(loc), location_operand(loc)),
                        imm(load_kind(loc), location_operand(loc)),
                    ],
                    ..after[0]
                })
            }),
    {
        let loc = self.resolve_var_location(lhs);
        proof { lemma_locate_keeps_entries(old(self).chain(), lhs); }
        let ghost mid = self.chain();
        match loc {
            VariableLocation::Global(g) => {
                let global_index = g.into_usize();
                self.emit_unary_usize(InstructionKind::SetGlobal, global_index);
                self.emit_unary_usize(InstructionKind::LoadGlobal, global_index);
            },
            VariableLocation::Local(l) => {
                self.emit_unary_usize(InstructionKind::SetLocal, l);
                self.emit_unary_usize(InstructionKind::LoadLocal, l);
            },
            VariableLocation::UpValue(l) => {
                self.emit_unary_usize(InstructionKind::SetUpValue, l);
                self.emit_unary_usize(InstructionKind::LoadUpValue, l);
            },
        }
        proof {
            self.lemma_chain();
            let (l, a) = locate_effect(old(self).chain(), lhs);
            assert(self.frame().entries =~= a[0].entries + seq![
                imm(set_kind(l), location_operand(l)),
                imm(load_kind(l), location_operand(l)),
            ]);
            assert(self.chain() =~= mid.update(0, self.frame()));
        }
    }

    /// The index of the first capture named `sym`.
    fn position_of_upvalue(&self, sym: Symbol) -> (r: Option<usize>)
        ensures
            match r {
                Some(i) => first_upvalue(self.upvalues@, sym) == Some(i as nat),
                None => first_upvalue(self.upvalues@, sym) is None,
            },
            r matches Some(i) ==> i < self.upvalues@.len(),
    {
        let n = self.upvalues.len();
        let mut i: usize = 0;
        assert(self.upvalues@.subrange(0, n as int) =~= self.upvalues@);
        while i < n
            invariant
                n == self.upvalues@.len(),
                0 <= i <= n,
                first_upvalue(self.upvalues@, sym) == match first_upvalue(self.upvalues@.subrange(i as int, n as int), sym) {
                    Some(j) => Some((j + i) as nat),
                    None => None,
                },
            decreases n - i,
        {
            let ghost rest = self.upvalues@.subrange(i as int, n as int);
            assert(rest.drop_first() =~= self.upvalues@.subrange(i + 1, n as int));
            if self.upvalues[i].0 == sym {
                return Some(i);
            }
            i = i + 1;
        }
        None
    }
}

/// The functions being compiled, the innermost on top.
pub struct FuncStack<C>(Box<FuncState<C>>);

/// `f` is the assembled form of `frame`.
pub open spec fn assembled_from<C>(f: Function<C>, frame: Frame<C>) -> bool {
    &&& f.name == frame.name
    &&& f.arity == frame.arity
    &&& f.constants@ == frame.constants
    &&& f.upvalues@ == frame.upvalues
    &&& Some(f.instructions@) == spec_parse(frame.entries)
}

impl<C> FuncStack<C> {
    /// The functions being compiled, from the innermost out.
    pub closed spec fn chain(&self) -> Seq<Frame<C>> {
        self.0.chain()
    }

    /// The innermost function.
    pub closed spec fn head(&self) -> FuncState<C> {
        *self.0
    }

    /// A stack whose functions are `main` and the ones it is nested in.
    pub fn new(main: FuncState<C>) -> (r: Self)
        ensures
            r.chain() == main.chain(),
    {
        Self(Box::new(main))
    }

    /// The innermost function.
    pub fn head_mut(&mut self) -> (r: &mut Box<FuncState<C>>)
        ensures
            **r == old(self).head(),
            final(self).chain() == (*final(r)).chain(),
    {
        &mut self.0
    }

    /// Starts compiling a function named `name`, nested in the current one.
    pub fn push(&mut self, name: Symbol, arity: usize)
        ensures
            final(self).chain() == seq![Frame::<C> {
                name,
                arity,
                constants: Seq::empty(),
                entries: Seq::empty(),
                next_label: 0,
                locals: Seq::empty(),
                upvalues: Seq::empty(),
                scope_depth: 0,
                loops: Seq::empty(),
            }] + old(self).chain(),
    {
        let mut prev_head = Box::new(FuncState::new(name, arity, None));
        std::mem::swap(&mut prev_head, &mut self.0);
        (&mut *self.0).set_parent(prev_head);
        proof {
            self.0.lemma_chain();
        }
    }

    /// Finishes the innermost function and returns it assembled, unless it
    /// is the outermost one.
    pub fn pop(&mut self) -> (r: Option<Function<C>>)
        requires
            old(self).chain().len() > 1 ==> spec_parse(old(self).chain()[0].entries) is Some,
        ensures
            old(self).chain().len() > 1 ==> {
                &&& r matches Some(f)
                &&& assembled_from(r.unwrap(), old(self).chain()[0])
                &&& final(self).chain() == old(self).chain().drop_first()
            },
            old(self).chain().len() <= 1 ==> r is None && final(self).chain() == old(self).chain(),
    {
        proof { self.0.lemma_chain(); }
        match (&mut *self.0).try_pop() {
            Some(prev_head) => {
                let mut head = prev_head;
                std::mem::swap(&mut head, &mut self.0);
                Some(head.assemble())
            },
            None => {
                proof { self.0.lemma_chain(); }
                None
            },
        }
    }

    /// Finishes the outermost function and returns it assembled; `None`
    /// when functions nested in it are still open.
    pub fn pop_last(self) -> (r: Option<Function<C>>)
        requires
            self.chain().len() == 1 ==> spec_parse(self.chain()[0].entries) is Some,
        ensures
            self.chain().len() == 1 ==> {
                &&& r matches Some(f)
                &&& assembled_from(r.unwrap(), self.chain()[0])
            },
            self.chain().len() > 1 ==> r is None,
    {
        proof { self.0.lemma_chain(); }
        let mut head = self.0;
        match head.try_pop() {
            Some(_) => None,
            None => Some(head.assemble()),
        }
    }
}

} // verus!
