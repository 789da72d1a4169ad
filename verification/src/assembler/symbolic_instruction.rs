use vstd::prelude::*;
use vstd::string::StringSliceAdditionalSpecFns;

use super::instruction::{Instruction, InstructionKind, OperandType};

verus! {


/// A jump target. Its `id` is unique within the program that created it;
/// a label is told apart from the others by its `id` and its `name`
/// together.
#[derive(Clone, Copy, Debug)]
pub struct Label {
    id: usize,
    name: &'static str,
}

impl Label {
    /// The number that tells this label apart from the others of its program.
    pub fn id(&self) -> (r: usize)
        ensures
            r == self.spec_id(),
    {
        self.id
    }

    /// The name given when the label was created.
    pub fn name(&self) -> (r: &'static str)
        ensures
            r == self.spec_name(),
    {
        self.name
    }

    pub closed spec fn spec_id(self) -> usize {
        self.id
    }

    pub closed spec fn spec_name(self) -> &'static str {
        self.name
    }
}

/// What tells a label apart from the others: its number and its name.
pub open spec fn label_key(l: Label) -> (usize, Seq<char>) {
    (l.spec_id(), l.spec_name()@)
}

/// Whether two texts are the same.
fn same_text(a: &str, b: &str) -> (r: bool)
    ensures
        r == (a@ == b@),
{
    let x = a.as_bytes();
    let y = b.as_bytes();
    proof {
        vstd::utf8::encode_utf8_decode_utf8(a@);
        vstd::utf8::encode_utf8_decode_utf8(b@);
    }
    if x.len() != y.len() {
        return false;
    }
    let mut i: usize = 0;
    while i < x.len()
        invariant
            x@ == a.spec_bytes(),
            y@ == b.spec_bytes(),
            x@.len() == y@.len(),
            i <= x@.len(),
            forall|j: int| 0 <= j < i ==> x@[j] == y@[j],
        decreases x@.len() - i,
    {
        if x[i] != y[i] {
            return false;
        }
        i += 1;
    }
    assert(x@ =~= y@);
    true
}

/// The labels bound so far, each with the position it stands for, in the
/// order they were bound.
pub struct LabelMap {
    entries: Vec<(Label, usize)>,
}

/// The map that the bindings `e` give, a later binding of a label taking
/// the place of an earlier one.
pub open spec fn bindings_view(e: Seq<(Label, usize)>) -> Map<(usize, Seq<char>), usize>
    decreases e.len(),
{
    if e.len() == 0 {
        Map::empty()
    } else {
        bindings_view(e.drop_last()).insert(label_key(e.last().0), e.last().1)
    }
}

impl LabelMap {
    pub closed spec fn view(&self) -> Map<(usize, Seq<char>), usize> {
        bindings_view(self.entries@)
    }

    /// No label is bound.
    pub fn new() -> (r: Self)
        ensures
            r@ == Map::<(usize, Seq<char>), usize>::empty(),
    {
        Self { entries: Vec::new() }
    }

    /// Binds `label` to `position`.
    pub fn insert(&mut self, label: Label, position: usize)
        ensures
            final(self)@ == old(self)@.insert(label_key(label), position),
    {
        self.entries.push((label, position));
        assert(self.entries@.drop_last() =~= old(self).entries@);
    }

    /// The position `label` is bound to, if it is bound.
    pub fn get(&self, label: &Label) -> (r: Option<usize>)
        ensures
            match r {
                Some(v) => self@.contains_key(label_key(*label)) && self@[label_key(*label)] == v,
                None => !self@.contains_key(label_key(*label)),
            },
    {
        let ghost key = label_key(*label);
        let mut j = self.entries.len();
        assert(self.entries@.take(j as int) =~= self.entries@);
        while j > 0
            invariant
                key == label_key(*label),
                j <= self.entries@.len(),
                bindings_view(self.entries@).contains_key(key) == bindings_view(
                    self.entries@.take(j as int),
                ).contains_key(key),
                bindings_view(self.entries@).contains_key(key) ==> bindings_view(self.entries@)[key]
                    == bindings_view(self.entries@.take(j as int))[key],
            decreases j,
        {
            let e = &self.entries[j - 1];
            let ghost before = self.entries@.take(j as int);
            assert(before.drop_last() =~= self.entries@.take(j - 1));
            assert(before.last() == *e);
            if e.0.id == label.id && same_text(e.0.name, label.name) {
                assert(label_key(e.0) == key);
                return Some(e.1);
            }
            assert(label_key(e.0) != key);
            j -= 1;
        }
        None
    }
}

/// The operand of a symbolic instruction: none, an immediate value, or a
/// label that is resolved to an instruction index.
#[derive(Clone, Copy, Debug)]
pub enum SymbolicOp {
    Omitted,
    Imm(OperandType),
    Label(Label),
}

/// An entry of a symbolic program: either the binding of a label to the
/// position of the next instruction, or an instruction.
#[derive(Clone, Copy, Debug)]
pub enum SymbolicInstruction {
    Label(Label),
    Instruction(InstructionKind, SymbolicOp),
}

impl SymbolicInstruction {
    /// The symbolic form of an instruction whose operand is already known.
    pub fn from_instruction(instruction: Instruction) -> (r: Self)
        ensures
            r == SymbolicInstruction::Instruction(
                instruction.kind,
                SymbolicOp::Imm(instruction.operand),
            ),
    {
        SymbolicInstruction::Instruction(instruction.kind, SymbolicOp::Imm(instruction.operand))
    }
}

/// A program whose jumps name labels in place of instruction indices.
pub struct SymbolicProgram {
    instructions: Vec<SymbolicInstruction>,
    next_label: usize,
}

/// Whether an entry is an instruction (as opposed to a label binding).
pub open spec fn is_inst(x: SymbolicInstruction) -> bool {
    x is Instruction
}

/// The number of instructions (label bindings not counted) in `s`.
pub open spec fn count_insts(s: Seq<SymbolicInstruction>) -> nat
    decreases s.len(),
{
    if s.len() == 0 {
        0
    } else {
        count_insts(s.drop_last()) + if is_inst(s.last()) {
            1nat
        } else {
            0nat
        }
    }
}

/// Entry `i` of `s` binds the label numbered `id`.
pub open spec fn binds_at(s: Seq<SymbolicInstruction>, i: int, id: (usize, Seq<char>)) -> bool {
    &&& 0 <= i < s.len()
    &&& s[i] matches SymbolicInstruction::Label(l)
    &&& label_key(l) == id
}

/// The position a label bound at entry `i` stands for: the number of
/// instructions before it.
pub open spec fn position_of(s: Seq<SymbolicInstruction>, i: int) -> nat {
    count_insts(s.take(i))
}

/// Some label is bound at two entries of `s`.
pub open spec fn bound_twice(s: Seq<SymbolicInstruction>) -> bool {
    exists|i: int, j: int, id: (usize, Seq<char>)| i < j && #[trigger] binds_at(s, i, id) && #[trigger] binds_at(s, j, id)
}

/// Some label is bound after the last instruction of `s`.
pub open spec fn bound_past_end(s: Seq<SymbolicInstruction>) -> bool {
    exists|i: int, id: (usize, Seq<char>)| #[trigger] binds_at(s, i, id) && position_of(s, i) >= count_insts(s)
}

/// The label numbers bound in `s`, each with the position it stands for,
/// when no label is bound twice or past the last instruction.
pub open spec fn label_bindings(s: Seq<SymbolicInstruction>) -> Option<Map<(usize, Seq<char>), nat>> {
    if bound_twice(s) || bound_past_end(s) {
        None
    } else {
        Some(
            Map::new(
                |id: (usize, Seq<char>)| exists|i: int| binds_at(s, i, id),
                |id: (usize, Seq<char>)| position_of(s, choose|i: int| binds_at(s, i, id)),
            ),
        )
    }
}

/// The operand a symbolic operand resolves to under `bindings`.
pub open spec fn resolve_op(op: SymbolicOp, bindings: Map<(usize, Seq<char>), nat>) -> Option<OperandType> {
    match op {
        SymbolicOp::Omitted => Some(0u8),
        SymbolicOp::Imm(v) => Some(v),
        SymbolicOp::Label(l) => if bindings.contains_key(label_key(l)) && bindings[label_key(l)] <= u8::MAX {
            Some(bindings[label_key(l)] as u8)
        } else {
            None
        },
    }
}

/// The instructions of `s`, in order, with their operands resolved;
/// `None` when some operand cannot be resolved.
pub open spec fn assemble(s: Seq<SymbolicInstruction>, bindings: Map<(usize, Seq<char>), nat>) -> Option<
    Seq<Instruction>,
>
    decreases s.len(),
{
    if s.len() == 0 {
        Some(Seq::empty())
    } else {
        match assemble(s.drop_last(), bindings) {
            None => None,
            Some(prefix) => match s.last() {
                SymbolicInstruction::Label(_) => Some(prefix),
                SymbolicInstruction::Instruction(kind, op) => match resolve_op(op, bindings) {
                    Some(operand) => Some(prefix.push(Instruction { kind, operand })),
                    None => None,
                },
            },
        }
    }
}

/// What resolving all labels of `s` gives.
pub open spec fn spec_parse(s: Seq<SymbolicInstruction>) -> Option<Seq<Instruction>> {
    match label_bindings(s) {
        None => None,
        Some(bindings) => assemble(s, bindings),
    }
}

/// A label created by a program after another one is a different label:
/// `create_label` hands out the program's counter and raises it, and
/// nothing else changes the counter, so a later label has a larger number.
pub proof fn lemma_later_label_differs(
    first: Label,
    after_first: SymbolicProgram,
    later: Label,
    before_later: SymbolicProgram,
)
    requires
        first.spec_id() < after_first.spec_next_label(),
        after_first.spec_next_label() <= before_later.spec_next_label(),
        later.spec_id() == before_later.spec_next_label(),
    ensures
        first.spec_id() < later.spec_id(),
        label_key(first) != label_key(later),
{
}

proof fn lemma_count_take_step(s: Seq<SymbolicInstruction>, k: int)
    requires
        0 <= k < s.len(),
    ensures
        count_insts(s.take(k + 1)) == count_insts(s.take(k)) + if is_inst(s[k]) {
            1nat
        } else {
            0nat
        },
{
    assert(s.take(k + 1).drop_last() =~= s.take(k));
}

proof fn lemma_count_monotone(s: Seq<SymbolicInstruction>, i: int, j: int)
    requires
        0 <= i <= j <= s.len(),
    ensures
        count_insts(s.take(i)) <= count_insts(s.take(j)),
    decreases j - i,
{
    if i < j {
        lemma_count_take_step(s, j - 1);
        lemma_count_monotone(s, i, j - 1);
    }
}

proof fn lemma_assemble_len(s: Seq<SymbolicInstruction>, bindings: Map<(usize, Seq<char>), nat>)
    ensures
        assemble(s, bindings) matches Some(p) ==> p.len() == count_insts(s),
    decreases s.len(),
{
    if s.len() > 0 {
        lemma_assemble_len(s.drop_last(), bindings);
    }
}

impl SymbolicProgram {
    pub closed spec fn entries(&self) -> Seq<SymbolicInstruction> {
        self.instructions@
    }

    pub closed spec fn spec_next_label(&self) -> usize {
        self.next_label
    }

    /// An empty program that has created no labels.
    pub fn new() -> (r: Self)
        ensures
            r.entries() == Seq::<SymbolicInstruction>::empty(),
            r.spec_next_label() == 0,
    {
        Self { instructions: Vec::new(), next_label: 0 }
    }

    /// A label with a number that no earlier label of this program has.
    /// The label is not bound yet: add it to the program for that.
    pub fn create_label(&mut self, name: &'static str) -> (r: Label)
        requires
            old(self).spec_next_label() < usize::MAX,
        ensures
            r.spec_id() == old(self).spec_next_label(),
            r.spec_name() == name,
            final(self).spec_next_label() == old(self).spec_next_label() + 1,
            final(self).entries() == old(self).entries(),
    {
        let id = self.next_label;
        self.next_label = self.next_label + 1;
        Label { id, name }
    }

    /// Appends an entry to the program.
    pub fn add_instruction(&mut self, inst: SymbolicInstruction)
        ensures
            final(self).entries() == old(self).entries().push(inst),
            final(self).spec_next_label() == old(self).spec_next_label(),
    {
        self.instructions.push(inst);
    }

    /// Resolves every label to the index of the instruction that follows
    /// its binding and returns the instructions. `None` when a label is
    /// bound twice or after the last instruction, when a referenced label
    /// is not bound, or when its index does not fit in an operand.
    pub fn parse(&self) -> (r: Option<Vec<Instruction>>)
        ensures
            match r {
                Some(v) => spec_parse(self.entries()) == Some(v@),
                None => spec_parse(self.entries()) is None,
            },
    {
        let bindings = match self.resolve_label_bindings() {
            Some(b) => b,
            None => return None,
        };
        let ghost s = self.instructions@;
        let ghost m = label_bindings(s).unwrap();
        let mut instructions: Vec<Instruction> = Vec::new();
        let n = self.instructions.len();
        let mut k: usize = 0;
        while k < n
            invariant
                n == s.len(),
                s == self.instructions@,
                0 <= k <= n,
                label_bindings(s) == Some(m),
                forall|id: (usize, Seq<char>)| #[trigger] bindings@.contains_key(id) <==> m.contains_key(id),
                forall|id: (usize, Seq<char>)| #[trigger] bindings@.contains_key(id) ==> bindings@[id] == m[id],
                assemble(s.take(k as int), m) == Some(instructions@),
            decreases n - k,
        {
            assert(s.take(k + 1).drop_last() =~= s.take(k as int));
            let entry = self.instructions[k];
            match entry {
                SymbolicInstruction::Label(_) => {},
                SymbolicInstruction::Instruction(kind, symbolic_op) => {
                    let operand: OperandType = match symbolic_op {
                        SymbolicOp::Omitted => 0,
                        SymbolicOp::Imm(op) => op,
                        SymbolicOp::Label(label) => {
                            match bindings.get(&label) {
                                Some(bound_to) => {
                                    if bound_to <= 255 {
                                        bound_to as u8
                                    } else {
                                        assert(assemble(s.take(k + 1), m) is None);
                                        proof { lemma_assemble_none_extends(s, m, k + 1); }
                                        return None;
                                    }
                                },
                                None => {
                                    assert(assemble(s.take(k + 1), m) is None);
                                    proof { lemma_assemble_none_extends(s, m, k + 1); }
                                    return None;
                                },
                            }
                        },
                    };
                    instructions.push(Instruction { kind, operand });
                },
            }
            k = k + 1;
        }
        assert(s.take(n as int) =~= s);
        Some(instructions)
    }

    /// The position each bound label stands for, keyed by label number;
    /// `None` when a label is bound twice or after the last instruction.
    fn resolve_label_bindings(&self) -> (r: Option<LabelMap>)
        ensures
            match r {
                Some(b) => {
                    &&& label_bindings(self.entries()) is Some
                    &&& forall|id: (usize, Seq<char>)| #[trigger]
                        b@.contains_key(id) <==> label_bindings(
                            self.entries(),
                        ).unwrap().contains_key(id)
                    &&& forall|id: (usize, Seq<char>)| #[trigger]
                        b@.contains_key(id) ==> b@[id] == label_bindings(self.entries()).unwrap()[id]
                },
                None => label_bindings(self.entries()) is None,
            },
    {
        let ghost s = self.instructions@;
        let n = self.instructions.len();
        let mut inst_count: usize = 0;
        let mut bindings = LabelMap::new();
        // whether a label was bound after the last instruction seen so far
        let mut label_at_end = false;
        let mut k: usize = 0;
        while k < n
            invariant
                n == s.len(),
                s == self.instructions@,
                0 <= k <= n,
                inst_count == count_insts(s.take(k as int)),
                inst_count <= k,
                forall|i: int, j: int, id: (usize, Seq<char>)|
                    i < j < k ==> !(#[trigger] binds_at(s, i, id) && #[trigger] binds_at(s, j, id)),
                forall|id: (usize, Seq<char>)| #[trigger]
                    bindings@.contains_key(id) <==> exists|i: int| i < k && binds_at(s, i, id),
                forall|i: int, id: (usize, Seq<char>)|
                    i < k && #[trigger] binds_at(s, i, id) ==> bindings@.contains_key(id)
                        && bindings@[id] == position_of(s, i),
                label_at_end <==> exists|i: int, id: (usize, Seq<char>)|
                    i < k && #[trigger] binds_at(s, i, id) && position_of(s, i) == inst_count,
            decreases n - k,
        {
            proof { lemma_count_take_step(s, k as int); }
            match self.instructions[k] {
                SymbolicInstruction::Label(label) => {
                    match bindings.get(&label) {
                        Some(_) => {
                            let ghost i = choose|i: int| i < k && binds_at(s, i, label_key(label));
                            assert(binds_at(s, k as int, label_key(label)));
                            assert(bound_twice(s));
                            return None;
                        },
                        None => {},
                    }
                    bindings.insert(label, inst_count);
                    label_at_end = true;
                    assert(binds_at(s, k as int, label_key(label)));
                },
                SymbolicInstruction::Instruction(_, _) => {
                    proof {
                        assert forall|i: int, id: (usize, Seq<char>)|
                            i < k + 1 && #[trigger] binds_at(s, i, id) implies position_of(s, i)
                            != inst_count + 1 by {
                            lemma_count_monotone(s, i, k as int);
                        }
                    }
                    inst_count = inst_count + 1;
                    label_at_end = false;
                },
            }
            k = k + 1;
        }
        assert(s.take(n as int) =~= s);
        proof {
            assert forall|i: int, id: (usize, Seq<char>)| #[trigger] binds_at(s, i, id) implies position_of(s, i)
                <= count_insts(s) by {
                lemma_count_monotone(s, i, n as int);
                assert(s.take(n as int) =~= s);
            }
        }
        if label_at_end {
            return None;
        }
        proof {
            let m = label_bindings(s).unwrap();
            assert forall|id: (usize, Seq<char>)| #[trigger] bindings@.contains_key(id) implies bindings@[id]
                == m[id] by {
                let i = choose|i: int| binds_at(s, i, id);
                let j = choose|j: int| j < k && binds_at(s, j, id);
                if i != j {
                    if i < j {
                        assert(binds_at(s, i, id) && binds_at(s, j, id));
                    } else {
                        assert(binds_at(s, j, id) && binds_at(s, i, id));
                    }
                }
            }
        }
        Some(bindings)
    }
}

proof fn lemma_assemble_index(s: Seq<SymbolicInstruction>, m: Map<(usize, Seq<char>), nat>, k: int)
    requires
        assemble(s, m) is Some,
        0 <= k < s.len(),
    ensures
        assemble(s, m).unwrap().len() == count_insts(s),
        match s[k] {
            SymbolicInstruction::Instruction(kind, op) => {
                &&& resolve_op(op, m) is Some
                &&& count_insts(s.take(k)) < count_insts(s)
                &&& assemble(s, m).unwrap()[count_insts(s.take(k)) as int] == (Instruction {
                    kind,
                    operand: resolve_op(op, m).unwrap(),
                })
            },
            SymbolicInstruction::Label(_) => true,
        },
    decreases s.len(),
{
    let s0 = s.drop_last();
    lemma_assemble_len(s, m);
    lemma_assemble_len(s0, m);
    if k == s.len() - 1 {
        assert(s.take(k) =~= s0);
    } else {
        assert(s0.take(k) =~= s.take(k));
        lemma_assemble_index(s0, m, k);
    }
}

/// Resolving a program keeps its instructions, in order, and drops the
/// label bindings.
pub proof fn lemma_parse_len(s: Seq<SymbolicInstruction>)
    requires
        spec_parse(s) is Some,
    ensures
        spec_parse(s).unwrap().len() == count_insts(s),
{
    lemma_assemble_len(s, label_bindings(s).unwrap());
}

/// The instruction at entry `k` of a program that resolves keeps its
/// kind, and lands at the index given by the number of instructions before
/// it; an immediate operand is kept, a missing one is zero, and a label
/// operand becomes the index of the instruction that follows the label's
/// binding.
pub proof fn lemma_parse_entry(s: Seq<SymbolicInstruction>, k: int)
    requires
        spec_parse(s) is Some,
        0 <= k < s.len(),
    ensures
        match s[k] {
            SymbolicInstruction::Instruction(kind, SymbolicOp::Omitted) => spec_parse(s).unwrap()[position_of(s, k) as int]
                == (Instruction { kind, operand: 0 }),
            SymbolicInstruction::Instruction(kind, SymbolicOp::Imm(v)) => spec_parse(s).unwrap()[position_of(s, k) as int]
                == (Instruction { kind, operand: v }),
            SymbolicInstruction::Instruction(kind, SymbolicOp::Label(l)) => exists|i: int|
                #[trigger] binds_at(s, i, label_key(l)) && position_of(s, i) <= u8::MAX
                    && spec_parse(s).unwrap()[position_of(s, k) as int] == (Instruction {
                    kind,
                    operand: position_of(s, i) as u8,
                }),
            SymbolicInstruction::Label(_) => true,
        },
        s[k] is Instruction ==> position_of(s, k) < spec_parse(s).unwrap().len(),
{
    let m = label_bindings(s).unwrap();
    lemma_assemble_index(s, m, k);
    match s[k] {
        SymbolicInstruction::Instruction(kind, SymbolicOp::Label(l)) => {
            let i = choose|i: int| binds_at(s, i, label_key(l));
            assert(binds_at(s, i, label_key(l)));
        },
        _ => {},
    }
}

proof fn lemma_assemble_none_extends(s: Seq<SymbolicInstruction>, m: Map<(usize, Seq<char>), nat>, k: int)
    requires
        0 <= k <= s.len(),
        assemble(s.take(k), m) is None,
    ensures
        assemble(s, m) is None,
    decreases s.len() - k,
{
    if k < s.len() {
        assert(s.take(k + 1).drop_last() =~= s.take(k));
        lemma_assemble_none_extends(s, m, k + 1);
    } else {
        assert(s.take(k) =~= s);
    }
}

} // verus!
