use vstd::prelude::*;

use crate::assembler::Instruction;

verus! {

/// One function activation of the virtual machine: the closure it runs
/// (a handle `F` into the machine's heap), the position of the next
/// instruction, where its values start on the value stack, and its
/// constants (of value type `V`).
pub struct CallFrame<F, V> {
    pub closure: F,
    pub ip: usize,
    pub base: usize,
    pub constants: Vec<V>,
}

impl<F, V> CallFrame<F, V> {
    /// A frame that starts at the first instruction of `closure`, whose
    /// function holds `constants`, with its values from `base` on.
    pub fn new(closure: F, base: usize, constants: Vec<V>) -> (r: Self)
        ensures
            r.closure == closure,
            r.ip == 0,
            r.base == base,
            r.constants@ == constants@,
    {
        CallFrame { closure, ip: 0, base, constants }
    }

    /// The next instruction of the frame's function (whose instructions
    /// are `instructions`), moving past it; `None` past the end.
    pub fn pop_instruction(&mut self, instructions: &[Instruction]) -> (r: Option<Instruction>)
        ensures
            old(self).ip < instructions@.len() ==> r == Some(instructions@[old(self).ip as int])
                && final(self).ip == old(self).ip + 1,
            old(self).ip >= instructions@.len() ==> r is None && final(self).ip == old(self).ip,
            final(self).closure == old(self).closure,
            final(self).base == old(self).base,
            final(self).constants == old(self).constants,
    {
        if self.ip < instructions.len() {
            let instruction = instructions[self.ip];
            self.ip += 1;
            Some(instruction)
        } else {
            None
        }
    }

    /// Continues at instruction `to` of the frame's function (whose
    /// instructions are `instructions`).
    pub fn jmp(&mut self, instructions: &[Instruction], to: usize)
        requires
            to < instructions@.len(),
        ensures
            final(self).ip == to,
            final(self).closure == old(self).closure,
            final(self).base == old(self).base,
            final(self).constants == old(self).constants,
    {
        self.ip = to;
    }

    /// A copy of the frame's value at `offset`, on the value stack
    /// `value_stack`; `None` past its end.
    pub fn load_val(&self, offset: usize, value_stack: &[V]) -> (r: Option<V>)
        where
            V: Clone,
        requires
            self.base + offset <= usize::MAX,
        ensures
            self.base + offset < value_stack@.len() ==> r is Some && cloned::<V>(
                value_stack@[self.base + offset],
                r->0,
            ),
            self.base + offset >= value_stack@.len() ==> r is None,
    {
        let index = self.base + offset;
        if index < value_stack.len() {
            Some(value_stack[index].clone())
        } else {
            None
        }
    }
}

} // verus!
