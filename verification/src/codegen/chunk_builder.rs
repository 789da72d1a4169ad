use vstd::prelude::*;

use super::chunk::Chunk;
use super::instruction::Instruction;

verus! {

/// Collects the constants and instructions of a chunk, in order.
pub struct ChunkBuilder<C> {
    constants: Vec<C>,
    instructions: Vec<Instruction>,
}

impl<C> ChunkBuilder<C> {
    /// The constants added so far.
    pub closed spec fn spec_constants(&self) -> Seq<C> {
        self.constants@
    }

    /// The instructions emitted so far.
    pub closed spec fn spec_instructions(&self) -> Seq<Instruction> {
        self.instructions@
    }

    pub fn new() -> (r: Self)
        ensures
            r.spec_constants() == Seq::<C>::empty(),
            r.spec_instructions() == Seq::<Instruction>::empty(),
    {
        Self { constants: Vec::new(), instructions: Vec::new() }
    }

    pub fn emit(&mut self, instruction: Instruction)
        ensures
            final(self).spec_instructions() == old(self).spec_instructions().push(instruction),
            final(self).spec_constants() == old(self).spec_constants(),
    {
        self.instructions.push(instruction);
    }

    /// Adds a constant and gives its index.
    pub fn add_constant(&mut self, constant: C) -> (index: usize)
        ensures
            index == old(self).spec_constants().len(),
            final(self).spec_constants() == old(self).spec_constants().push(constant),
            final(self).spec_instructions() == old(self).spec_instructions(),
    {
        let index = self.constants.len();
        self.constants.push(constant);
        index
    }

    /// The chunk built.
    pub fn chunk(self) -> (r: Chunk<C>)
        ensures
            r.constants@ == self.spec_constants(),
            r.instructions@ == self.spec_instructions(),
    {
        Chunk { constants: self.constants, instructions: self.instructions }
    }
}

} // verus!
