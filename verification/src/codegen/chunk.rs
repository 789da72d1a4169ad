use vstd::prelude::*;

use super::instruction::Instruction;

verus! {

/// Compiled code: the constants it loads (of type `C`) and its
/// instructions.
pub struct Chunk<C> {
    pub constants: Vec<C>,
    pub instructions: Vec<Instruction>,
}

} // verus!
