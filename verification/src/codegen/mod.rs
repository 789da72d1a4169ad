pub mod chunk;
pub mod chunk_builder;
pub mod error;
pub mod instruction;
pub mod symbolic_instruction;

pub use chunk::Chunk;
pub use chunk_builder::ChunkBuilder;
pub use error::Error;
pub use instruction::{Instruction, InstructionKind, OperandType};
pub use symbolic_instruction::{Label, SymbolicInstruction, SymbolicOp, SymbolicProgram};
