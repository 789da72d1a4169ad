pub mod error;
pub mod func_state;
pub mod instruction;
pub mod symbolic_instruction;

pub use error::Error;
pub use func_state::{FuncState, Function, Local, Symbol, UpValueDescriptor};
pub use instruction::{Instruction, InstructionKind, OperandType};
pub use symbolic_instruction::Label;
