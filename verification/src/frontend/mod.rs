pub mod ast;
pub mod diagnostics;
pub mod error;
pub mod token;

pub use diagnostics::{Diagnostic, ToDiagnostic};
pub use error::Error;
pub use token::LoxTokenKind;
