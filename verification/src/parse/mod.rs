pub mod compiler_error;
pub mod error;
pub mod first;
pub mod generate;
pub mod generated_lparse_parser;
pub mod lparse_frontend;
pub mod lparse_grammar;

pub use error::Error;
pub use generate::ParseGenerateError;
pub use lparse_grammar::{lparse_grammar, LParseRule, LParseToken};
