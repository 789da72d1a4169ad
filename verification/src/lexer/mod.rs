pub mod error;
pub mod span;
pub mod token;

pub use error::Error;
pub use span::Span;
pub use token::{Token, TokenType};
