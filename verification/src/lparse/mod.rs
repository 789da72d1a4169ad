pub mod first;
pub mod follow;
pub mod grammar;
pub mod lparse_frontend;
pub mod lparse_parser;
pub mod parser;
pub mod rule;
pub mod table;

pub use grammar::{Grammar, Production, ProductionId, Symbol};
pub use parser::{lr_parse, lr_parse_within, Action, Node, ParseError, Parent, StateId, Tree};
pub use rule::Rule;
