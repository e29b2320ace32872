//! A minimal line-oriented shell: a tokenizer, a recursive-descent parser and
//! the decision logic of an executor that chains, redirects and interrupts
//! child processes.
pub mod ast;
pub mod interp;
pub mod parser;
pub mod scanner;
pub mod token;

pub use ast::Node;
pub use parser::{ParseError, Parser};
pub use scanner::{ScanError, Scanner};
pub use token::Token;
