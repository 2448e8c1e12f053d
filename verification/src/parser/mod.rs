pub mod lexer;
pub mod parser;

pub use lexer::{Lexer, Token};
pub use parser::{ASTNode, ParsedCommand, Parser};
