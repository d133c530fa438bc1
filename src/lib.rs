//! Lexical analysis for a small scripting language: source text in, an ordered
//! sequence of tokens and an ordered sequence of diagnostics out.
pub mod error;
pub mod lexical;
pub mod scanner;
pub mod text;
pub mod token;

pub use error::Error;
pub use scanner::{scan_all, Scanner};
pub use token::{EOFLiteral, Literal, NullLiteral, NumberLiteral, StringLiteral, Token, TokenType};

