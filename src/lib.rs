//! Lexical front end: turns a byte buffer into classified tokens.

pub mod encoding;
pub mod kind;
pub mod token;
pub mod table;
pub mod keyword;
pub mod parser;

pub use kind::TokenKind;
pub use parser::Parser;
pub use table::{Entry, Table};
pub use token::Token;
