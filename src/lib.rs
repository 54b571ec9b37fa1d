pub mod syntax;
pub mod language;
pub mod shape;
pub mod parser;
pub mod grammar;
pub mod input;
pub mod document;

pub use document::parse;
pub use parser::{ParseError, ParseResult, Parser, SyntaxTree};
pub use syntax::{Event, SyntaxKind, Token, TokenKind};
