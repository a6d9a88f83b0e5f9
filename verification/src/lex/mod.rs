//! Lexing: turning source text into tokens.
pub mod token;
pub mod tokens;

pub use token::{Token, TokenView};
pub use tokens::Tokens;
pub mod laws;
