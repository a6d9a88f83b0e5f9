//! The `ka` compiler's library: arenas, diagnostics, string interning, the
//! lexer, the parser, the intermediate representation with the checking of
//! `match` arms and its printer, and the types of the mid-level form.
pub mod arena;
pub mod diagnostic;
pub mod text;
pub mod intern;
pub mod lex;
pub mod ir;
pub mod mir;
pub mod ast;
pub mod parse;
pub mod lua;
