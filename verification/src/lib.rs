//! A parser generator: it reads a grammar in a notation of its own, binds
//! the literals of the rules to tokens, and lowers the rules to the
//! functions of a recursive-descent parser, which a backend for a target
//! language turns into text. It also draws the grammar as a syntax diagram.

pub mod ast;
pub mod case;
pub mod diagram;
pub mod lang;
pub mod parser_gen;
pub mod syntax;
pub mod text;
pub mod transform;
