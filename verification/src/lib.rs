//! Front end for the mig migration language: a lexer that turns source text
//! into a sequence of typed tokens, a structural parser that turns the token
//! sequence into an abstract syntax tree, and a validator that checks the
//! tree against the grammar's semantic rules.

pub mod token;
pub mod lexer;
pub mod ast;
pub mod syntax;
pub mod slice_helper;
pub mod converter;
pub mod framework;
pub mod string_helper;
pub mod file_helper;
pub mod mig;
