//! A small source-to-source compiler front end: tokens are parsed by a
//! scope-aware precedence-climbing parser into a typed syntax tree, and the
//! tree is rendered as Java source with the minimum of parentheses.
pub mod token;
pub mod syntax_tree;
pub mod error;
pub mod scope;
pub mod generator;
pub mod grammar;
pub mod parser;
pub mod compiler;
pub mod reparse;
pub mod typing;
pub mod lexer;
pub mod reparse_statements;
