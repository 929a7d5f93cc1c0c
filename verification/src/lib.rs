//! A verified compiler front end and code generator for a tiny language of
//! integer arithmetic expressions and `print` statements.
//!
//! Source bytes are lexed into tokens, parsed by precedence climbing into an
//! abstract syntax tree, and then either interpreted directly (producing a
//! trace and a value) or lowered to one of two targets: x86-64 assembly text
//! built over a bank of four scratch registers, or a small portable
//! instruction form that maps one-to-one onto an external code generator.

pub mod token;
pub mod ast;
pub mod error;
pub mod lexer;
pub mod parser;
pub mod interp;
pub mod semantics;
pub mod text;
pub mod asmgen;
pub mod ir;
pub mod pipeline;
