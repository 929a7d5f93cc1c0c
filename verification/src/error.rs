use vstd::prelude::*;
use crate::token::Token;

verus! {

/// An error raised while turning source text into an abstract syntax tree
/// or while generating code from one. Every error is fatal: the pipeline
/// stops at the first one.
#[derive(Clone, Debug, PartialEq)]
pub enum CompileError {
    /// A byte that starts no token (lexical error).
    UnrecognizedChar { ch: u8, line: u64 },
    /// An identifier that is not a keyword (lexical error).
    UnknownSymbol { line: u64 },
    /// An identifier longer than the fixed buffer allows (lexical error).
    IdentifierTooLong { line: u64 },
    /// An integer literal whose value does not fit in a signed 64-bit
    /// integer (lexical error).
    IntegerTooLarge { line: u64 },
    /// The current token cannot stand here (syntax error).
    Syntax { found: Token, line: u64 },
    /// A specific token was required and something else was found
    /// (syntax error).
    Expected { what: Token, found: Token, line: u64 },
    /// The expression needs more simultaneously live values than the
    /// four scratch registers can hold (internal error: the input is
    /// well-formed, the backend cannot represent it).
    OutOfRegisters,
}

/// The three error categories: malformed characters, malformed phrase
/// structure, and limits of the compiler itself.
#[derive(Clone, Copy, Debug, PartialEq, Eq, Structural)]
pub enum ErrorCategory {
    Lexical,
    SyntaxTrouble,
    Internal,
}

/// Which category an error belongs to.
pub open spec fn spec_category(e: CompileError) -> ErrorCategory {
    match e {
        CompileError::UnrecognizedChar { .. } => ErrorCategory::Lexical,
        CompileError::UnknownSymbol { .. } => ErrorCategory::Lexical,
        CompileError::IdentifierTooLong { .. } => ErrorCategory::Lexical,
        CompileError::IntegerTooLarge { .. } => ErrorCategory::Lexical,
        CompileError::Syntax { .. } => ErrorCategory::SyntaxTrouble,
        CompileError::Expected { .. } => ErrorCategory::SyntaxTrouble,
        CompileError::OutOfRegisters => ErrorCategory::Internal,
    }
}

impl CompileError {
    /// The category of this error.
    pub fn category(&self) -> (c: ErrorCategory)
        ensures
            c == spec_category(*self),
    {
        match self {
            CompileError::UnrecognizedChar { .. } => ErrorCategory::Lexical,
            CompileError::UnknownSymbol { .. } => ErrorCategory::Lexical,
            CompileError::IdentifierTooLong { .. } => ErrorCategory::Lexical,
            CompileError::IntegerTooLarge { .. } => ErrorCategory::Lexical,
            CompileError::Syntax { .. } => ErrorCategory::SyntaxTrouble,
            CompileError::Expected { .. } => ErrorCategory::SyntaxTrouble,
            CompileError::OutOfRegisters => ErrorCategory::Internal,
        }
    }
}

/// A fault met while evaluating an expression with signed 64-bit
/// arithmetic: division by zero, or an intermediate value out of range.
#[derive(Clone, Copy, Debug, PartialEq, Eq, Structural)]
pub enum EvalError {
    DivisionByZero,
    Overflow,
}

} // verus!
