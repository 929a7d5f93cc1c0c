use vstd::prelude::*;

verus! {

/// A lexical token of the source language: end of input, the four binary
/// operators, an integer literal, the statement separator `;`, and the
/// `print` keyword.
#[derive(Clone, Copy, Debug, PartialEq, Eq, Structural)]
pub enum Token {
    Eof,
    Plus,
    Minus,
    Star,
    Slash,
    IntLit(i64),
    Semi,
    Print,
}

/// The binding strength of a token when it is read as a binary operator.
/// `+` and `-` bind at 10, `*` and `/` at 20; everything else is 0,
/// meaning "not a binary operator".
pub open spec fn spec_op_prec(t: Token) -> u32 {
    match t {
        Token::Plus => 10,
        Token::Minus => 10,
        Token::Star => 20,
        Token::Slash => 20,
        _ => 0,
    }
}

impl Token {
    /// Operator precedence of this token; 0 marks a token that is not a
    /// binary operator.
    pub fn op_prec(&self) -> (p: u32)
        ensures
            p == spec_op_prec(*self),
    {
        match self {
            Token::Eof => 0,
            Token::Plus => 10,
            Token::Minus => 10,
            Token::Star => 20,
            Token::Slash => 20,
            Token::IntLit(_) => 0,
            Token::Semi => 0,
            Token::Print => 0,
        }
    }
}

/// A token together with the lexer's line counter at the moment the token
/// was produced; errors reported while this token is current carry this line.
#[derive(Clone, Copy, Debug, PartialEq, Eq, Structural)]
pub struct TokenAt {
    pub tok: Token,
    pub line: u64,
}

} // verus!
