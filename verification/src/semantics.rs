use vstd::prelude::*;
use crate::token::{Token, TokenAt};
use crate::ast::{ASTNode, ASTNodeType, spec_bin, spec_leaf};
use crate::error::{CompileError, EvalError};
use crate::interp::{spec_apply, spec_interp, InterpStep};
use crate::parser::{
    spec_addloop, spec_arithop, spec_expr, spec_fac20, spec_factor, spec_term, spec_termloop,
};

verus! {

// Left-to-right evaluation of a token stream, defined directly — no tree
// is built. Literals are values; `*` and `/` fold into the running value
// of the current term; `+` and `-` fold whole terms into the running
// value of the expression. The proof at the end of this module shows
// that parsing and then interpreting the tree computes exactly this.

/// The value or fault of a tree, with the trace forgotten.
pub open spec fn spec_outcome(t: ASTNode) -> Result<i64, EvalError> {
    match spec_interp(t) {
        InterpStep::Value { v, .. } => Ok(v),
        InterpStep::Fault { err, .. } => Err(err),
    }
}

/// One operation folded over two outcomes, left to right: an earlier
/// fault wins, then the operation's own fault or value.
pub open spec fn spec_combine(
    op: ASTNodeType,
    l: Result<i64, EvalError>,
    r: Result<i64, EvalError>,
) -> Result<i64, EvalError> {
    match l {
        Err(e) => Err(e),
        Ok(lv) => match r {
            Err(e) => Err(e),
            Ok(rv) => spec_apply(op, lv, rv),
        },
    }
}

/// A leaf's outcome is its value.
pub proof fn lemma_outcome_leaf(v: i64)
    ensures
        spec_outcome(spec_leaf(v)) == Ok::<i64, EvalError>(v),
{
}

/// A binary node's outcome is the fold of its children's outcomes.
pub proof fn lemma_outcome_bin(op: ASTNodeType, l: ASTNode, r: ASTNode)
    requires
        !(op is IntLit),
    ensures
        spec_outcome(spec_bin(op, l, r)) == spec_combine(op, spec_outcome(l), spec_outcome(r)),
{
}

/// A literal evaluates to its value; anything else cannot start an
/// operand.
pub open spec fn spec_eval_factor(toks: Seq<TokenAt>, pos: int) -> Result<
    (Result<i64, EvalError>, int),
    CompileError,
> {
    if !(0 <= pos < toks.len()) {
        Err(CompileError::Syntax { found: Token::Eof, line: 0 })
    } else {
        match toks[pos].tok {
            Token::IntLit(v) => Ok((Ok(v), pos + 1)),
            t => Err(CompileError::Syntax { found: t, line: toks[pos].line }),
        }
    }
}

/// What may follow a complete operand at the tightest binding level.
pub open spec fn spec_eval_stop20(toks: Seq<TokenAt>, pos: int, acc: Result<i64, EvalError>) -> Result<
    (Result<i64, EvalError>, int),
    CompileError,
> {
    if !(0 <= pos < toks.len()) {
        Ok((acc, pos))
    } else {
        match toks[pos].tok {
            Token::IntLit(_) => Err(CompileError::Syntax { found: toks[pos].tok, line: toks[pos].line }),
            Token::Print => Err(CompileError::Syntax { found: toks[pos].tok, line: toks[pos].line }),
            _ => Ok((acc, pos)),
        }
    }
}

/// A factor as the right operand of `*` or `/`.
pub open spec fn spec_eval_fac20(toks: Seq<TokenAt>, pos: int) -> Result<
    (Result<i64, EvalError>, int),
    CompileError,
> {
    match spec_eval_factor(toks, pos) {
        Ok((v, p)) => spec_eval_stop20(toks, p, v),
        Err(e) => Err(e),
    }
}

/// The running value of a term: while the current token is `*` or `/`,
/// fold the next factor into `acc`, left to right.
pub open spec fn spec_eval_termloop(toks: Seq<TokenAt>, pos: int, acc: Result<i64, EvalError>) -> Result<
    (Result<i64, EvalError>, int),
    CompileError,
>
    decreases toks.len() - pos,
        when pos >= 0
{
    if !(pos < toks.len()) {
        Ok((acc, pos))
    } else {
        match toks[pos].tok {
            Token::Eof => Ok((acc, pos)),
            Token::Semi => Ok((acc, pos)),
            Token::Plus => Ok((acc, pos)),
            Token::Minus => Ok((acc, pos)),
            Token::IntLit(_) => Err(CompileError::Syntax { found: toks[pos].tok, line: toks[pos].line }),
            Token::Print => Err(CompileError::Syntax { found: toks[pos].tok, line: toks[pos].line }),
            op => match spec_eval_fac20(toks, pos + 1) {
                Ok((rv, p2)) => spec_eval_termloop(
                    toks,
                    p2,
                    spec_combine(spec_arithop(op), acc, rv),
                ),
                Err(e) => Err(e),
            },
        }
    }
}

/// The value of a term: a factor folded with any number of `*` and `/`
/// factors, left to right.
pub open spec fn spec_eval_term(toks: Seq<TokenAt>, pos: int) -> Result<
    (Result<i64, EvalError>, int),
    CompileError,
> {
    match spec_eval_factor(toks, pos) {
        Ok((v, p)) => spec_eval_termloop(toks, p, v),
        Err(e) => Err(e),
    }
}

/// A successfully evaluated term ends after its first token and inside
/// the stream.
pub proof fn lemma_eval_term_advances(toks: Seq<TokenAt>, pos: int)
    ensures
        (match spec_eval_term(toks, pos) {
            Ok((v, p)) => pos < p <= toks.len(),
            Err(_) => true,
        }),
{
    if spec_eval_factor(toks, pos) is Ok {
        let (v, p1) = spec_eval_factor(toks, pos)->Ok_0;
        lemma_eval_termloop_advances(toks, p1, v);
    }
}

/// The term value loop never moves backwards and never leaves the stream.
pub proof fn lemma_eval_termloop_advances(toks: Seq<TokenAt>, pos: int, acc: Result<i64, EvalError>)
    requires
        0 <= pos <= toks.len(),
    ensures
        (match spec_eval_termloop(toks, pos, acc) {
            Ok((v, p)) => pos <= p <= toks.len(),
            Err(_) => true,
        }),
    decreases toks.len() - pos,
{
    if pos < toks.len() {
        match toks[pos].tok {
            Token::Star | Token::Slash => {
                if spec_eval_fac20(toks, pos + 1) is Ok {
                    let (rv, p2) = spec_eval_fac20(toks, pos + 1)->Ok_0;
                    lemma_eval_termloop_advances(
                        toks,
                        p2,
                        spec_combine(spec_arithop(toks[pos].tok), acc, rv),
                    );
                }
            },
            _ => {},
        }
    }
}

/// The running value of an expression: while the current token is a
/// binary operator, fold the next operand into `acc`; operands of `+`
/// and `-` are whole terms, so `*` and `/` bind tighter.
pub open spec fn spec_eval_addloop(toks: Seq<TokenAt>, pos: int, acc: Result<i64, EvalError>) -> Result<
    (Result<i64, EvalError>, int),
    CompileError,
>
    decreases toks.len() - pos,
        when pos >= 0
{
    if !(pos < toks.len()) {
        Ok((acc, pos))
    } else {
        match toks[pos].tok {
            Token::Eof => Ok((acc, pos)),
            Token::Semi => Ok((acc, pos)),
            Token::IntLit(_) => Err(CompileError::Syntax { found: toks[pos].tok, line: toks[pos].line }),
            Token::Print => Err(CompileError::Syntax { found: toks[pos].tok, line: toks[pos].line }),
            Token::Star | Token::Slash => match spec_eval_fac20(toks, pos + 1) {
                Ok((rv, p2)) => spec_eval_addloop(
                    toks,
                    p2,
                    spec_combine(spec_arithop(toks[pos].tok), acc, rv),
                ),
                Err(e) => Err(e),
            },
            op => {
                let r = spec_eval_term(toks, pos + 1);
                proof {
                    lemma_eval_term_advances(toks, pos + 1);
                }
                match r {
                    Ok((rv, p2)) => spec_eval_addloop(toks, p2, spec_combine(spec_arithop(op), acc, rv)),
                    Err(e) => Err(e),
                }
            },
        }
    }
}

/// The left-to-right value of a whole expression over the token stream,
/// with `*` and `/` binding tighter than `+` and `-`, in signed 64-bit
/// arithmetic, defined with no tree in between.
pub open spec fn spec_eval_expr(toks: Seq<TokenAt>, pos: int) -> Result<
    (Result<i64, EvalError>, int),
    CompileError,
> {
    match spec_eval_term(toks, pos) {
        Ok((v, p)) => spec_eval_addloop(toks, p, v),
        Err(e) => Err(e),
    }
}

/// The parsed factor's outcome is the directly evaluated factor.
pub proof fn lemma_eval_factor_agrees(toks: Seq<TokenAt>, pos: int)
    ensures
        (match (spec_factor(toks, pos), spec_eval_factor(toks, pos)) {
            (Ok((t, p)), Ok((v, p2))) => p == p2 && spec_outcome(t) == v,
            (Err(e), Err(e2)) => e == e2,
            _ => false,
        }),
{
    if 0 <= pos < toks.len() {
        match toks[pos].tok {
            Token::IntLit(v) => {
                lemma_outcome_leaf(v);
            },
            _ => {},
        }
    }
}

/// The parsed tight-level operand's outcome is the directly evaluated one.
pub proof fn lemma_eval_fac20_agrees(toks: Seq<TokenAt>, pos: int)
    ensures
        (match (spec_fac20(toks, pos), spec_eval_fac20(toks, pos)) {
            (Ok((t, p)), Ok((v, p2))) => p == p2 && spec_outcome(t) == v,
            (Err(e), Err(e2)) => e == e2,
            _ => false,
        }),
{
    lemma_eval_factor_agrees(toks, pos);
}

/// The parsed term loop's outcome is the direct term value loop, given
/// agreeing accumulators.
pub proof fn lemma_eval_termloop_agrees(
    toks: Seq<TokenAt>,
    pos: int,
    left: ASTNode,
    acc: Result<i64, EvalError>,
)
    requires
        0 <= pos <= toks.len(),
        acc == spec_outcome(left),
    ensures
        (match (spec_termloop(toks, pos, left), spec_eval_termloop(toks, pos, acc)) {
            (Ok((t, p)), Ok((v, p2))) => p == p2 && spec_outcome(t) == v,
            (Err(e), Err(e2)) => e == e2,
            _ => false,
        }),
    decreases toks.len() - pos,
{
    if pos < toks.len() {
        match toks[pos].tok {
            Token::Star | Token::Slash => {
                lemma_eval_fac20_agrees(toks, pos + 1);
                if spec_fac20(toks, pos + 1) is Ok {
                    let (right, p2) = spec_fac20(toks, pos + 1)->Ok_0;
                    let (rv, _) = spec_eval_fac20(toks, pos + 1)->Ok_0;
                    let op = spec_arithop(toks[pos].tok);
                    lemma_outcome_bin(op, left, right);
                    crate::parser::lemma_termloop_advances(toks, pos, left);
                    lemma_eval_termloop_agrees(
                        toks,
                        p2,
                        spec_bin(op, left, right),
                        spec_combine(op, acc, rv),
                    );
                }
            },
            _ => {},
        }
    }
}

/// The parsed term's outcome is the directly evaluated term.
pub proof fn lemma_eval_term_agrees(toks: Seq<TokenAt>, pos: int)
    ensures
        (match (spec_term(toks, pos), spec_eval_term(toks, pos)) {
            (Ok((t, p)), Ok((v, p2))) => p == p2 && spec_outcome(t) == v,
            (Err(e), Err(e2)) => e == e2,
            _ => false,
        }),
{
    lemma_eval_factor_agrees(toks, pos);
    if spec_factor(toks, pos) is Ok {
        let (left, p1) = spec_factor(toks, pos)->Ok_0;
        let (v, _) = spec_eval_factor(toks, pos)->Ok_0;
        lemma_eval_termloop_agrees(toks, p1, left, v);
    }
}

/// The parsed expression loop's outcome is the direct expression value
/// loop, given agreeing accumulators.
pub proof fn lemma_eval_addloop_agrees(
    toks: Seq<TokenAt>,
    pos: int,
    left: ASTNode,
    acc: Result<i64, EvalError>,
)
    requires
        0 <= pos <= toks.len(),
        acc == spec_outcome(left),
    ensures
        (match (spec_addloop(toks, pos, left), spec_eval_addloop(toks, pos, acc)) {
            (Ok((t, p)), Ok((v, p2))) => p == p2 && spec_outcome(t) == v,
            (Err(e), Err(e2)) => e == e2,
            _ => false,
        }),
    decreases toks.len() - pos,
{
    if pos < toks.len() {
        match toks[pos].tok {
            Token::Star | Token::Slash => {
                lemma_eval_fac20_agrees(toks, pos + 1);
                if spec_fac20(toks, pos + 1) is Ok {
                    let (right, p2) = spec_fac20(toks, pos + 1)->Ok_0;
                    let (rv, _) = spec_eval_fac20(toks, pos + 1)->Ok_0;
                    let op = spec_arithop(toks[pos].tok);
                    lemma_outcome_bin(op, left, right);
                    lemma_eval_addloop_agrees(
                        toks,
                        p2,
                        spec_bin(op, left, right),
                        spec_combine(op, acc, rv),
                    );
                }
            },
            Token::Plus | Token::Minus => {
                lemma_eval_term_agrees(toks, pos + 1);
                crate::parser::lemma_term_advances(toks, pos + 1);
                if spec_term(toks, pos + 1) is Ok {
                    let (right, p2) = spec_term(toks, pos + 1)->Ok_0;
                    let (rv, _) = spec_eval_term(toks, pos + 1)->Ok_0;
                    let op = spec_arithop(toks[pos].tok);
                    lemma_outcome_bin(op, left, right);
                    lemma_eval_addloop_agrees(
                        toks,
                        p2,
                        spec_bin(op, left, right),
                        spec_combine(op, acc, rv),
                    );
                }
            },
            _ => {},
        }
    }
}

/// For every token stream, parsing and then interpreting the tree
/// computes exactly the direct left-to-right evaluation of the tokens
/// with `*` and `/` binding tighter than `+` and `-` — the same value,
/// the same arithmetic fault, or the same syntax error.
pub proof fn interpreter_is_left_to_right_evaluation(toks: Seq<TokenAt>, pos: int)
    ensures
        (match (spec_expr(toks, pos), spec_eval_expr(toks, pos)) {
            (Ok((t, p)), Ok((v, p2))) => p == p2 && spec_outcome(t) == v,
            (Err(e), Err(e2)) => e == e2,
            _ => false,
        }),
{
    lemma_eval_term_agrees(toks, pos);
    if spec_term(toks, pos) is Ok {
        let (left, p1) = spec_term(toks, pos)->Ok_0;
        let (v, _) = spec_eval_term(toks, pos)->Ok_0;
        crate::parser::lemma_term_advances(toks, pos);
        lemma_eval_addloop_agrees(toks, p1, left, v);
    }
}

} // verus!
