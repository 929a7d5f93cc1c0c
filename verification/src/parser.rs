use vstd::prelude::*;
use crate::token::{Token, TokenAt, spec_op_prec};
use crate::ast::{ASTNode, ASTNodeType, spec_leaf, spec_bin};
use crate::error::CompileError;

verus! {

/// A token stream the parser accepts: at least one token, the last of
/// which marks the end of the input.
pub open spec fn wf_stream(toks: Seq<TokenAt>) -> bool {
    toks.len() >= 1 && toks[toks.len() - 1].tok == Token::Eof
}

/// The tree operation a binary operator token stands for.
pub open spec fn spec_arithop(t: Token) -> ASTNodeType {
    match t {
        Token::Plus => ASTNodeType::Add,
        Token::Minus => ASTNodeType::Subtract,
        Token::Star => ASTNodeType::Multiply,
        Token::Slash => ASTNodeType::Divide,
        _ => ASTNodeType::Add,
    }
}

/// A primary expression: the current token must be an integer literal,
/// which becomes a leaf, consuming one token.
pub open spec fn spec_factor(toks: Seq<TokenAt>, pos: int) -> Result<(ASTNode, int), CompileError> {
    if !(0 <= pos < toks.len()) {
        Err(CompileError::Syntax { found: Token::Eof, line: 0 })
    } else {
        match toks[pos].tok {
            Token::IntLit(v) => Ok((spec_leaf(v), pos + 1)),
            t => Err(CompileError::Syntax { found: t, line: toks[pos].line }),
        }
    }
}

/// What follows a complete operand at the tightest binding level: the
/// operand stands alone unless the next token could never follow an
/// expression (a literal or a keyword), which is a syntax error.
pub open spec fn spec_stop20(toks: Seq<TokenAt>, pos: int, left: ASTNode) -> Result<
    (ASTNode, int),
    CompileError,
> {
    if !(0 <= pos < toks.len()) {
        Ok((left, pos))
    } else {
        match toks[pos].tok {
            Token::IntLit(_) => Err(CompileError::Syntax { found: toks[pos].tok, line: toks[pos].line }),
            Token::Print => Err(CompileError::Syntax { found: toks[pos].tok, line: toks[pos].line }),
            _ => Ok((left, pos)),
        }
    }
}

/// A factor as the right operand of `*` or `/`: a primary, with the check
/// that what follows could follow an expression.
pub open spec fn spec_fac20(toks: Seq<TokenAt>, pos: int) -> Result<(ASTNode, int), CompileError> {
    match spec_factor(toks, pos) {
        Ok((n, p)) => spec_stop20(toks, p, n),
        Err(e) => Err(e),
    }
}

/// The loop of a term: while the current token binds tighter than `+`
/// and `-` (that is, `*` or `/`), fold the next factor into `left`,
/// left to right.
pub open spec fn spec_termloop(toks: Seq<TokenAt>, pos: int, left: ASTNode) -> Result<
    (ASTNode, int),
    CompileError,
>
    decreases toks.len() - pos,
        when pos >= 0
{
    if !(pos < toks.len()) {
        Ok((left, pos))
    } else {
        match toks[pos].tok {
            Token::Eof => Ok((left, pos)),
            Token::Semi => Ok((left, pos)),
            Token::Plus => Ok((left, pos)),
            Token::Minus => Ok((left, pos)),
            Token::IntLit(_) => Err(CompileError::Syntax { found: toks[pos].tok, line: toks[pos].line }),
            Token::Print => Err(CompileError::Syntax { found: toks[pos].tok, line: toks[pos].line }),
            op => match spec_fac20(toks, pos + 1) {
                Ok((right, p2)) => spec_termloop(toks, p2, spec_bin(spec_arithop(op), left, right)),
                Err(e) => Err(e),
            },
        }
    }
}

/// A term: a factor followed by any number of `*` and `/` factors,
/// folded left to right.
pub open spec fn spec_term(toks: Seq<TokenAt>, pos: int) -> Result<(ASTNode, int), CompileError> {
    match spec_factor(toks, pos) {
        Ok((left, p)) => spec_termloop(toks, p, left),
        Err(e) => Err(e),
    }
}

/// A successful term starts after `pos` and ends no later than the end
/// of the stream.
pub proof fn lemma_term_advances(toks: Seq<TokenAt>, pos: int)
    ensures
        (match spec_term(toks, pos) {
            Ok((n, p)) => pos < p <= toks.len(),
            Err(_) => true,
        }),
{
    if spec_factor(toks, pos) is Ok {
        let (left, p1) = spec_factor(toks, pos)->Ok_0;
        lemma_termloop_advances(toks, p1, left);
    }
}

/// The term loop never moves backwards and never leaves the stream.
pub proof fn lemma_termloop_advances(toks: Seq<TokenAt>, pos: int, left: ASTNode)
    requires
        0 <= pos <= toks.len(),
    ensures
        (match spec_termloop(toks, pos, left) {
            Ok((n, p)) => pos <= p <= toks.len(),
            Err(_) => true,
        }),
    decreases toks.len() - pos,
{
    if pos < toks.len() {
        match toks[pos].tok {
            Token::Star | Token::Slash => {
                if spec_fac20(toks, pos + 1) is Ok {
                    let (right, p2) = spec_fac20(toks, pos + 1)->Ok_0;
                    lemma_termloop_advances(
                        toks,
                        p2,
                        spec_bin(spec_arithop(toks[pos].tok), left, right),
                    );
                }
            },
            _ => {},
        }
    }
}

/// The loop of a whole expression: while the current token is a binary
/// operator, fold the next operand into `left`; operands of `+` and `-`
/// are whole terms, so `*` and `/` bind tighter.
pub open spec fn spec_addloop(toks: Seq<TokenAt>, pos: int, left: ASTNode) -> Result<
    (ASTNode, int),
    CompileError,
>
    decreases toks.len() - pos,
        when pos >= 0
{
    if !(pos < toks.len()) {
        Ok((left, pos))
    } else {
        match toks[pos].tok {
            Token::Eof => Ok((left, pos)),
            Token::Semi => Ok((left, pos)),
            Token::IntLit(_) => Err(CompileError::Syntax { found: toks[pos].tok, line: toks[pos].line }),
            Token::Print => Err(CompileError::Syntax { found: toks[pos].tok, line: toks[pos].line }),
            Token::Star | Token::Slash => match spec_fac20(toks, pos + 1) {
                Ok((right, p2)) => spec_addloop(
                    toks,
                    p2,
                    spec_bin(spec_arithop(toks[pos].tok), left, right),
                ),
                Err(e) => Err(e),
            },
            op => {
                let r = spec_term(toks, pos + 1);
                proof {
                    lemma_term_advances(toks, pos + 1);
                }
                match r {
                    Ok((right, p2)) => spec_addloop(toks, p2, spec_bin(spec_arithop(op), left, right)),
                    Err(e) => Err(e),
                }
            },
        }
    }
}

/// A whole expression: a term followed by any number of operator-operand
/// steps, folded left to right.
pub open spec fn spec_expr(toks: Seq<TokenAt>, pos: int) -> Result<(ASTNode, int), CompileError> {
    match spec_term(toks, pos) {
        Ok((left, p)) => spec_addloop(toks, p, left),
        Err(e) => Err(e),
    }
}

/// Running the expression loop is the same as first running the term
/// loop and then the expression loop on its result: the term loop's
/// steps are a prefix of the expression loop's steps.
pub proof fn lemma_addloop_after_termloop(toks: Seq<TokenAt>, pos: int, left: ASTNode)
    requires
        0 <= pos <= toks.len(),
    ensures
        spec_addloop(toks, pos, left) == (match spec_termloop(toks, pos, left) {
            Ok((l2, p2)) => spec_addloop(toks, p2, l2),
            Err(e) => Err(e),
        }),
    decreases toks.len() - pos,
{
    if pos < toks.len() {
        match toks[pos].tok {
            Token::Star | Token::Slash => {
                if spec_fac20(toks, pos + 1) is Ok {
                    let (right, p2) = spec_fac20(toks, pos + 1)->Ok_0;
                    lemma_addloop_after_termloop(
                        toks,
                        p2,
                        spec_bin(spec_arithop(toks[pos].tok), left, right),
                    );
                }
            },
            _ => {},
        }
    }
}

/// A successful expression starts after `pos` and ends no later than the
/// end of the stream.
pub proof fn lemma_expr_advances(toks: Seq<TokenAt>, pos: int)
    ensures
        (match spec_expr(toks, pos) {
            Ok((n, p)) => pos < p <= toks.len(),
            Err(_) => true,
        }),
{
    lemma_term_advances(toks, pos);
    if spec_term(toks, pos) is Ok {
        let (left, p1) = spec_term(toks, pos)->Ok_0;
        lemma_addloop_advances(toks, p1, left);
    }
}

/// The expression loop never moves backwards and never leaves the stream.
pub proof fn lemma_addloop_advances(toks: Seq<TokenAt>, pos: int, left: ASTNode)
    requires
        0 <= pos <= toks.len(),
    ensures
        (match spec_addloop(toks, pos, left) {
            Ok((n, p)) => pos <= p <= toks.len(),
            Err(_) => true,
        }),
    decreases toks.len() - pos,
{
    if pos < toks.len() {
        match toks[pos].tok {
            Token::Star | Token::Slash => {
                if spec_fac20(toks, pos + 1) is Ok {
                    let (right, p2) = spec_fac20(toks, pos + 1)->Ok_0;
                    lemma_addloop_advances(
                        toks,
                        p2,
                        spec_bin(spec_arithop(toks[pos].tok), left, right),
                    );
                }
            },
            Token::Plus | Token::Minus => {
                lemma_term_advances(toks, pos + 1);
                if spec_term(toks, pos + 1) is Ok {
                    let (right, p2) = spec_term(toks, pos + 1)->Ok_0;
                    lemma_addloop_advances(
                        toks,
                        p2,
                        spec_bin(spec_arithop(toks[pos].tok), left, right),
                    );
                }
            },
            _ => {},
        }
    }
}

/// A parse at a given binding level, dispatched by the level: what the
/// precedence climber owes after its primary at that level.
pub open spec fn spec_level(toks: Seq<TokenAt>, pos: int, left: ASTNode, ptp: u32) -> Result<
    (ASTNode, int),
    CompileError,
> {
    if ptp == 0 {
        spec_addloop(toks, pos, left)
    } else if ptp == 10 {
        spec_termloop(toks, pos, left)
    } else {
        spec_stop20(toks, pos, left)
    }
}

/// A whole parse at a given binding level: a primary, then the level's
/// climbing loop.
pub open spec fn spec_binexpr(toks: Seq<TokenAt>, pos: int, ptp: u32) -> Result<
    (ASTNode, int),
    CompileError,
> {
    match spec_factor(toks, pos) {
        Ok((n, p)) => spec_level(toks, p, n, ptp),
        Err(e) => Err(e),
    }
}

/// At level 0 the climber parses exactly a whole expression, and at
/// level 10 exactly a term.
pub proof fn lemma_binexpr_levels(toks: Seq<TokenAt>, pos: int)
    requires
        0 <= pos < toks.len(),
    ensures
        spec_binexpr(toks, pos, 0) == spec_expr(toks, pos),
        spec_binexpr(toks, pos, 10) == spec_term(toks, pos),
        spec_binexpr(toks, pos, 20) == spec_fac20(toks, pos),
{
    if spec_factor(toks, pos) is Ok {
        let (n, p) = spec_factor(toks, pos)->Ok_0;
        lemma_addloop_after_termloop(toks, p, n);
    }
}

/// The statement grammar: zero or more statements `print` expression `;`,
/// ended by the end of the input.
pub open spec fn spec_statements(toks: Seq<TokenAt>, pos: int) -> Result<Seq<ASTNode>, CompileError>
    decreases toks.len() - pos,
        when pos >= 0
{
    if !(pos < toks.len()) {
        Ok(Seq::empty())
    } else if toks[pos].tok == Token::Eof {
        Ok(Seq::empty())
    } else if toks[pos].tok != Token::Print {
        Err(CompileError::Expected { what: Token::Print, found: toks[pos].tok, line: toks[pos].line })
    } else {
        let r = spec_expr(toks, pos + 1);
        proof {
            lemma_expr_advances(toks, pos + 1);
        }
        match r {
            Ok((n, p)) => if 0 <= p < toks.len() && toks[p].tok == Token::Semi {
                match spec_statements(toks, p + 1) {
                    Ok(rest) => Ok(seq![n] + rest),
                    Err(e) => Err(e),
                }
            } else {
                let found = if 0 <= p < toks.len() {
                    toks[p].tok
                } else {
                    Token::Eof
                };
                let line = if 0 <= p < toks.len() {
                    toks[p].line
                } else {
                    0
                };
                Err(CompileError::Expected { what: Token::Semi, found, line })
            },
            Err(e) => Err(e),
        }
    }
}

/// A whole input parsed as one bare expression: the expression must reach
/// the end of the input.
pub open spec fn spec_parse_expression(toks: Seq<TokenAt>) -> Result<ASTNode, CompileError> {
    match spec_expr(toks, 0) {
        Ok((n, p)) => if 0 <= p < toks.len() && toks[p].tok == Token::Eof {
            Ok(n)
        } else if 0 <= p < toks.len() {
            Err(CompileError::Syntax { found: toks[p].tok, line: toks[p].line })
        } else {
            Err(CompileError::Syntax { found: Token::Eof, line: 0 })
        },
        Err(e) => Err(e),
    }
}

/// The term loop preserves well-formedness of the tree it folds.
pub proof fn lemma_termloop_wf(toks: Seq<TokenAt>, pos: int, left: ASTNode)
    requires
        0 <= pos,
        left.wf(),
    ensures
        (match spec_termloop(toks, pos, left) {
            Ok((n, p)) => n.wf(),
            Err(_) => true,
        }),
    decreases toks.len() - pos,
{
    if pos < toks.len() {
        match toks[pos].tok {
            Token::Star | Token::Slash => {
                if spec_fac20(toks, pos + 1) is Ok {
                    let (right, p2) = spec_fac20(toks, pos + 1)->Ok_0;
                    lemma_termloop_advances(toks, pos, left);
                    assert(right.wf());
                    lemma_termloop_wf(
                        toks,
                        p2,
                        spec_bin(spec_arithop(toks[pos].tok), left, right),
                    );
                }
            },
            _ => {},
        }
    }
}

/// The expression loop preserves well-formedness of the tree it folds.
pub proof fn lemma_addloop_wf(toks: Seq<TokenAt>, pos: int, left: ASTNode)
    requires
        0 <= pos,
        left.wf(),
    ensures
        (match spec_addloop(toks, pos, left) {
            Ok((n, p)) => n.wf(),
            Err(_) => true,
        }),
    decreases toks.len() - pos,
{
    if pos < toks.len() {
        match toks[pos].tok {
            Token::Star | Token::Slash => {
                if spec_fac20(toks, pos + 1) is Ok {
                    let (right, p2) = spec_fac20(toks, pos + 1)->Ok_0;
                    assert(right.wf());
                    lemma_addloop_wf(toks, p2, spec_bin(spec_arithop(toks[pos].tok), left, right));
                }
            },
            Token::Plus | Token::Minus => {
                if spec_term(toks, pos + 1) is Ok {
                    let (right, p2) = spec_term(toks, pos + 1)->Ok_0;
                    lemma_term_wf(toks, pos + 1);
                    lemma_term_advances(toks, pos + 1);
                    lemma_addloop_wf(toks, p2, spec_bin(spec_arithop(toks[pos].tok), left, right));
                }
            },
            _ => {},
        }
    }
}

/// A successful term is a well-formed tree.
pub proof fn lemma_term_wf(toks: Seq<TokenAt>, pos: int)
    ensures
        (match spec_term(toks, pos) {
            Ok((n, p)) => n.wf(),
            Err(_) => true,
        }),
{
    if spec_factor(toks, pos) is Ok {
        let (left, p1) = spec_factor(toks, pos)->Ok_0;
        lemma_term_advances(toks, pos);
        lemma_termloop_wf(toks, p1, left);
    }
}

/// A successful expression is a well-formed tree.
pub proof fn lemma_expr_wf(toks: Seq<TokenAt>, pos: int)
    ensures
        (match spec_expr(toks, pos) {
            Ok((n, p)) => n.wf(),
            Err(_) => true,
        }),
{
    lemma_term_wf(toks, pos);
    if spec_term(toks, pos) is Ok {
        let (left, p1) = spec_term(toks, pos)->Ok_0;
        lemma_term_advances(toks, pos);
        lemma_addloop_wf(toks, p1, left);
    }
}

/// Every tree of a successful statement parse is well-formed.
pub proof fn lemma_statements_wf(toks: Seq<TokenAt>, pos: int)
    requires
        0 <= pos,
    ensures
        (match spec_statements(toks, pos) {
            Ok(stmts) => forall|i: int| 0 <= i < stmts.len() ==> (#[trigger] stmts[i]).wf(),
            Err(_) => true,
        }),
    decreases toks.len() - pos,
{
    if pos < toks.len() && toks[pos].tok == Token::Print {
        lemma_expr_advances(toks, pos + 1);
        if spec_expr(toks, pos + 1) is Ok {
            let (n, p) = spec_expr(toks, pos + 1)->Ok_0;
            lemma_expr_wf(toks, pos + 1);
            if 0 <= p < toks.len() && toks[p].tok == Token::Semi {
                lemma_statements_wf(toks, p + 1);
            }
        }
    }
}

/// The parser: the token stream and the cursor for the current token.
pub struct Parser {
    pub toks: Vec<TokenAt>,
    pub pos: usize,
}

impl Parser {
    /// The stream ends with an end-of-input token and the cursor is on a
    /// token.
    pub open spec fn wf(self) -> bool {
        wf_stream(self.toks@) && self.pos < self.toks@.len()
    }

    /// A parser at the start of a token stream.
    pub fn new(toks: Vec<TokenAt>) -> (p: Parser)
        requires
            wf_stream(toks@),
        ensures
            p.toks == toks,
            p.pos == 0,
            p.wf(),
    {
        Parser { toks, pos: 0 }
    }

    /// The current token.
    pub fn cur(&self) -> (t: TokenAt)
        requires
            self.wf(),
        ensures
            t == self.toks@[self.pos as int],
    {
        self.toks[self.pos]
    }

    /// The operator precedence of `tok`, or a syntax error if `tok` is
    /// not a binary operator at all.
    pub fn check_bin_op(&self, tok: Token) -> (r: Result<u32, CompileError>)
        requires
            self.wf(),
        ensures
            spec_op_prec(tok) != 0 ==> r == Ok::<u32, CompileError>(spec_op_prec(tok)),
            spec_op_prec(tok) == 0 ==> r == Err::<u32, CompileError>(CompileError::Syntax {
                found: tok,
                line: self.toks@[self.pos as int].line,
            }),
    {
        let prec = tok.op_prec();
        if prec == 0 {
            Err(CompileError::Syntax { found: tok, line: self.toks[self.pos].line })
        } else {
            Ok(prec)
        }
    }

    /// The tree operation of a binary operator token.
    pub fn arithop(&self, tok: Token) -> (op: ASTNodeType)
        requires
            spec_op_prec(tok) != 0,
        ensures
            op == spec_arithop(tok),
    {
        match tok {
            Token::Plus => ASTNodeType::Add,
            Token::Minus => ASTNodeType::Subtract,
            Token::Star => ASTNodeType::Multiply,
            Token::Slash => ASTNodeType::Divide,
            _ => ASTNodeType::Add,
        }
    }

    /// A primary expression: the current token must be an integer
    /// literal, which becomes a leaf.
    pub fn primary(&mut self) -> (r: Result<ASTNode, CompileError>)
        requires
            old(self).wf(),
        ensures
            final(self).toks == old(self).toks,
            (match spec_factor(old(self).toks@, old(self).pos as int) {
                Ok((n, p)) => r is Ok && r->Ok_0 == n && final(self).pos == p,
                Err(e) => r == Err::<ASTNode, CompileError>(e) && *final(self) == *old(self),
            }),
            r is Ok ==> final(self).wf(),
    {
        match self.cur().tok {
            Token::IntLit(v) => {
                let node = ASTNode::mkAstLeaf(ASTNodeType::IntLit(v));
                proof {
                    vstd::std_specs::vec::axiom_spec_len(&self.toks);
                }
                self.pos = self.pos + 1;
                proof {
                    assert(self.toks@[self.toks@.len() - 1].tok == Token::Eof);
                }
                Ok(node)
            },
            t => Err(CompileError::Syntax { found: t, line: self.toks[self.pos].line }),
        }
    }

    /// Precedence climbing from a primary: parse a subexpression all of
    /// whose operators bind tighter than `ptp`, folding left to right.
    #[verifier::loop_isolation(false)]
    pub fn binexpr(&mut self, ptp: u32) -> (r: Result<ASTNode, CompileError>)
        requires
            old(self).wf(),
            ptp == 0 || ptp == 10 || ptp == 20,
        ensures
            final(self).toks == old(self).toks,
            (match spec_binexpr(old(self).toks@, old(self).pos as int, ptp) {
                Ok((n, p)) => r is Ok && r->Ok_0 == n && final(self).pos == p && final(self).wf(),
                Err(e) => r == Err::<ASTNode, CompileError>(e),
            }),
            r is Ok ==> old(self).pos < final(self).pos,
        decreases old(self).toks@.len() - old(self).pos,
    {
        let ghost toks = self.toks@;
        let ghost pos0 = self.pos as int;
        let mut left = match self.primary() {
            Ok(n) => n,
            Err(e) => {
                return Err(e);
            },
        };
        loop
            invariant
                self.wf(),
                self.toks == old(self).toks,
                pos0 < self.pos,
                spec_binexpr(toks, pos0, ptp) == spec_level(toks, self.pos as int, left, ptp),
            decreases toks.len() - self.pos,
        {
            let tok = self.cur().tok;
            match tok {
                Token::Eof => {
                    return Ok(left);
                },
                Token::Semi => {
                    return Ok(left);
                },
                _ => {},
            }
            let prec = match self.check_bin_op(tok) {
                Ok(p) => p,
                Err(e) => {
                    return Err(e);
                },
            };
            if prec <= ptp {
                return Ok(left);
            }
            proof {
                vstd::std_specs::vec::axiom_spec_len(&self.toks);
            }
            self.pos = self.pos + 1;
            proof {
                assert(self.toks@[self.toks@.len() - 1].tok == Token::Eof);
                lemma_binexpr_levels(toks, self.pos as int);
            }
            let right = match self.binexpr(prec) {
                Ok(n) => n,
                Err(e) => {
                    return Err(e);
                },
            };
            left = ASTNode::mkASTNode(
                self.arithop(tok),
                Some(Box::new(left)),
                Some(Box::new(right)),
            );
        }
    }

    /// Parse one whole expression at the loosest binding level.
    pub fn expr(&mut self) -> (r: Result<ASTNode, CompileError>)
        requires
            old(self).wf(),
        ensures
            final(self).toks == old(self).toks,
            (match spec_expr(old(self).toks@, old(self).pos as int) {
                Ok((n, p)) => r is Ok && r->Ok_0 == n && final(self).pos == p && final(self).wf(),
                Err(e) => r == Err::<ASTNode, CompileError>(e),
            }),
    {
        proof {
            lemma_binexpr_levels(self.toks@, self.pos as int);
        }
        self.binexpr(0)
    }

    /// Demand that the current token is `ttoken` and step past it.
    pub fn match_token(&mut self, ttoken: Token) -> (r: Result<(), CompileError>)
        requires
            old(self).wf(),
        ensures
            final(self).toks == old(self).toks,
            (if old(self).toks@[old(self).pos as int].tok == ttoken {
                r is Ok && final(self).pos == old(self).pos + 1
            } else {
                r == Err::<(), CompileError>(CompileError::Expected {
                    what: ttoken,
                    found: old(self).toks@[old(self).pos as int].tok,
                    line: old(self).toks@[old(self).pos as int].line,
                }) && *final(self) == *old(self)
            }),
            r is Ok && old(self).toks@[old(self).pos as int].tok != Token::Eof ==> final(self).wf(),
    {
        let c = self.cur();
        if c.tok == ttoken {
            proof {
                vstd::std_specs::vec::axiom_spec_len(&self.toks);
            }
            self.pos = self.pos + 1;
            proof {
                if c.tok != Token::Eof {
                    assert(self.toks@[self.toks@.len() - 1].tok == Token::Eof);
                }
            }
            Ok(())
        } else {
            Err(CompileError::Expected { what: ttoken, found: c.tok, line: c.line })
        }
    }

    /// Demand the statement separator.
    pub fn semi(&mut self) -> (r: Result<(), CompileError>)
        requires
            old(self).wf(),
        ensures
            final(self).toks == old(self).toks,
            (if old(self).toks@[old(self).pos as int].tok == Token::Semi {
                r is Ok && final(self).pos == old(self).pos + 1 && final(self).wf()
            } else {
                r == Err::<(), CompileError>(CompileError::Expected {
                    what: Token::Semi,
                    found: old(self).toks@[old(self).pos as int].tok,
                    line: old(self).toks@[old(self).pos as int].line,
                }) && *final(self) == *old(self)
            }),
    {
        self.match_token(Token::Semi)
    }

    /// Parse the whole statement grammar: zero or more statements
    /// `print` expression `;`, ended by the end of the input; the parsed
    /// expressions are returned in source order.
    #[verifier::loop_isolation(false)]
    pub fn statements(&mut self) -> (r: Result<Vec<ASTNode>, CompileError>)
        requires
            old(self).wf(),
        ensures
            final(self).toks == old(self).toks,
            (match spec_statements(old(self).toks@, old(self).pos as int) {
                Ok(stmts) => r is Ok && r->Ok_0@ == stmts,
                Err(e) => r is Err && r->Err_0 == e,
            }),
    {
        let ghost toks = self.toks@;
        let ghost pos0 = self.pos as int;
        let mut stmts: Vec<ASTNode> = Vec::new();
        loop
            invariant
                self.wf(),
                self.toks == old(self).toks,
                spec_statements(toks, pos0) == (match spec_statements(toks, self.pos as int) {
                    Ok(rest) => Ok::<Seq<ASTNode>, CompileError>(stmts@ + rest),
                    Err(e) => Err::<Seq<ASTNode>, CompileError>(e),
                }),
            decreases toks.len() - self.pos,
        {
            if self.cur().tok == Token::Eof {
                proof {
                    assert(stmts@ + Seq::<ASTNode>::empty() =~= stmts@);
                }
                return Ok(stmts);
            }
            match self.match_token(Token::Print) {
                Ok(()) => {},
                Err(e) => {
                    return Err(e);
                },
            }
            proof {
                lemma_expr_advances(toks, self.pos as int);
            }
            let n = match self.expr() {
                Ok(n) => n,
                Err(e) => {
                    return Err(e);
                },
            };
            match self.semi() {
                Ok(()) => {},
                Err(e) => {
                    return Err(e);
                },
            }
            let ghost pre = stmts@;
            stmts.push(n);
            proof {
                assert(stmts@ =~= pre + seq![n]);
                if spec_statements(toks, self.pos as int) is Ok {
                    let rest = spec_statements(toks, self.pos as int)->Ok_0;
                    assert(pre + (seq![n] + rest) =~= (pre + seq![n]) + rest);
                }
            }
        }
    }
}

/// Parse a whole token stream as one bare expression ended by the end of
/// the input.
pub fn parse_expression(toks: Vec<TokenAt>) -> (r: Result<ASTNode, CompileError>)
    requires
        wf_stream(toks@),
    ensures
        (match spec_parse_expression(toks@) {
            Ok(n) => r is Ok && r->Ok_0 == n && n.wf(),
            Err(e) => r == Err::<ASTNode, CompileError>(e),
        }),
{
    proof {
        lemma_expr_wf(toks@, 0);
        lemma_expr_advances(toks@, 0);
    }
    let mut p = Parser::new(toks);
    let n = match p.expr() {
        Ok(n) => n,
        Err(e) => {
            return Err(e);
        },
    };
    let c = p.cur();
    if c.tok == Token::Eof {
        Ok(n)
    } else {
        Err(CompileError::Syntax { found: c.tok, line: c.line })
    }
}

/// Parse a whole token stream as the statement grammar.
pub fn parse_statements(toks: Vec<TokenAt>) -> (r: Result<Vec<ASTNode>, CompileError>)
    requires
        wf_stream(toks@),
    ensures
        (match spec_statements(toks@, 0) {
            Ok(stmts) => r is Ok && r->Ok_0@ == stmts && (forall|i: int|
                0 <= i < stmts.len() ==> (#[trigger] stmts[i]).wf()),
            Err(e) => r is Err && r->Err_0 == e,
        }),
{
    proof {
        lemma_statements_wf(toks@, 0);
    }
    let mut p = Parser::new(toks);
    p.statements()
}

} // verus!
