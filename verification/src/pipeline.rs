use vstd::prelude::*;
use crate::token::TokenAt;
use crate::ast::ASTNode;
use crate::error::{CompileError, EvalError};
use crate::lexer::{init_view, lemma_lex_ends_eof, spec_tokenize, tokenize};
use crate::parser::{
    parse_expression, parse_statements, spec_parse_expression, spec_statements, wf_stream,
};
use crate::interp::{interpret_ast, spec_interp, spec_program_out, InterpStep, TraceLine};
use crate::asmgen::{generate_code, spec_generate_code, spec_need};
use crate::ir::{ir_wf, lower_statements, spec_lower_program, spec_run, IrInstr, IrState};

verus! {

/// Why a source run failed: the source was rejected on the way to a tree,
/// or evaluating the tree faulted.
#[derive(Clone, Debug, PartialEq)]
pub enum SourceError {
    Compile(CompileError),
    Eval(EvalError),
}

/// The tree of a source holding one bare expression.
pub open spec fn spec_expr_of_source(input: Seq<u8>) -> Result<ASTNode, CompileError> {
    match spec_tokenize(input) {
        Ok(toks) => spec_parse_expression(toks),
        Err(e) => Err(e),
    }
}

/// The trees of a source holding the statement grammar.
pub open spec fn spec_statements_of_source(input: Seq<u8>) -> Result<Seq<ASTNode>, CompileError> {
    match spec_tokenize(input) {
        Ok(toks) => spec_statements(toks, 0),
        Err(e) => Err(e),
    }
}

/// The direct left-to-right value of a whole bare-expression source:
/// lex, then evaluate the token stream with `*` and `/` binding tighter
/// than `+` and `-`, demanding that the expression reaches the end of
/// the input — no tree in between.
pub open spec fn spec_eval_source(input: Seq<u8>) -> Result<Result<i64, EvalError>, CompileError> {
    match spec_tokenize(input) {
        Ok(toks) => match crate::semantics::spec_eval_expr(toks, 0) {
            Ok((v, p)) => if 0 <= p < toks.len() && toks[p].tok == crate::token::Token::Eof {
                Ok(v)
            } else if 0 <= p < toks.len() {
                Err(CompileError::Syntax { found: toks[p].tok, line: toks[p].line })
            } else {
                Err(CompileError::Syntax { found: crate::token::Token::Eof, line: 0 })
            },
            Err(e) => Err(e),
        },
        Err(e) => Err(e),
    }
}

/// For every source, interpreting the parsed expression computes exactly
/// the source's direct left-to-right evaluation: the same value, the
/// same arithmetic fault, or the same error.
pub proof fn interpretation_is_direct_evaluation(input: Seq<u8>)
    ensures
        (match (spec_expr_of_source(input), spec_eval_source(input)) {
            (Ok(t), Ok(v)) => crate::semantics::spec_outcome(t) == v,
            (Err(e), Err(e2)) => e == e2,
            _ => false,
        }),
{
    if spec_tokenize(input) is Ok {
        let toks = spec_tokenize(input)->Ok_0;
        crate::semantics::interpreter_is_left_to_right_evaluation(toks, 0);
    }
}

/// Boundary: the empty source means zero statements — immediate end of
/// input, not an error.
pub proof fn empty_source_is_no_statements()
    ensures
        spec_statements_of_source(Seq::<u8>::empty()) == Ok::<Seq<ASTNode>, CompileError>(
            Seq::<ASTNode>::empty(),
        ),
{
    crate::lexer::empty_input_lexes_to_eof();
}

/// Lex and parse a source as one bare expression.
pub fn parse_source_expression(input: Vec<u8>) -> (r: Result<ASTNode, CompileError>)
    requires
        input@.len() < usize::MAX,
    ensures
        (match spec_expr_of_source(input@) {
            Ok(n) => r is Ok && r->Ok_0 == n && n.wf(),
            Err(e) => r == Err::<ASTNode, CompileError>(e),
        }),
{
    proof {
        lemma_lex_ends_eof(init_view(input@));
    }
    let toks = match tokenize(input) {
        Ok(t) => t,
        Err(e) => {
            return Err(e);
        },
    };
    parse_expression(toks)
}

/// Lex and parse a source as the statement grammar.
pub fn parse_source_statements(input: Vec<u8>) -> (r: Result<Vec<ASTNode>, CompileError>)
    requires
        input@.len() < usize::MAX,
    ensures
        (match spec_statements_of_source(input@) {
            Ok(stmts) => r is Ok && r->Ok_0@ == stmts && (forall|i: int|
                0 <= i < stmts.len() ==> (#[trigger] stmts[i]).wf()),
            Err(e) => r is Err && r->Err_0 == e,
        }),
{
    proof {
        lemma_lex_ends_eof(init_view(input@));
    }
    let toks = match tokenize(input) {
        Ok(t) => t,
        Err(e) => {
            return Err(e);
        },
    };
    parse_statements(toks)
}

/// Interpret a bare-expression source end to end. For every input the
/// result is the left-to-right evaluation of the source's expression,
/// with `*` and `/` binding tighter than `+` and `-`, in signed 64-bit
/// arithmetic, together with the full evaluation trace.
pub fn interpret_source(input: Vec<u8>, trace: &mut Vec<TraceLine>) -> (r: Result<i64, SourceError>)
    requires
        input@.len() < usize::MAX,
    ensures
        (match spec_expr_of_source(input@) {
            Ok(n) => match spec_interp(n) {
                InterpStep::Value { v, trace: tr } => r == Ok::<i64, SourceError>(v)
                    && final(trace)@ == old(trace)@ + tr,
                InterpStep::Fault { err, trace: tr } => r == Err::<i64, SourceError>(
                    SourceError::Eval(err),
                ) && final(trace)@ == old(trace)@ + tr,
            },
            Err(e) => r == Err::<i64, SourceError>(SourceError::Compile(e)) && final(trace)@ == old(
                trace,
            )@,
        }),
{
    let node = match parse_source_expression(input) {
        Ok(n) => n,
        Err(e) => {
            return Err(SourceError::Compile(e));
        },
    };
    match interpret_ast(&node, trace) {
        Ok(v) => Ok(v),
        Err(e) => Err(SourceError::Eval(e)),
    }
}

/// Compile a bare-expression source to the whole assembly program that
/// prints its value. Succeeds exactly when the source parses and its
/// tree fits the four scratch registers.
pub fn compile_source_to_asm(input: Vec<u8>) -> (r: Result<String, CompileError>)
    requires
        input@.len() < usize::MAX,
    ensures
        (match spec_expr_of_source(input@) {
            Ok(n) => (match spec_generate_code(n) {
                Ok(text) => r is Ok && r->Ok_0@ == text,
                Err(e) => r == Err::<String, CompileError>(e),
            }) && (r is Ok <==> spec_need(n) <= 4),
            Err(e) => r == Err::<String, CompileError>(e),
        }),
{
    let node = match parse_source_expression(input) {
        Ok(n) => n,
        Err(e) => {
            return Err(e);
        },
    };
    generate_code(&node)
}

/// Compile a statement-grammar source to the portable instruction form.
/// Running the program prints, statement by statement, exactly the values
/// the interpreter computes, and faults exactly where the interpreter
/// would fault.
pub fn compile_statements_to_ir(input: Vec<u8>) -> (r: Result<Vec<IrInstr>, CompileError>)
    requires
        input@.len() < usize::MAX,
    ensures
        (match spec_statements_of_source(input@) {
            Ok(stmts) => r is Ok && ir_wf(r->Ok_0@) && r->Ok_0@ == spec_lower_program(stmts) && (match spec_program_out(stmts) {
                (outs, None) => (match spec_run(r->Ok_0@) {
                    IrState::Run { vals, out } => out == outs,
                    IrState::Fault { .. } => false,
                }),
                (outs, Some(e)) => spec_run(r->Ok_0@) == (IrState::Fault { out: outs, err: e }),
            }),
            Err(e) => r is Err && r->Err_0 == e,
        }),
{
    let stmts = match parse_source_statements(input) {
        Ok(s) => s,
        Err(e) => {
            return Err(e);
        },
    };
    Ok(lower_statements(&stmts))
}

} // verus!
