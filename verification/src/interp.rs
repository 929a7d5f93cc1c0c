use vstd::prelude::*;
use crate::ast::{ASTNode, ASTNodeType};
use crate::error::EvalError;

verus! {

/// One line of the interpreter's trace: a literal leaf, or a binary
/// operation over the two values its children produced.
#[derive(Clone, Copy, Debug, PartialEq, Eq, Structural)]
pub enum TraceLine {
    Leaf { value: i64 },
    Bin { left: i64, op: ASTNodeType, right: i64 },
}

/// What interpreting a tree produces: a value and the whole trace, or a
/// fault and the trace of everything up to and including the faulting
/// operation's line.
pub enum InterpStep {
    Value { v: i64, trace: Seq<TraceLine> },
    Fault { err: EvalError, trace: Seq<TraceLine> },
}

/// A node's operation applied to the values of its children, in signed
/// 64-bit arithmetic: division by zero and any result outside the 64-bit
/// range are faults.
pub open spec fn spec_apply(op: ASTNodeType, l: i64, r: i64) -> Result<i64, EvalError> {
    match op {
        ASTNodeType::Add => match l.checked_add(r) {
            Some(v) => Ok(v),
            None => Err(EvalError::Overflow),
        },
        ASTNodeType::Subtract => match l.checked_sub(r) {
            Some(v) => Ok(v),
            None => Err(EvalError::Overflow),
        },
        ASTNodeType::Multiply => match l.checked_mul(r) {
            Some(v) => Ok(v),
            None => Err(EvalError::Overflow),
        },
        ASTNodeType::Divide => if r == 0 {
            Err(EvalError::DivisionByZero)
        } else {
            match l.checked_div(r) {
                Some(v) => Ok(v),
                None => Err(EvalError::Overflow),
            }
        },
        ASTNodeType::IntLit(v) => Ok(v),
    }
}

/// The trace line a node emits once its children's values are known.
pub open spec fn spec_trace_line(op: ASTNodeType, lv: i64, rv: i64) -> TraceLine {
    match op {
        ASTNodeType::IntLit(v) => TraceLine::Leaf { value: v },
        _ => TraceLine::Bin { left: lv, op, right: rv },
    }
}

/// Tree-walking interpretation: left child, then right child, then the
/// node's own trace line and operation; a missing child contributes 0.
pub open spec fn spec_interp(node: ASTNode) -> InterpStep
    decreases node,
{
    let lstep = match node.left {
        Some(l) => spec_interp(*l),
        None => InterpStep::Value { v: 0, trace: Seq::empty() },
    };
    match lstep {
        InterpStep::Fault { err, trace } => InterpStep::Fault { err, trace },
        InterpStep::Value { v: lv, trace: lt } => {
            let rstep = match node.right {
                Some(r) => spec_interp(*r),
                None => InterpStep::Value { v: 0, trace: Seq::empty() },
            };
            match rstep {
                InterpStep::Fault { err, trace: rt } => InterpStep::Fault { err, trace: lt + rt },
                InterpStep::Value { v: rv, trace: rt } => {
                    let tr = lt + rt + seq![spec_trace_line(node.op, lv, rv)];
                    match spec_apply(node.op, lv, rv) {
                        Ok(v) => InterpStep::Value { v, trace: tr },
                        Err(e) => InterpStep::Fault { err: e, trace: tr },
                    }
                },
            }
        },
    }
}

/// What a statement list prints when each statement is interpreted in
/// order: the values of the statements before the first fault, and the
/// fault if there is one.
pub open spec fn spec_program_out(stmts: Seq<ASTNode>) -> (Seq<i64>, Option<EvalError>)
    decreases stmts.len(),
{
    if stmts.len() == 0 {
        (Seq::empty(), None)
    } else {
        match spec_program_out(stmts.drop_last()) {
            (outs, None) => match spec_interp(stmts.last()) {
                InterpStep::Value { v, .. } => (outs.push(v), None),
                InterpStep::Fault { err, .. } => (outs, Some(err)),
            },
            (outs, Some(e)) => (outs, Some(e)),
        }
    }
}

/// The trace of a statement list: each statement's trace in order, up to
/// and including the trace of the first faulting statement.
pub open spec fn spec_program_trace(stmts: Seq<ASTNode>) -> Seq<TraceLine>
    decreases stmts.len(),
{
    if stmts.len() == 0 {
        Seq::empty()
    } else {
        match spec_program_out(stmts.drop_last()) {
            (_, None) => spec_program_trace(stmts.drop_last()) + (match spec_interp(stmts.last()) {
                InterpStep::Value { trace, .. } => trace,
                InterpStep::Fault { trace, .. } => trace,
            }),
            (_, Some(e)) => spec_program_trace(stmts.drop_last()),
        }
    }
}

/// Interpret a statement list in order: each statement's value lands in
/// `outs` and its trace lines in `trace`, until the first fault, whose
/// partial trace is still emitted.
#[verifier::loop_isolation(false)]
pub fn interpret_statements(stmts: &Vec<ASTNode>, outs: &mut Vec<i64>, trace: &mut Vec<TraceLine>) -> (r: Result<(), EvalError>)
    ensures
        (match spec_program_out(stmts@) {
            (vals, None) => r is Ok && final(outs)@ == old(outs)@ + vals,
            (vals, Some(e)) => r == Err::<(), EvalError>(e) && final(outs)@ == old(outs)@ + vals,
        }),
        final(trace)@ == old(trace)@ + spec_program_trace(stmts@),
{
    let ghost outs0 = outs@;
    let ghost trace0 = trace@;
    let mut i: usize = 0;
    proof {
        assert(stmts@.take(0) =~= Seq::<ASTNode>::empty());
        assert(outs0 + Seq::<i64>::empty() =~= outs0);
        assert(trace0 + Seq::<TraceLine>::empty() =~= trace0);
    }
    while i < stmts.len()
        invariant
            0 <= i <= stmts@.len(),
            spec_program_out(stmts@.take(i as int)).1 is None,
            outs@ == outs0 + spec_program_out(stmts@.take(i as int)).0,
            trace@ == trace0 + spec_program_trace(stmts@.take(i as int)),
        decreases stmts@.len() - i,
    {
        let ghost pre_take = stmts@.take(i as int);
        proof {
            assert(stmts@.take(i + 1).drop_last() =~= pre_take);
            assert(stmts@.take(i + 1).last() == stmts@[i as int]);
        }
        match interpret_ast(&stmts[i], trace) {
            Ok(v) => {
                outs.push(v);
                proof {
                    let vals = spec_program_out(pre_take).0;
                    assert(outs@ =~= outs0 + vals.push(v));
                    let tr = spec_interp(stmts@[i as int])->Value_trace;
                    assert(trace@ =~= trace0 + (spec_program_trace(pre_take) + tr));
                }
            },
            Err(e) => {
                proof {
                    let tr = spec_interp(stmts@[i as int])->Fault_trace;
                    assert(trace@ =~= trace0 + (spec_program_trace(pre_take) + tr));
                    assert(spec_program_trace(stmts@) == spec_program_trace(stmts@.take(i + 1))
                        && spec_program_out(stmts@) == spec_program_out(stmts@.take(i + 1))) by {
                        lemma_program_fault_stops(stmts@, i + 1);
                    }
                }
                return Err(e);
            },
        }
        i = i + 1;
    }
    proof {
        assert(stmts@.take(stmts@.len() as int) =~= stmts@);
    }
    Ok(())
}

/// Once a prefix of a statement list faults, the rest of the list changes
/// neither what is printed nor the trace.
pub proof fn lemma_program_fault_stops(stmts: Seq<ASTNode>, k: int)
    requires
        0 <= k <= stmts.len(),
        spec_program_out(stmts.take(k)).1 is Some,
    ensures
        spec_program_out(stmts) == spec_program_out(stmts.take(k)),
        spec_program_trace(stmts) == spec_program_trace(stmts.take(k)),
    decreases stmts.len() - k,
{
    if k < stmts.len() {
        assert(stmts.take(k + 1).drop_last() =~= stmts.take(k));
        lemma_program_fault_stops(stmts, k + 1);
    } else {
        assert(stmts.take(k) =~= stmts);
    }
}

/// Interpret a tree, appending its trace lines to `trace` in evaluation
/// order; stops at the first fault, whose trace line is still emitted.
pub fn interpret_ast(node: &ASTNode, trace: &mut Vec<TraceLine>) -> (r: Result<i64, EvalError>)
    ensures
        (match spec_interp(*node) {
            InterpStep::Value { v, trace: tr } => r == Ok::<i64, EvalError>(v) && final(trace)@
                == old(trace)@ + tr,
            InterpStep::Fault { err, trace: tr } => r == Err::<i64, EvalError>(err)
                && final(trace)@ == old(trace)@ + tr,
        }),
    decreases *node,
{
    let ghost t0 = trace@;
    let ghost lt = (match &node.left {
        Some(l) => match spec_interp(**l) {
            InterpStep::Value { trace: tr, .. } => tr,
            InterpStep::Fault { trace: tr, .. } => tr,
        },
        None => Seq::<TraceLine>::empty(),
    });
    let ghost rt = (match &node.right {
        Some(r) => match spec_interp(**r) {
            InterpStep::Value { trace: tr, .. } => tr,
            InterpStep::Fault { trace: tr, .. } => tr,
        },
        None => Seq::<TraceLine>::empty(),
    });
    let mut left_val: i64 = 0;
    let mut right_val: i64 = 0;
    match &node.left {
        Some(left_node) => {
            match interpret_ast(&**left_node, trace) {
                Ok(v) => {
                    left_val = v;
                },
                Err(e) => {
                    return Err(e);
                },
            }
        },
        None => {
            proof {
                assert(t0 + Seq::<TraceLine>::empty() =~= t0);
            }
        },
    }
    match &node.right {
        Some(right_node) => {
            match interpret_ast(&**right_node, trace) {
                Ok(v) => {
                    right_val = v;
                },
                Err(e) => {
                    proof {
                        assert(t0 + (lt + rt) =~= (t0 + lt) + rt);
                    }
                    return Err(e);
                },
            }
        },
        None => {
            proof {
                assert((t0 + lt) + Seq::<TraceLine>::empty() =~= t0 + lt);
            }
        },
    }
    let line = match node.op {
        ASTNodeType::IntLit(v) => TraceLine::Leaf { value: v },
        op => TraceLine::Bin { left: left_val, op, right: right_val },
    };
    trace.push(line);
    proof {
        assert(trace@ =~= t0 + (lt + rt + seq![line]));
    }
    match node.op {
        ASTNodeType::Add => match left_val.checked_add(right_val) {
            Some(v) => Ok(v),
            None => Err(EvalError::Overflow),
        },
        ASTNodeType::Subtract => match left_val.checked_sub(right_val) {
            Some(v) => Ok(v),
            None => Err(EvalError::Overflow),
        },
        ASTNodeType::Multiply => match left_val.checked_mul(right_val) {
            Some(v) => Ok(v),
            None => Err(EvalError::Overflow),
        },
        ASTNodeType::Divide => if right_val == 0 {
            Err(EvalError::DivisionByZero)
        } else {
            match left_val.checked_div(right_val) {
                Some(v) => Ok(v),
                None => Err(EvalError::Overflow),
            }
        },
        ASTNodeType::IntLit(v) => Ok(v),
    }
}

} // verus!
