use vstd::prelude::*;
use crate::ast::{ASTNode, ASTNodeType};
use crate::error::EvalError;
use crate::interp::{spec_apply, spec_interp, spec_program_out, InterpStep};

verus! {

/// One instruction of the portable form. Every instruction produces one
/// value; a value slot is named by the index of the instruction that
/// produced it. `Print` passes its operand through and also emits it.
#[derive(Clone, Copy, Debug, PartialEq, Eq, Structural)]
pub enum IrInstr {
    Const { value: i64 },
    Add { a: usize, b: usize },
    Sub { a: usize, b: usize },
    Mul { a: usize, b: usize },
    Div { a: usize, b: usize },
    Print { src: usize },
}

/// An instruction may only read slots produced before it.
pub open spec fn instr_wf(i: IrInstr, bound: int) -> bool {
    match i {
        IrInstr::Const { .. } => true,
        IrInstr::Add { a, b } => a < bound && b < bound,
        IrInstr::Sub { a, b } => a < bound && b < bound,
        IrInstr::Mul { a, b } => a < bound && b < bound,
        IrInstr::Div { a, b } => a < bound && b < bound,
        IrInstr::Print { src } => src < bound,
    }
}

/// A whole program reads only slots already produced.
pub open spec fn ir_wf(code: Seq<IrInstr>) -> bool {
    forall|i: int| 0 <= i < code.len() ==> instr_wf(#[trigger] code[i], i)
}

/// The state of a run: the values of all produced slots and everything
/// printed so far, or the first fault together with what was printed
/// before it.
pub enum IrState {
    Run { vals: Seq<i64>, out: Seq<i64> },
    Fault { out: Seq<i64>, err: EvalError },
}

/// One instruction executed in a running state, with the same signed
/// 64-bit arithmetic as the interpreter.
pub open spec fn spec_exec_instr(i: IrInstr, vals: Seq<i64>, out: Seq<i64>) -> IrState {
    match i {
        IrInstr::Const { value } => IrState::Run { vals: vals.push(value), out },
        IrInstr::Add { a, b } => match spec_apply(ASTNodeType::Add, vals[a as int], vals[b as int]) {
            Ok(v) => IrState::Run { vals: vals.push(v), out },
            Err(e) => IrState::Fault { out, err: e },
        },
        IrInstr::Sub { a, b } => match spec_apply(
            ASTNodeType::Subtract,
            vals[a as int],
            vals[b as int],
        ) {
            Ok(v) => IrState::Run { vals: vals.push(v), out },
            Err(e) => IrState::Fault { out, err: e },
        },
        IrInstr::Mul { a, b } => match spec_apply(
            ASTNodeType::Multiply,
            vals[a as int],
            vals[b as int],
        ) {
            Ok(v) => IrState::Run { vals: vals.push(v), out },
            Err(e) => IrState::Fault { out, err: e },
        },
        IrInstr::Div { a, b } => match spec_apply(
            ASTNodeType::Divide,
            vals[a as int],
            vals[b as int],
        ) {
            Ok(v) => IrState::Run { vals: vals.push(v), out },
            Err(e) => IrState::Fault { out, err: e },
        },
        IrInstr::Print { src } => IrState::Run {
            vals: vals.push(vals[src as int]),
            out: out.push(vals[src as int]),
        },
    }
}

/// Running a whole program from the empty state; a fault stops the run,
/// and everything after it is dead.
pub open spec fn spec_run(code: Seq<IrInstr>) -> IrState
    decreases code.len(),
{
    if code.len() == 0 {
        IrState::Run { vals: Seq::empty(), out: Seq::empty() }
    } else {
        match spec_run(code.drop_last()) {
            IrState::Run { vals, out } => spec_exec_instr(code.last(), vals, out),
            IrState::Fault { out, err } => IrState::Fault { out, err },
        }
    }
}

/// In a running state every instruction so far has produced one slot.
pub proof fn lemma_run_len(code: Seq<IrInstr>)
    ensures
        (match spec_run(code) {
            IrState::Run { vals, out } => vals.len() == code.len(),
            IrState::Fault { .. } => true,
        }),
    decreases code.len(),
{
    if code.len() > 0 {
        lemma_run_len(code.drop_last());
    }
}

/// The instruction of a binary tree operation over slots `a` and `b`.
pub open spec fn spec_op_instr(op: ASTNodeType, a: int, b: int) -> IrInstr {
    match op {
        ASTNodeType::Subtract => IrInstr::Sub { a: a as usize, b: b as usize },
        ASTNodeType::Multiply => IrInstr::Mul { a: a as usize, b: b as usize },
        ASTNodeType::Divide => IrInstr::Div { a: a as usize, b: b as usize },
        _ => IrInstr::Add { a: a as usize, b: b as usize },
    }
}

/// How many instructions a tree lowers to: one per node.
pub open spec fn spec_size(n: ASTNode) -> int
    decreases n,
{
    match n.op {
        ASTNodeType::IntLit(_) => 1,
        _ => match (n.left, n.right) {
            (Some(l), Some(r)) => spec_size(*l) + spec_size(*r) + 1,
            _ => 0,
        },
    }
}

/// The instructions a tree lowers to when its first instruction will sit
/// at slot `base`: the left subtree, the right subtree, then one
/// operation over the slots of the two subtree results.
pub open spec fn spec_lower(n: ASTNode, base: int) -> Seq<IrInstr>
    decreases n,
{
    match n.op {
        ASTNodeType::IntLit(v) => seq![IrInstr::Const { value: v }],
        op => match (n.left, n.right) {
            (Some(l), Some(r)) => {
                let cl = spec_lower(*l, base);
                let cr = spec_lower(*r, base + cl.len());
                cl + cr + seq![
                    spec_op_instr(op, base + cl.len() - 1, base + cl.len() + cr.len() - 1),
                ]
            },
            _ => Seq::empty(),
        },
    }
}

/// A well-formed tree has at least one node.
pub proof fn lemma_size_pos(n: ASTNode)
    requires
        n.wf(),
    ensures
        spec_size(n) >= 1,
    decreases n,
{
    match n.op {
        ASTNodeType::IntLit(_) => {},
        _ => match (n.left, n.right) {
            (Some(l), Some(r)) => {
                lemma_size_pos(*l);
                lemma_size_pos(*r);
            },
            _ => {},
        },
    }
}

/// A tree lowers to exactly one instruction per node, wherever it sits.
pub proof fn lemma_lower_len(n: ASTNode, base: int)
    ensures
        spec_lower(n, base).len() == spec_size(n),
    decreases n,
{
    match n.op {
        ASTNodeType::IntLit(_) => {},
        _ => match (n.left, n.right) {
            (Some(l), Some(r)) => {
                lemma_lower_len(*l, base);
                lemma_lower_len(*r, base + spec_lower(*l, base).len());
            },
            _ => {},
        },
    }
}

/// Appending a tree's lowering to a program extends its run as the
/// interpreter says: in a running state the new last slot holds the
/// tree's value and nothing is printed, unless the interpreter faults,
/// in which case the run faults with the same error; a faulted run stays
/// as it is.
#[verifier::rlimit(50)]
pub proof fn lemma_lower_runs(n: ASTNode, code: Seq<IrInstr>)
    requires
        n.wf(),
        code.len() + spec_size(n) <= usize::MAX,
    ensures
        (match spec_run(code) {
            IrState::Run { vals, out } => match spec_interp(n) {
                InterpStep::Value { v, .. } => (match spec_run(code + spec_lower(n, code.len() as int)) {
                    IrState::Run { vals: vals2, out: out2 } => out2 == out && vals.is_prefix_of(
                        vals2,
                    ) && vals2.len() == code.len() + spec_size(n) && vals2.last() == v,
                    IrState::Fault { .. } => false,
                }),
                InterpStep::Fault { err, .. } => spec_run(code + spec_lower(n, code.len() as int))
                    == (IrState::Fault { out, err }),
            },
            IrState::Fault { out, err } => spec_run(code + spec_lower(n, code.len() as int))
                == (IrState::Fault { out, err }),
        }),
    decreases n,
{
    lemma_run_len(code);
    lemma_lower_len(n, code.len() as int);
    match n.op {
        ASTNodeType::IntLit(v) => {
            let code2 = code + spec_lower(n, code.len() as int);
            assert(code2.drop_last() =~= code);
            match spec_run(code) {
                IrState::Run { vals, out } => {
                    assert(vals.is_prefix_of(vals.push(v))) by {
                        assert(vals =~= vals.push(v).take(vals.len() as int));
                    }
                },
                IrState::Fault { .. } => {},
            }
        },
        op => match (n.left, n.right) {
            (Some(l), Some(r)) => {
                lemma_lower_len(*l, code.len() as int);
                lemma_size_pos(*l);
                lemma_size_pos(*r);
                let cl = spec_lower(*l, code.len() as int);
                let mid = code + cl;
                lemma_lower_runs(*l, code);
                lemma_run_len(mid);
                lemma_lower_len(*r, mid.len() as int);
                let cr = spec_lower(*r, mid.len() as int);
                let mid2 = mid + cr;
                lemma_lower_runs(*r, mid);
                lemma_run_len(mid2);
                let a = mid.len() - 1;
                let b = mid2.len() - 1;
                let instr = spec_op_instr(op, a, b);
                let code2 = code + spec_lower(n, code.len() as int);
                assert(code2 =~= mid2 + seq![instr]);
                assert(code2.drop_last() =~= mid2);
                match spec_run(code) {
                    IrState::Run { vals, out } => {
                        match spec_interp(*l) {
                            InterpStep::Value { v: lv, .. } => {
                                let vals1 = spec_run(mid)->Run_vals;
                                match spec_interp(*r) {
                                    InterpStep::Value { v: rv, .. } => {
                                        assert(spec_run(mid2) is Run);
                                        let vals2 = spec_run(mid2)->Run_vals;
                                        assert(vals1.len() == mid.len());
                                        assert(vals2.len() == mid2.len());
                                        assert(0 <= a < vals1.len());
                                        assert(vals1.is_prefix_of(vals2));
                                        assert(vals2[a] == vals1[a]) by {
                                            assert(vals1 =~= vals2.take(vals1.len() as int));
                                            assert(vals1[a] == vals2.take(
                                                vals1.len() as int,
                                            )[a]);
                                            assert(vals2.take(vals1.len() as int)[a]
                                                == vals2[a]);
                                        }
                                        assert(vals2[a] == lv);
                                        assert(vals2[b] == rv);
                                        assert(vals.is_prefix_of(vals2)) by {
                                            assert(vals =~= vals1.take(vals.len() as int));
                                            assert(vals1 =~= vals2.take(vals1.len() as int));
                                            assert(vals =~= vals2.take(vals.len() as int));
                                        }
                                        match spec_apply(op, lv, rv) {
                                            Ok(v) => {
                                                assert(vals.is_prefix_of(vals2.push(v))) by {
                                                    assert(vals =~= vals2.push(v).take(
                                                        vals.len() as int,
                                                    ));
                                                }
                                            },
                                            Err(_) => {},
                                        }
                                    },
                                    InterpStep::Fault { .. } => {},
                                }
                            },
                            InterpStep::Fault { .. } => {},
                        }
                    },
                    IrState::Fault { .. } => {},
                }
            },
            _ => {},
        },
    }
}

/// The whole program a statement list lowers to: each statement's
/// lowering followed by a print of its result slot, in source order.
pub open spec fn spec_lower_program(stmts: Seq<ASTNode>) -> Seq<IrInstr>
    decreases stmts.len(),
{
    if stmts.len() == 0 {
        Seq::empty()
    } else {
        let prefix = spec_lower_program(stmts.drop_last());
        let body = spec_lower(stmts.last(), prefix.len() as int);
        prefix + body + seq![
            IrInstr::Print { src: (prefix.len() + body.len() - 1) as usize },
        ]
    }
}

/// The law of the portable backend: running the program a statement list
/// lowers to prints exactly the values the interpreter computes for the
/// statements in order, and faults with the interpreter's first fault.
pub proof fn ir_backend_matches_interpreter(stmts: Seq<ASTNode>)
    requires
        forall|i: int| 0 <= i < stmts.len() ==> (#[trigger] stmts[i]).wf(),
        spec_lower_program(stmts).len() <= usize::MAX,
    ensures
        (match spec_program_out(stmts) {
            (outs, None) => (match spec_run(spec_lower_program(stmts)) {
                IrState::Run { vals, out } => out == outs,
                IrState::Fault { .. } => false,
            }),
            (outs, Some(e)) => spec_run(spec_lower_program(stmts)) == (IrState::Fault {
                out: outs,
                err: e,
            }),
        }),
    decreases stmts.len(),
{
    if stmts.len() > 0 {
        let prefix_stmts = stmts.drop_last();
        let last = stmts.last();
        let prefix = spec_lower_program(prefix_stmts);
        let body = spec_lower(last, prefix.len() as int);
        lemma_lower_len(last, prefix.len() as int);
        assert(spec_lower_program(stmts).len() == prefix.len() + body.len() + 1);
        assert(forall|i: int|
            0 <= i < prefix_stmts.len() ==> (#[trigger] prefix_stmts[i]).wf()) by {
            assert(forall|i: int|
                0 <= i < prefix_stmts.len() ==> prefix_stmts[i] == stmts[i]);
        }
        ir_backend_matches_interpreter(prefix_stmts);
        assert(last.wf()) by {
            assert(stmts[stmts.len() - 1].wf());
        }
        lemma_lower_runs(last, prefix);
        lemma_run_len(prefix + body);
        let code2 = prefix + body;
        let src = code2.len() - 1;
        let whole = spec_lower_program(stmts);
        assert(whole =~= code2 + seq![IrInstr::Print { src: src as usize }]);
        assert(whole.drop_last() =~= code2);
    }
}

/// Lower one tree to instructions appended to `code`, returning the slot
/// that will hold its value. Lowering never fails; whether the lowered
/// code runs or faults mirrors the interpreter exactly.
pub fn build_ast(node: &ASTNode, code: &mut Vec<IrInstr>) -> (r: usize)
    requires
        node.wf(),
        ir_wf(old(code)@),
    ensures
        ir_wf(final(code)@),
        final(code)@ == old(code)@ + spec_lower(*node, old(code)@.len() as int),
        old(code)@.is_prefix_of(final(code)@),
        final(code)@.len() >= old(code)@.len() + 1,
        r == final(code)@.len() - 1,
        (match spec_run(old(code)@) {
            IrState::Run { vals, out } => match spec_interp(*node) {
                InterpStep::Value { v, .. } => (match spec_run(final(code)@) {
                    IrState::Run { vals: vals2, out: out2 } => out2 == out && vals.is_prefix_of(
                        vals2,
                    ) && vals2.len() == final(code)@.len() && vals2[r as int] == v,
                    IrState::Fault { .. } => false,
                }),
                InterpStep::Fault { err, .. } => spec_run(final(code)@) == IrState::Fault {
                    out,
                    err,
                },
            },
            IrState::Fault { out, err } => spec_run(final(code)@) == IrState::Fault { out, err },
        }),
    decreases *node,
{
    proof {
        lemma_run_len(code@);
    }
    match node.op {
        ASTNodeType::IntLit(v) => {
            let ghost pre = code@;
            code.push(IrInstr::Const { value: v });
            proof {
                assert(code@.drop_last() =~= pre);
                assert(code@ =~= pre + spec_lower(*node, pre.len() as int));
                assert(forall|i: int|
                    0 <= i < code@.len() ==> instr_wf(#[trigger] code@[i], i));
                assert(pre.is_prefix_of(code@));
                if spec_run(pre) is Run {
                    let vals = spec_run(pre)->Run_vals;
                    assert(vals.is_prefix_of(vals.push(v)));
                }
            }
            code.len() - 1
        },
        op => match (&node.left, &node.right) {
            (Some(l), Some(rn)) => {
                let ghost pre = code@;
                let a = build_ast(&**l, code);
                let ghost mid = code@;
                let b = build_ast(&**rn, code);
                let ghost mid2 = code@;
                let instr = match op {
                    ASTNodeType::Add => IrInstr::Add { a, b },
                    ASTNodeType::Subtract => IrInstr::Sub { a, b },
                    ASTNodeType::Multiply => IrInstr::Mul { a, b },
                    ASTNodeType::Divide => IrInstr::Div { a, b },
                    ASTNodeType::IntLit(_) => {
                        proof {
                            assert(false);
                        }
                        IrInstr::Add { a, b }
                    },
                };
                code.push(instr);
                proof {
                    lemma_run_len(mid);
                    lemma_run_len(mid2);
                    assert(code@.drop_last() =~= mid2);
                    let cl = spec_lower(**l, pre.len() as int);
                    let cr = spec_lower(**rn, pre.len() + cl.len() as int);
                    assert(instr == spec_op_instr(node.op, pre.len() + cl.len() - 1,
                        pre.len() + cl.len() + cr.len() - 1));
                    assert(code@ =~= pre + spec_lower(*node, pre.len() as int));
                    assert(pre.is_prefix_of(code@)) by {
                        assert(pre.is_prefix_of(mid));
                        assert(mid.is_prefix_of(mid2));
                        assert(mid2.is_prefix_of(code@));
                        assert(pre =~= code@.take(pre.len() as int));
                    }
                    assert(forall|i: int|
                        0 <= i < code@.len() ==> instr_wf(#[trigger] code@[i], i)) by {
                        assert(forall|i: int|
                            0 <= i < mid2.len() ==> instr_wf(#[trigger] mid2[i], i));
                        assert(forall|i: int| 0 <= i < mid2.len() ==> code@[i] == mid2[i]);
                        assert(instr_wf(code@[code@.len() - 1], code@.len() - 1));
                    }
                    if spec_run(pre) is Run {
                        let vals0 = spec_run(pre)->Run_vals;
                        let out0 = spec_run(pre)->Run_out;
                        match spec_interp(**l) {
                            InterpStep::Value { v: lv, .. } => {
                                let vals1 = spec_run(mid)->Run_vals;
                                match spec_interp(**rn) {
                                    InterpStep::Value { v: rv, .. } => {
                                        let vals2 = spec_run(mid2)->Run_vals;
                                        assert(vals2[a as int] == vals1[a as int]) by {
                                            assert(vals1 =~= vals2.take(vals1.len() as int));
                                        }
                                        assert(vals2[a as int] == lv);
                                        assert(vals2[b as int] == rv);
                                        assert(vals0.is_prefix_of(vals2)) by {
                                            assert(vals0 =~= vals1.take(vals0.len() as int));
                                            assert(vals1 =~= vals2.take(vals1.len() as int));
                                            assert(vals0 =~= vals2.take(vals0.len() as int));
                                        }
                                        match spec_apply(op, lv, rv) {
                                            Ok(v) => {
                                                assert(vals0.is_prefix_of(vals2.push(v))) by {
                                                    assert(vals0 =~= vals2.push(v).take(
                                                        vals0.len() as int,
                                                    ));
                                                }
                                            },
                                            Err(_) => {},
                                        }
                                    },
                                    InterpStep::Fault { .. } => {},
                                }
                            },
                            InterpStep::Fault { .. } => {},
                        }
                    }
                }
                code.len() - 1
            },
            _ => {
                proof {
                    assert(false);
                }
                0
            },
        },
    }
}

/// Append a print of slot `src`.
pub fn gen_print(code: &mut Vec<IrInstr>, src: usize)
    requires
        ir_wf(old(code)@),
        src < old(code)@.len(),
    ensures
        ir_wf(final(code)@),
        final(code)@ == old(code)@.push(IrInstr::Print { src }),
        old(code)@.is_prefix_of(final(code)@),
        final(code)@.len() == old(code)@.len() + 1,
        (match spec_run(old(code)@) {
            IrState::Run { vals, out } => spec_run(final(code)@) == IrState::Run {
                vals: vals.push(vals[src as int]),
                out: out.push(vals[src as int]),
            },
            IrState::Fault { out, err } => spec_run(final(code)@) == IrState::Fault { out, err },
        }),
{
    let ghost pre = code@;
    code.push(IrInstr::Print { src });
    proof {
        assert(code@.drop_last() =~= pre);
        assert(pre.is_prefix_of(code@));
        assert(forall|i: int| 0 <= i < code@.len() ==> instr_wf(#[trigger] code@[i], i)) by {
            assert(forall|i: int| 0 <= i < pre.len() ==> code@[i] == pre[i]);
        }
    }
}

/// Lower a whole statement list. Running the lowered program prints
/// exactly what interpreting the statements in order prints, and faults
/// exactly where the interpreter would fault.
#[verifier::loop_isolation(false)]
pub fn lower_statements(stmts: &Vec<ASTNode>) -> (code: Vec<IrInstr>)
    requires
        forall|i: int| 0 <= i < stmts@.len() ==> (#[trigger] stmts@[i]).wf(),
    ensures
        ir_wf(code@),
        code@ == spec_lower_program(stmts@),
        (match spec_program_out(stmts@) {
            (outs, None) => (match spec_run(code@) {
                IrState::Run { vals, out } => out == outs,
                IrState::Fault { .. } => false,
            }),
            (outs, Some(e)) => spec_run(code@) == IrState::Fault { out: outs, err: e },
        }),
{
    let mut code: Vec<IrInstr> = Vec::new();
    let mut i: usize = 0;
    proof {
        assert(Seq::<IrInstr>::empty().len() == 0);
    }
    while i < stmts.len()
        invariant
            0 <= i <= stmts@.len(),
            ir_wf(code@),
            code@ == spec_lower_program(stmts@.take(i as int)),
            (match spec_program_out(stmts@.take(i as int)) {
                (outs, None) => (match spec_run(code@) {
                    IrState::Run { vals, out } => out == outs,
                    IrState::Fault { .. } => false,
                }),
                (outs, Some(e)) => spec_run(code@) == IrState::Fault { out: outs, err: e },
            }),
        decreases stmts@.len() - i,
    {
        let ghost pre_take = stmts@.take(i as int);
        let src = build_ast(&stmts[i], &mut code);
        gen_print(&mut code, src);
        proof {
            assert(stmts@.take(i + 1).drop_last() =~= pre_take);
            assert(stmts@.take(i + 1).last() == stmts@[i as int]);
        }
        i = i + 1;
    }
    proof {
        assert(stmts@.take(stmts@.len() as int) =~= stmts@);
    }
    code
}

/// The program of one bare expression: its lowering and a print of its
/// result slot.
pub open spec fn spec_lower_expression(n: ASTNode) -> Seq<IrInstr> {
    let body = spec_lower(n, 0);
    body + seq![IrInstr::Print { src: (body.len() - 1) as usize }]
}

/// Lower one expression and a print of its value: the program of the
/// bare-expression pipeline.
pub fn lower_expression(node: &ASTNode) -> (code: Vec<IrInstr>)
    requires
        node.wf(),
    ensures
        ir_wf(code@),
        code@ == spec_lower_expression(*node),
        (match spec_interp(*node) {
            InterpStep::Value { v, .. } => (match spec_run(code@) {
                IrState::Run { vals, out } => out == seq![v],
                IrState::Fault { .. } => false,
            }),
            InterpStep::Fault { err, .. } => spec_run(code@) == IrState::Fault {
                out: Seq::empty(),
                err,
            },
        }),
{
    let mut code: Vec<IrInstr> = Vec::new();
    let src = build_ast(node, &mut code);
    gen_print(&mut code, src);
    proof {
        assert(code@ =~= spec_lower_expression(*node)) by {
            assert(Seq::<IrInstr>::empty() + spec_lower(*node, 0) =~= spec_lower(*node, 0));
        }
        if spec_interp(*node) is Value {
            let v = spec_interp(*node)->Value_v;
            if spec_run(code@) is Run {
                assert(Seq::<i64>::empty().push(v) =~= seq![v]);
            }
        }
    }
    code
}

/// Execute a lowered program, appending everything it prints to `out`;
/// stops at the first fault, exactly as the semantics says.
#[verifier::loop_isolation(false)]
pub fn run_ir(code: &Vec<IrInstr>, out: &mut Vec<i64>) -> (r: Result<(), EvalError>)
    requires
        ir_wf(code@),
    ensures
        (match spec_run(code@) {
            IrState::Run { vals, out: o } => r is Ok && final(out)@ == old(out)@ + o,
            IrState::Fault { out: o, err } => r == Err::<(), EvalError>(err) && final(out)@ == old(
                out,
            )@ + o,
        }),
{
    let ghost out0 = out@;
    let mut vals: Vec<i64> = Vec::new();
    let mut i: usize = 0;
    proof {
        assert(out0 + Seq::<i64>::empty() =~= out0);
        assert(code@.take(0) =~= Seq::<IrInstr>::empty());
        assert(out@.skip(out0.len() as int) =~= Seq::<i64>::empty());
        assert(out@.take(out0.len() as int) =~= out0);
    }
    while i < code.len()
        invariant
            0 <= i <= code@.len(),
            spec_run(code@.take(i as int)) == (IrState::Run { vals: vals@, out: out@.skip(out0.len() as int) }),
            vals@.len() == i,
            out@.len() >= out0.len(),
            out@.take(out0.len() as int) == out0,
        decreases code@.len() - i,
    {
        proof {
            assert(code@.take(i + 1).drop_last() =~= code@.take(i as int));
            assert(code@.take(i + 1).last() == code@[i as int]);
            assert(instr_wf(code@[i as int], i as int));
        }
        let instr = code[i];
        match instr {
            IrInstr::Const { value } => {
                vals.push(value);
            },
            IrInstr::Add { a, b } => {
                match vals[a].checked_add(vals[b]) {
                    Some(v) => {
                        vals.push(v);
                    },
                    None => {
                        proof {
                            lemma_run_prefix_fault(code@, i + 1);
                            assert(out@ =~= out0 + out@.skip(out0.len() as int));
                        }
                        return Err(EvalError::Overflow);
                    },
                }
            },
            IrInstr::Sub { a, b } => {
                match vals[a].checked_sub(vals[b]) {
                    Some(v) => {
                        vals.push(v);
                    },
                    None => {
                        proof {
                            lemma_run_prefix_fault(code@, i + 1);
                            assert(out@ =~= out0 + out@.skip(out0.len() as int));
                        }
                        return Err(EvalError::Overflow);
                    },
                }
            },
            IrInstr::Mul { a, b } => {
                match vals[a].checked_mul(vals[b]) {
                    Some(v) => {
                        vals.push(v);
                    },
                    None => {
                        proof {
                            lemma_run_prefix_fault(code@, i + 1);
                            assert(out@ =~= out0 + out@.skip(out0.len() as int));
                        }
                        return Err(EvalError::Overflow);
                    },
                }
            },
            IrInstr::Div { a, b } => {
                let dv = vals[b];
                if dv == 0 {
                    proof {
                        lemma_run_prefix_fault(code@, i + 1);
                        assert(out@ =~= out0 + out@.skip(out0.len() as int));
                    }
                    return Err(EvalError::DivisionByZero);
                }
                match vals[a].checked_div(dv) {
                    Some(v) => {
                        vals.push(v);
                    },
                    None => {
                        proof {
                            lemma_run_prefix_fault(code@, i + 1);
                            assert(out@ =~= out0 + out@.skip(out0.len() as int));
                        }
                        return Err(EvalError::Overflow);
                    },
                }
            },
            IrInstr::Print { src } => {
                let v = vals[src];
                let ghost pre_out = out@;
                vals.push(v);
                out.push(v);
                proof {
                    assert(out@.skip(out0.len() as int) =~= pre_out.skip(out0.len() as int).push(
                        v,
                    ));
                    assert(out@.take(out0.len() as int) =~= out0);
                }
            },
        }
        i = i + 1;
    }
    proof {
        assert(code@.take(code@.len() as int) =~= code@);
        assert(out@ =~= out0 + out@.skip(out0.len() as int));
    }
    Ok(())
}

/// Once a prefix of a program faults, the whole program's run is that
/// same fault.
pub proof fn lemma_run_prefix_fault(code: Seq<IrInstr>, k: int)
    requires
        0 <= k <= code.len(),
        spec_run(code.take(k)) is Fault,
    ensures
        spec_run(code) == spec_run(code.take(k)),
    decreases code.len() - k,
{
    if k < code.len() {
        assert(code.take(k + 1).drop_last() =~= code.take(k));
        lemma_run_prefix_fault(code, k + 1);
    } else {
        assert(code.take(k) =~= code);
    }
}

} // verus!
