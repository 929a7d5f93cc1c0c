use tinycomp::ast::{ASTNode, ASTNodeType};
use tinycomp::error::EvalError;
use tinycomp::interp::{interpret_ast, interpret_statements, TraceLine};
use tinycomp::pipeline::{interpret_source, parse_source_statements, SourceError};
use tinycomp::text::{i64_text, render_trace};

fn leaf(v: i64) -> ASTNode {
    ASTNode::mkAstLeaf(ASTNodeType::IntLit(v))
}

fn bin(op: ASTNodeType, l: ASTNode, r: ASTNode) -> ASTNode {
    ASTNode::mkASTNode(op, Some(Box::new(l)), Some(Box::new(r)))
}

fn run(src: &str) -> Result<i64, SourceError> {
    let mut trace = Vec::new();
    interpret_source(src.as_bytes().to_vec(), &mut trace)
}

#[test]
fn interpret_trace_of_two_plus_three_times_four() {
    let mut trace = Vec::new();
    let v = interpret_source(b"2 + 3 * 4".to_vec(), &mut trace).unwrap();
    assert_eq!(v, 14);
    assert_eq!(
        trace,
        vec![
            TraceLine::Leaf { value: 2 },
            TraceLine::Leaf { value: 3 },
            TraceLine::Leaf { value: 4 },
            TraceLine::Bin { left: 3, op: ASTNodeType::Multiply, right: 4 },
            TraceLine::Bin { left: 2, op: ASTNodeType::Add, right: 12 },
        ]
    );
    assert_eq!(
        render_trace(&trace),
        "int 2\nint 3\nint 4\n3 * 4\n2 + 12\n".to_string()
    );
}

#[test]
fn interpret_subtraction_is_left_associative() {
    assert_eq!(run("10 - 2 - 3"), Ok(5));
}

#[test]
fn interpret_respects_precedence() {
    assert_eq!(run("2 + 3 * 4"), Ok(14));
    assert_eq!(run("2 * 3 + 4"), Ok(10));
    assert_eq!(run("20 - 10 / 2"), Ok(15));
}

#[test]
fn interpret_division_truncates() {
    assert_eq!(run("7 / 2"), Ok(3));
    assert_eq!(run("100 / 7"), Ok(14));
}

#[test]
fn interpret_division_truncates_toward_zero() {
    // (0 - 7) / 2 is -3 when truncating toward zero, -4 if rounded down.
    let n = bin(
        ASTNodeType::Divide,
        bin(ASTNodeType::Subtract, leaf(0), leaf(7)),
        leaf(2),
    );
    let mut trace = Vec::new();
    assert_eq!(interpret_ast(&n, &mut trace), Ok(-3));
}

#[test]
fn interpret_division_by_zero_faults_after_tracing() {
    let mut trace = Vec::new();
    let r = interpret_source(b"6 / 0".to_vec(), &mut trace);
    assert_eq!(r, Err(SourceError::Eval(EvalError::DivisionByZero)));
    assert_eq!(
        trace,
        vec![
            TraceLine::Leaf { value: 6 },
            TraceLine::Leaf { value: 0 },
            TraceLine::Bin { left: 6, op: ASTNodeType::Divide, right: 0 },
        ]
    );
    assert_eq!(render_trace(&trace), "int 6\nint 0\n6 / 0\n".to_string());
}

#[test]
fn interpret_overflow_faults() {
    assert_eq!(
        run("9223372036854775807 + 1"),
        Err(SourceError::Eval(EvalError::Overflow))
    );
}

#[test]
fn interpret_min_over_minus_one_overflows() {
    // i64::MIN / -1 does not fit in 64 bits.
    let n = bin(
        ASTNodeType::Divide,
        leaf(i64::MIN),
        bin(ASTNodeType::Subtract, leaf(0), leaf(1)),
    );
    let mut trace = Vec::new();
    assert_eq!(interpret_ast(&n, &mut trace), Err(EvalError::Overflow));
}

#[test]
fn interpret_compile_errors_leave_no_trace() {
    let mut trace = Vec::new();
    let r = interpret_source(b"1 +".to_vec(), &mut trace);
    assert!(matches!(r, Err(SourceError::Compile(_))));
    assert!(trace.is_empty());
}

#[test]
fn interpret_statements_collects_values_and_traces() {
    let stmts = parse_source_statements(b"print 1+2; print 3*4;".to_vec()).unwrap();
    let mut outs = Vec::new();
    let mut trace = Vec::new();
    interpret_statements(&stmts, &mut outs, &mut trace).unwrap();
    assert_eq!(outs, vec![3, 12]);
    assert_eq!(
        render_trace(&trace),
        "int 1\nint 2\n1 + 2\nint 3\nint 4\n3 * 4\n".to_string()
    );
}

#[test]
fn interpret_statements_stops_at_the_first_fault() {
    let stmts = parse_source_statements(b"print 5; print 6/0; print 7;".to_vec()).unwrap();
    let mut outs = Vec::new();
    let mut trace = Vec::new();
    let r = interpret_statements(&stmts, &mut outs, &mut trace);
    assert_eq!(r, Err(EvalError::DivisionByZero));
    assert_eq!(outs, vec![5]);
    assert_eq!(render_trace(&trace), "int 5\nint 6\nint 0\n6 / 0\n".to_string());
}

#[test]
fn decimal_text_of_signed_values() {
    assert_eq!(i64_text(0), "0".to_string());
    assert_eq!(i64_text(7), "7".to_string());
    assert_eq!(i64_text(-1), "-1".to_string());
    assert_eq!(i64_text(-12345), "-12345".to_string());
    assert_eq!(i64_text(i64::MAX), "9223372036854775807".to_string());
    assert_eq!(i64_text(i64::MIN), "-9223372036854775808".to_string());
}

#[test]
fn trace_renders_negative_values() {
    let n = bin(
        ASTNodeType::Add,
        bin(ASTNodeType::Subtract, leaf(0), leaf(9)),
        leaf(2),
    );
    let mut trace = Vec::new();
    assert_eq!(interpret_ast(&n, &mut trace), Ok(-7));
    assert_eq!(
        render_trace(&trace),
        "int 0\nint 9\n0 - 9\nint 2\n-9 + 2\n".to_string()
    );
}
