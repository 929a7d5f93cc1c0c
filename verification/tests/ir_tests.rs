use tinycomp::error::EvalError;
use tinycomp::ir::{lower_expression, run_ir, IrInstr};
use tinycomp::pipeline::{
    compile_statements_to_ir, interpret_source, parse_source_expression, SourceError,
};
use tinycomp::text::i64_text;

fn run_statements(src: &str) -> Result<Vec<i64>, (Vec<i64>, EvalError)> {
    let code = compile_statements_to_ir(src.as_bytes().to_vec()).unwrap();
    let mut out = Vec::new();
    match run_ir(&code, &mut out) {
        Ok(()) => Ok(out),
        Err(e) => Err((out, e)),
    }
}

#[test]
fn compiled_statements_print_three_and_twelve() {
    let outs = run_statements("print 1+2; print 3*4;").unwrap();
    assert_eq!(outs, vec![3, 12]);
    let text: String = outs.iter().map(|v| i64_text(*v) + "\n").collect();
    assert_eq!(text, "3\n12\n".to_string());
}

#[test]
fn compiled_empty_source_prints_nothing() {
    let outs = run_statements("").unwrap();
    assert!(outs.is_empty());
}

#[test]
fn lowering_a_literal_is_one_constant() {
    let n = parse_source_expression(b"42".to_vec()).unwrap();
    let code = lower_expression(&n);
    assert_eq!(
        code,
        vec![IrInstr::Const { value: 42 }, IrInstr::Print { src: 0 }]
    );
}

#[test]
fn lowering_is_postorder() {
    let n = parse_source_expression(b"2 + 3 * 4".to_vec()).unwrap();
    let code = lower_expression(&n);
    assert_eq!(
        code,
        vec![
            IrInstr::Const { value: 2 },
            IrInstr::Const { value: 3 },
            IrInstr::Const { value: 4 },
            IrInstr::Mul { a: 1, b: 2 },
            IrInstr::Add { a: 0, b: 3 },
            IrInstr::Print { src: 4 },
        ]
    );
}

#[test]
fn compiled_expression_prints_the_interpreted_value() {
    for src in ["2 + 3 * 4", "10 - 2 - 3", "100 / 7", "1 + 2 * 3 - 4 / 2"] {
        let mut trace = Vec::new();
        let v = interpret_source(src.as_bytes().to_vec(), &mut trace).unwrap();
        let n = parse_source_expression(src.as_bytes().to_vec()).unwrap();
        let code = lower_expression(&n);
        let mut out = Vec::new();
        run_ir(&code, &mut out).unwrap();
        assert_eq!(out, vec![v]);
    }
}

#[test]
fn compiled_division_by_zero_faults_at_run_time() {
    // The compiler does not mask or pre-check the division: lowering
    // succeeds, and the fault surfaces only when the program runs.
    let n = parse_source_expression(b"6 / 0".to_vec()).unwrap();
    let code = lower_expression(&n);
    let mut out = Vec::new();
    assert_eq!(run_ir(&code, &mut out), Err(EvalError::DivisionByZero));
    assert!(out.is_empty());
}

#[test]
fn fault_in_a_later_statement_keeps_earlier_output() {
    let (outs, err) = run_statements("print 5; print 6/0; print 7;").unwrap_err();
    assert_eq!(outs, vec![5]);
    assert_eq!(err, EvalError::DivisionByZero);
    // The interpreter agrees on the faulting statement.
    let mut trace = Vec::new();
    assert_eq!(
        interpret_source(b"6/0".to_vec(), &mut trace),
        Err(SourceError::Eval(EvalError::DivisionByZero))
    );
}

#[test]
fn compiled_values_keep_all_64_bits() {
    // 2147483648 does not fit in 32 bits; the printed value must be the
    // interpreter's full 64-bit result.
    let outs = run_statements("print 2147483647 + 1; print 0 - 2147483649;").unwrap();
    assert_eq!(outs, vec![2147483648, -2147483649]);
}

#[test]
fn run_ir_executes_overflow_as_a_fault() {
    let (outs, err) =
        run_statements("print 9223372036854775807 + 1;").unwrap_err();
    assert!(outs.is_empty());
    assert_eq!(err, EvalError::Overflow);
}
