use tinycomp::asmgen::{generate_code, AsmGen};
use tinycomp::ast::{ASTNode, ASTNodeType};
use tinycomp::error::{CompileError, ErrorCategory};
use tinycomp::pipeline::compile_source_to_asm;

fn leaf(v: i64) -> ASTNode {
    ASTNode::mkAstLeaf(ASTNodeType::IntLit(v))
}

fn bin(op: ASTNodeType, l: ASTNode, r: ASTNode) -> ASTNode {
    ASTNode::mkASTNode(op, Some(Box::new(l)), Some(Box::new(r)))
}

/// A right-leaning chain of additions with `depth` binary nodes; it keeps
/// `depth + 1` values live at once in the register bank.
fn right_chain(depth: u32) -> ASTNode {
    if depth == 0 {
        leaf(1)
    } else {
        bin(ASTNodeType::Add, leaf(1), right_chain(depth - 1))
    }
}

const PREAMBLE: &str = "\t.text\n.LC0:\n\t.string\t\"%ld\\n\"\nprintint:\n\tpushq\t%rbp\n\tmovq\t%rsp, %rbp\n\tsubq\t$16, %rsp\n\tmovq\t%rdi, -8(%rbp)\n\tmovq\t-8(%rbp), %rax\n\tmovq\t%rax, %rsi\n\tleaq\t.LC0(%rip), %rdi\n\tmovl\t$0, %eax\n\tcall\tprintf@PLT\n\tnop\n\tleave\n\tret\n\n\t.globl\tmain\n\t.type\tmain, @function\nmain:\n\tpushq\t%rbp\n\tmovq\t%rsp, %rbp\n";

const POSTAMBLE: &str = "\tmovl\t$0, %eax\n\tpopq\t%rbp\n\tret\n";

#[test]
fn asm_for_an_addition_is_exact() {
    let text = compile_source_to_asm(b"2 + 3".to_vec()).unwrap();
    let expected = format!(
        "{}{}{}{}",
        PREAMBLE,
        "\tmovq\t$2, %r8\n\tmovq\t$3, %r9\n\taddq\t%r8, %r9\n",
        "\tmovq\t%r9, %rdi\n\tcall\tprintint\n",
        POSTAMBLE
    );
    assert_eq!(text, expected);
}

#[test]
fn asm_commutative_ops_keep_the_right_register() {
    // 2 * 3 computes into %r9 and retires %r8.
    let text = compile_source_to_asm(b"2 * 3".to_vec()).unwrap();
    assert!(text.contains("\timulq\t%r8, %r9\n"));
    assert!(text.contains("\tmovq\t%r9, %rdi\n"));
}

#[test]
fn asm_subtraction_computes_in_the_left_register() {
    let text = compile_source_to_asm(b"10 - 2 - 3".to_vec()).unwrap();
    assert!(text.contains("\tsubq\t%r9, %r8\n"));
    assert!(text.contains("\tmovq\t%r8, %rdi\n"));
}

#[test]
fn asm_division_is_emitted_unchecked() {
    // Division by zero is not masked or pre-checked: the program is
    // generated and the fault is left to the machine.
    let text = compile_source_to_asm(b"6 / 0".to_vec()).unwrap();
    assert!(text.contains("\tmovq\t$0, %r9\n"));
    assert!(text.contains("\tidivq\t%r9\n"));
}

#[test]
fn asm_left_leaning_chains_recycle_registers() {
    // A long left-associative chain never needs more than two registers.
    let text =
        compile_source_to_asm(b"1 + 2 + 3 + 4 + 5 + 6 + 7 + 8 + 9 + 10".to_vec()).unwrap();
    assert!(!text.contains("%r10"));
    assert!(!text.contains("%r11"));
}

#[test]
fn four_live_values_compile() {
    let n = right_chain(3);
    assert!(generate_code(&n).is_ok());
}

#[test]
fn a_fifth_live_value_exhausts_the_register_pool() {
    let n = right_chain(4);
    let err = generate_code(&n).unwrap_err();
    assert_eq!(err, CompileError::OutOfRegisters);
    assert_eq!(err.category(), ErrorCategory::Internal);
}

#[test]
fn register_bank_allocates_and_frees_by_linear_scan() {
    let mut g = AsmGen::new();
    assert_eq!(g.alloc_register(), Ok(0));
    assert_eq!(g.alloc_register(), Ok(1));
    assert_eq!(g.alloc_register(), Ok(2));
    assert_eq!(g.alloc_register(), Ok(3));
    assert_eq!(g.alloc_register(), Err(CompileError::OutOfRegisters));
    g.free_register(1);
    assert_eq!(g.alloc_register(), Ok(1));
    g.free_all_registers();
    assert_eq!(g.alloc_register(), Ok(0));
}

#[test]
fn gen_ast_reports_the_result_register() {
    let mut g = AsmGen::new();
    let r = g.gen_ast(&bin(ASTNodeType::Add, leaf(1), leaf(2))).unwrap();
    assert_eq!(r, 1);
    let mut g2 = AsmGen::new();
    let r2 = g2.gen_ast(&bin(ASTNodeType::Subtract, leaf(5), leaf(2))).unwrap();
    assert_eq!(r2, 0);
}
