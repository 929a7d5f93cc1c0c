use tinycomp::ast::{ASTNode, ASTNodeType};
use tinycomp::error::{CompileError, ErrorCategory};
use tinycomp::lexer::tokenize;
use tinycomp::parser::Parser;
use tinycomp::pipeline::{parse_source_expression, parse_source_statements};
use tinycomp::token::Token;

fn leaf(v: i64) -> ASTNode {
    ASTNode::mkAstLeaf(ASTNodeType::IntLit(v))
}

fn bin(op: ASTNodeType, l: ASTNode, r: ASTNode) -> ASTNode {
    ASTNode::mkASTNode(op, Some(Box::new(l)), Some(Box::new(r)))
}

#[test]
fn parse_single_literal() {
    let n = parse_source_expression(b"42".to_vec()).unwrap();
    assert_eq!(n, leaf(42));
}

#[test]
fn parse_multiplication_binds_tighter_than_addition() {
    let n = parse_source_expression(b"2 + 3 * 4".to_vec()).unwrap();
    assert_eq!(
        n,
        bin(
            ASTNodeType::Add,
            leaf(2),
            bin(ASTNodeType::Multiply, leaf(3), leaf(4))
        )
    );
}

#[test]
fn parse_equal_precedence_is_left_associative() {
    let n = parse_source_expression(b"10 - 2 - 3".to_vec()).unwrap();
    assert_eq!(
        n,
        bin(
            ASTNodeType::Subtract,
            bin(ASTNodeType::Subtract, leaf(10), leaf(2)),
            leaf(3)
        )
    );
}

#[test]
fn parse_division_chain_is_left_associative() {
    let n = parse_source_expression(b"100 / 5 / 2".to_vec()).unwrap();
    assert_eq!(
        n,
        bin(
            ASTNodeType::Divide,
            bin(ASTNodeType::Divide, leaf(100), leaf(5)),
            leaf(2)
        )
    );
}

#[test]
fn parse_missing_right_operand_is_syntax_error_on_line_1() {
    let err = parse_source_expression(b"1 +".to_vec()).unwrap_err();
    assert_eq!(
        err,
        CompileError::Syntax { found: Token::Eof, line: 1 }
    );
    assert_eq!(err.category(), ErrorCategory::SyntaxTrouble);
}

#[test]
fn parse_adjacent_literals_are_a_syntax_error() {
    let err = parse_source_expression(b"3 4".to_vec()).unwrap_err();
    assert_eq!(
        err,
        CompileError::Syntax { found: Token::IntLit(4), line: 1 }
    );
}

#[test]
fn parse_empty_expression_is_a_syntax_error() {
    let err = parse_source_expression(b"".to_vec()).unwrap_err();
    assert_eq!(err, CompileError::Syntax { found: Token::Eof, line: 1 });
}

#[test]
fn parse_leading_operator_is_a_syntax_error() {
    let err = parse_source_expression(b"+ 1".to_vec()).unwrap_err();
    assert_eq!(err, CompileError::Syntax { found: Token::Plus, line: 1 });
}

#[test]
fn parse_statements_empty_input_is_zero_statements() {
    let stmts = parse_source_statements(Vec::new()).unwrap();
    assert!(stmts.is_empty());
}

#[test]
fn parse_statements_in_source_order() {
    let stmts = parse_source_statements(b"print 1+2; print 3*4;".to_vec()).unwrap();
    assert_eq!(stmts.len(), 2);
    assert_eq!(stmts[0], bin(ASTNodeType::Add, leaf(1), leaf(2)));
    assert_eq!(stmts[1], bin(ASTNodeType::Multiply, leaf(3), leaf(4)));
}

#[test]
fn parse_statements_missing_semicolon_is_reported() {
    let err = parse_source_statements(b"print 1+2".to_vec()).unwrap_err();
    assert_eq!(
        err,
        CompileError::Expected { what: Token::Semi, found: Token::Eof, line: 1 }
    );
}

#[test]
fn parse_statements_missing_print_is_reported() {
    let err = parse_source_statements(b"1+2;".to_vec()).unwrap_err();
    assert_eq!(
        err,
        CompileError::Expected { what: Token::Print, found: Token::IntLit(1), line: 1 }
    );
}

#[test]
fn parse_statements_empty_expression_is_syntax_error() {
    let err = parse_source_statements(b"print ;".to_vec()).unwrap_err();
    assert_eq!(err, CompileError::Syntax { found: Token::Semi, line: 1 });
}

#[test]
fn parse_expression_rejects_trailing_separator() {
    let err = parse_source_expression(b"1 + 2;".to_vec()).unwrap_err();
    assert_eq!(err, CompileError::Syntax { found: Token::Semi, line: 1 });
}

#[test]
fn parser_steps_through_the_stream() {
    let toks = tokenize(b"print 5;".to_vec()).unwrap();
    let mut p = Parser::new(toks);
    assert_eq!(p.cur().tok, Token::Print);
    assert!(p.match_token(Token::Print).is_ok());
    let n = p.primary().unwrap();
    assert_eq!(n, leaf(5));
    assert!(p.semi().is_ok());
    assert_eq!(p.cur().tok, Token::Eof);
}

#[test]
fn parser_match_token_rejects_the_wrong_token() {
    let toks = tokenize(b"1;".to_vec()).unwrap();
    let mut p = Parser::new(toks);
    assert_eq!(
        p.match_token(Token::Print),
        Err(CompileError::Expected { what: Token::Print, found: Token::IntLit(1), line: 1 })
    );
}

#[test]
fn parser_primary_rejects_an_operator() {
    let toks = tokenize(b"*".to_vec()).unwrap();
    let mut p = Parser::new(toks);
    assert_eq!(
        p.primary(),
        Err(CompileError::Syntax { found: Token::Star, line: 1 })
    );
}

#[test]
fn parser_check_bin_op_and_arithop() {
    let toks = tokenize(b"1".to_vec()).unwrap();
    let p = Parser::new(toks);
    assert_eq!(p.check_bin_op(Token::Plus), Ok(10));
    assert_eq!(p.check_bin_op(Token::Slash), Ok(20));
    assert_eq!(
        p.check_bin_op(Token::Print),
        Err(CompileError::Syntax { found: Token::Print, line: 1 })
    );
    assert_eq!(p.arithop(Token::Plus), ASTNodeType::Add);
    assert_eq!(p.arithop(Token::Minus), ASTNodeType::Subtract);
    assert_eq!(p.arithop(Token::Star), ASTNodeType::Multiply);
    assert_eq!(p.arithop(Token::Slash), ASTNodeType::Divide);
}

#[test]
fn parser_expr_stops_at_a_separator() {
    let toks = tokenize(b"1 + 2 ; 9".to_vec()).unwrap();
    let mut p = Parser::new(toks);
    let n = p.expr().unwrap();
    assert_eq!(n, bin(ASTNodeType::Add, leaf(1), leaf(2)));
    assert_eq!(p.cur().tok, Token::Semi);
}

#[test]
fn ast_constructors_build_the_given_shape() {
    let u = ASTNode::mkAstUnary(ASTNodeType::Add, Box::new(leaf(1)));
    assert_eq!(u.op, ASTNodeType::Add);
    assert_eq!(u.left, Some(Box::new(leaf(1))));
    assert_eq!(u.right, None);
    let n = ASTNode::mkASTNode(ASTNodeType::Divide, None, None);
    assert_eq!(n.op, ASTNodeType::Divide);
    assert!(n.left.is_none() && n.right.is_none());
}
