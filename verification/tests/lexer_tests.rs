use tinycomp::error::{CompileError, ErrorCategory};
use tinycomp::lexer::{chrpos, tokenize, Lexer};
use tinycomp::token::Token;

fn toks_of(src: &str) -> Vec<Token> {
    tokenize(src.as_bytes().to_vec())
        .unwrap()
        .into_iter()
        .map(|t| t.tok)
        .collect()
}

#[test]
fn lex_empty_input_is_immediate_eof() {
    let toks = tokenize(Vec::new()).unwrap();
    assert_eq!(toks.len(), 1);
    assert_eq!(toks[0].tok, Token::Eof);
    assert_eq!(toks[0].line, 1);
}

#[test]
fn lex_whitespace_only_is_immediate_eof() {
    let toks = tokenize(b"  \t \r ".to_vec()).unwrap();
    assert_eq!(toks.len(), 1);
    assert_eq!(toks[0].tok, Token::Eof);
}

#[test]
fn lex_expression_tokens() {
    assert_eq!(
        toks_of("2 + 3 * 4"),
        vec![
            Token::IntLit(2),
            Token::Plus,
            Token::IntLit(3),
            Token::Star,
            Token::IntLit(4),
            Token::Eof
        ]
    );
}

#[test]
fn lex_statement_tokens() {
    assert_eq!(
        toks_of("print 1+2; print 3*4;"),
        vec![
            Token::Print,
            Token::IntLit(1),
            Token::Plus,
            Token::IntLit(2),
            Token::Semi,
            Token::Print,
            Token::IntLit(3),
            Token::Star,
            Token::IntLit(4),
            Token::Semi,
            Token::Eof
        ]
    );
}

#[test]
fn lex_multidigit_literal() {
    assert_eq!(toks_of("1234567"), vec![Token::IntLit(1234567), Token::Eof]);
}

#[test]
fn lex_is_deterministic_for_equal_inputs() {
    let input = b"print 10 - 2 - 3;".to_vec();
    let first = tokenize(input.clone()).unwrap();
    let second = tokenize(input).unwrap();
    assert_eq!(first, second);
}

#[test]
fn lex_unrecognized_character_fails_on_line_1() {
    let err = tokenize(b"$".to_vec()).unwrap_err();
    assert_eq!(err, CompileError::UnrecognizedChar { ch: b'$', line: 1 });
    assert_eq!(err.category(), ErrorCategory::Lexical);
}

#[test]
fn lex_unrecognized_character_reports_later_line() {
    let err = tokenize(b"1 +\n2 $".to_vec()).unwrap_err();
    assert_eq!(err, CompileError::UnrecognizedChar { ch: b'$', line: 2 });
}

#[test]
fn lex_line_numbers_follow_newlines() {
    // Scanning a literal always reads one character past its end, so the
    // newline after `1` is counted before that token is recorded.
    let toks = tokenize(b"1\n+\n2".to_vec()).unwrap();
    let lines: Vec<u64> = toks.iter().map(|t| t.line).collect();
    assert_eq!(lines, vec![2, 2, 3, 3]);
}

#[test]
fn lex_unknown_identifier_is_lexical_error() {
    let err = tokenize(b"frobnicate 1;".to_vec()).unwrap_err();
    assert_eq!(err, CompileError::UnknownSymbol { line: 1 });
    assert_eq!(err.category(), ErrorCategory::Lexical);
}

#[test]
fn lex_identifier_too_long_is_lexical_error() {
    let long = vec![b'a'; 600];
    let err = tokenize(long).unwrap_err();
    assert_eq!(err, CompileError::IdentifierTooLong { line: 1 });
}

#[test]
fn lex_longest_accepted_identifier_is_unknown_symbol() {
    let almost = vec![b'a'; 511];
    let err = tokenize(almost).unwrap_err();
    assert_eq!(err, CompileError::UnknownSymbol { line: 1 });
}

#[test]
fn lex_literal_at_i64_max_fits() {
    assert_eq!(
        toks_of("9223372036854775807"),
        vec![Token::IntLit(i64::MAX), Token::Eof]
    );
}

#[test]
fn lex_literal_beyond_i64_max_fails() {
    let err = tokenize(b"9223372036854775808".to_vec()).unwrap_err();
    assert_eq!(err, CompileError::IntegerTooLarge { line: 1 });
}

#[test]
fn keyword_resolves_print_only() {
    assert_eq!(Lexer::keyword(&b"print".to_vec()), Some(Token::Print));
    assert_eq!(Lexer::keyword(&b"prin".to_vec()), None);
    assert_eq!(Lexer::keyword(&b"prints".to_vec()), None);
}

#[test]
fn scan_produces_tokens_one_at_a_time() {
    let mut lx = Lexer::new(b"7 + 8".to_vec());
    assert_eq!(lx.scan(), Ok(true));
    assert_eq!(lx.token, Token::IntLit(7));
    assert_eq!(lx.scan(), Ok(true));
    assert_eq!(lx.token, Token::Plus);
    assert_eq!(lx.scan(), Ok(true));
    assert_eq!(lx.token, Token::IntLit(8));
    assert_eq!(lx.scan(), Ok(false));
    assert_eq!(lx.token, Token::Eof);
}

#[test]
fn scan_error_leaves_the_input_buffer_unchanged() {
    let mut lx = Lexer::new(b"1 $ 2".to_vec());
    assert_eq!(lx.scan(), Ok(true));
    assert!(lx.scan().is_err());
    assert_eq!(lx.in_data, b"1 $ 2".to_vec());
    assert_eq!(lx.line, 1);
}

#[test]
fn chrpos_finds_first_occurrence() {
    assert_eq!(chrpos("0123456789", '7'), 7);
    assert_eq!(chrpos("0123456789", '0'), 0);
    assert_eq!(chrpos("abcabc", 'c'), 2);
}

#[test]
fn chrpos_reports_missing_character() {
    assert_eq!(chrpos("0123456789", 'z'), -1);
    assert_eq!(chrpos("", 'a'), -1);
}

#[test]
fn op_prec_orders_the_operators() {
    assert_eq!(Token::Plus.op_prec(), 10);
    assert_eq!(Token::Minus.op_prec(), 10);
    assert_eq!(Token::Star.op_prec(), 20);
    assert_eq!(Token::Slash.op_prec(), 20);
    assert_eq!(Token::Eof.op_prec(), 0);
    assert_eq!(Token::IntLit(5).op_prec(), 0);
    assert_eq!(Token::Semi.op_prec(), 0);
    assert_eq!(Token::Print.op_prec(), 0);
}
