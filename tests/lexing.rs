use rustcc::lexer::{Lexer, TokenizedOutput};
use rustcc::token::{LexError, Line, TokenType};

fn spans(out: &TokenizedOutput) -> Vec<(TokenType, usize, usize, usize)> {
    let mut v = Vec::new();
    for i in 0..out.len() {
        let s = out.token_source(i);
        v.push((out.tokens()[i].ttype, s.start, s.end, s.line));
    }
    v
}

fn texts<'a>(out: &TokenizedOutput<'a>) -> Vec<&'a str> {
    (0..out.len()).map(|i| out.token_text(i)).collect()
}

#[test]
fn lib_empty_input() {
    let out = Lexer::lex("").unwrap();
    assert!(out.is_empty());
    assert_eq!(out.lines(), &[Line { start: 0, end: 0 }]);
}

#[test]
fn lib_single_char_tokens() {
    let out = Lexer::lex("(){};(").unwrap();
    assert_eq!(
        spans(&out),
        vec![
            (TokenType::OpenParen, 0, 1, 0),
            (TokenType::CloseParen, 1, 2, 0),
            (TokenType::OpenBrace, 2, 3, 0),
            (TokenType::CloseBrace, 3, 4, 0),
            (TokenType::Semicolon, 4, 5, 0),
            (TokenType::OpenParen, 5, 6, 0),
        ]
    );
    assert_eq!(out.lines(), &[Line { start: 0, end: 6 }]);
}

#[test]
fn lib_single_char_tokens_whitespace() {
    let out = Lexer::lex("( ) { } ; (").unwrap();
    assert_eq!(
        spans(&out),
        vec![
            (TokenType::OpenParen, 0, 1, 0),
            (TokenType::CloseParen, 2, 3, 0),
            (TokenType::OpenBrace, 4, 5, 0),
            (TokenType::CloseBrace, 6, 7, 0),
            (TokenType::Semicolon, 8, 9, 0),
            (TokenType::OpenParen, 10, 11, 0),
        ]
    );
    assert_eq!(out.lines(), &[Line { start: 0, end: 11 }]);
}

#[test]
fn lib_single_char_tokens_multiple_lines() {
    let out = Lexer::lex("(\n)\n{\n}\n;\n\n\n").unwrap();
    assert_eq!(
        spans(&out),
        vec![
            (TokenType::OpenParen, 0, 1, 0),
            (TokenType::CloseParen, 2, 3, 1),
            (TokenType::OpenBrace, 4, 5, 2),
            (TokenType::CloseBrace, 6, 7, 3),
            (TokenType::Semicolon, 8, 9, 4),
        ]
    );
    assert_eq!(
        out.lines(),
        &[
            Line { start: 0, end: 2 },
            Line { start: 2, end: 4 },
            Line { start: 4, end: 6 },
            Line { start: 6, end: 8 },
            Line { start: 8, end: 10 },
            Line { start: 10, end: 11 },
            Line { start: 11, end: 12 },
            Line { start: 12, end: 12 },
        ]
    );
}

#[test]
fn lib_simple_ident() {
    let out = Lexer::lex("ident").unwrap();
    assert_eq!(spans(&out), vec![(TokenType::Ident, 0, 5, 0)]);
    assert_eq!(texts(&out), vec!["ident"]);
}

#[test]
fn lib_multiple_simple_ident() {
    let out = Lexer::lex("ident main func int hi").unwrap();
    assert_eq!(
        spans(&out),
        vec![
            (TokenType::Ident, 0, 5, 0),
            (TokenType::Ident, 6, 10, 0),
            (TokenType::Ident, 11, 15, 0),
            (TokenType::Ident, 16, 19, 0),
            (TokenType::Ident, 20, 22, 0),
        ]
    );
}

#[test]
fn lib_complex_idents() {
    let src = "__underscores __more_under_scores_ some1number234 _under1_score_2_with3_numbers5";
    let out = Lexer::lex(src).unwrap();
    assert_eq!(
        texts(&out),
        vec![
            "__underscores",
            "__more_under_scores_",
            "some1number234",
            "_under1_score_2_with3_numbers5"
        ]
    );
    assert!(out.tokens().iter().all(|t| t.ttype == TokenType::Ident && !t.has_error));
}

#[test]
fn i64_max() {
    let source = format!("{}", i64::MAX);
    let output = Lexer::lex(&source).unwrap();
    assert_eq!(output.len(), 1);

    let token = output.get(0).unwrap();
    assert_eq!(&source, output.token_source(token.handle).fmt(&source));
    assert_eq!(token.ttype, TokenType::Constant);
}

#[test]
fn identifiers_take_zero_digits() {
    let out = Lexer::lex("a0b x10").unwrap();
    assert_eq!(texts(&out), vec!["a0b", "x10"]);
}

#[test]
fn token_spans_reslice_their_lexemes() {
    let src = "int main(void) {\n  return 7; // done\n}";
    let out = Lexer::lex(src).unwrap();
    for i in 0..out.len() {
        let s = out.token_source(i);
        assert_eq!(&src[s.start..s.end], out.token_text(i));
    }
    assert_eq!(
        texts(&out),
        vec!["int", "main", "(", "void", ")", "{", "return", "7", ";", "}"]
    );
    assert_eq!(out.token_source(6).line, 1);
    assert_eq!(out.token_source(9).line, 2);
}

#[test]
fn at_sign_stops_the_scan() {
    assert!(matches!(Lexer::lex("int @"), Err(LexError::InvalidChar { c: '@', offset: 4 })));
}

#[test]
fn at_sign_inside_comment_is_skipped() {
    let out = Lexer::lex("/* @ */ x // @\n").unwrap();
    assert_eq!(texts(&out), vec!["x"]);
}

#[test]
fn nul_byte_ends_input() {
    let out = Lexer::lex("a\0@").unwrap();
    assert_eq!(texts(&out), vec!["a"]);
    assert_eq!(out.lines(), &[Line { start: 0, end: 1 }]);
}

#[test]
fn non_ascii_character_is_rejected() {
    assert!(matches!(Lexer::lex("é"), Err(LexError::InvalidChar { c: 'é', offset: 0 })));
    assert!(matches!(Lexer::lex("/* é */ x ü"), Err(LexError::InvalidChar { c: 'ü', offset: 11 })));
}

#[test]
fn letter_after_digits_is_an_error() {
    assert!(matches!(
        Lexer::lex("12x"),
        Err(LexError::InvalidNumericConstant { c: 'x', offset: 2 })
    ));
}

#[test]
fn punctuation_table() {
    let out = Lexer::lex("/-:*'\",").unwrap();
    let kinds: Vec<TokenType> = out.tokens().iter().map(|t| t.ttype).collect();
    assert_eq!(
        kinds,
        vec![
            TokenType::FrontSlash,
            TokenType::Hyphen,
            TokenType::Colon,
            TokenType::Asterisk,
            TokenType::Quote,
            TokenType::DoubleQuote,
            TokenType::Comma
        ]
    );
}

#[test]
fn unicode_whitespace_separates_tokens() {
    let src = "int\u{a0}main\u{3000}(\u{2003}void\u{85})";
    let out = Lexer::lex(src).unwrap();
    assert_eq!(texts(&out), vec!["int", "main", "(", "void", ")"]);
    let s = out.token_source(1);
    assert_eq!((s.start, s.end), (5, 9));
}

#[test]
fn non_ascii_letter_after_digits_is_an_error() {
    assert!(matches!(
        Lexer::lex("1é"),
        Err(LexError::InvalidNumericConstant { c: 'é', offset: 1 })
    ));
    assert!(matches!(Lexer::lex("1 é"), Err(LexError::InvalidChar { c: 'é', offset: 2 })));
    assert_eq!(texts(&Lexer::lex("12\u{a0}3").unwrap()), vec!["12", "3"]);
}

#[test]
fn at_sign_after_comment_is_an_error() {
    assert!(matches!(
        Lexer::lex("x /* c */ @ y"),
        Err(LexError::InvalidChar { c: '@', offset: 10 })
    ));
    assert!(matches!(
        Lexer::lex("x // c\n@"),
        Err(LexError::InvalidChar { c: '@', offset: 7 })
    ));
}

#[test]
fn block_comment_ends_at_first_close() {
    let out = Lexer::lex("/* **/x y").unwrap();
    assert_eq!(texts(&out), vec!["x", "y"]);
    assert_eq!((out.token_source(0).start, out.token_source(0).end), (6, 7));
}
