use rustcc::ast::{NodeKind, Stmt};
use rustcc::lexer::Lexer;
use rustcc::parser::{ParseError, Parser};
use rustcc::pipeline::{parse, CompileError};
use rustcc::token::{Keyword, TokenType};

#[test]
fn parse_zero() {
    let source = "0";

    let tokens = Lexer::lex(source).unwrap();
    let first = tokens.get(0).unwrap();
    let mut parser = Parser::from_tokens(tokens);

    let constant_id = parser.parse_constant().unwrap();
    assert_eq!(constant_id.0, 0);

    let constant = parser.nodes().constant(constant_id);
    assert_eq!(constant.value, 0);
    assert_eq!(constant.token, first);
}

#[test]
fn parse_one() {
    let source = "1";

    let tokens = Lexer::lex(source).unwrap();
    let first = tokens.get(0).unwrap();
    let mut parser = Parser::from_tokens(tokens);

    let constant_id = parser.parse_constant().unwrap();
    assert_eq!(constant_id.0, 0);

    let constant = parser.nodes().constant(constant_id);
    assert_eq!(constant.value, 1);
    assert_eq!(constant.token, first);
}

#[test]
fn parse_i64_max() {
    let source = format!("{}", i64::MAX);

    let tokens = Lexer::lex(&source).unwrap();
    let first = tokens.get(0).unwrap();
    let mut parser = Parser::from_tokens(tokens);

    let constant_id = parser.parse_constant().unwrap();
    assert_eq!(constant_id.0, 0);

    let constant = parser.nodes().constant(constant_id);
    assert_eq!(constant.value, i64::MAX);
    assert_eq!(constant.token, first);
}

#[test]
fn constant_above_i64_max_is_rejected() {
    let tokens = Lexer::lex("9223372036854775808").unwrap();
    let first = tokens.get(0).unwrap();
    let mut parser = Parser::from_tokens(tokens);
    assert_eq!(parser.parse_constant(), Err(ParseError::ConstantOutOfRange { found: first }));
}

#[test]
fn tree_holds_children_before_parents() {
    let tree = parse("int main(void) { return 2; }").unwrap();
    assert_eq!(tree.len(), 6);
    let program = tree.program_node().unwrap();
    assert_eq!(program.0, 5);
    let function = tree.fn_def(tree.program(program).main);
    assert_eq!(tree.tokens().token_text(tree.ident(function.name).token.handle), "main");
    match tree.stmt(function.body) {
        Stmt::Return { expr, .. } => {
            assert!(matches!(tree.node(rustcc::ast::NodeId(expr.0)).kind, NodeKind::Expr(_)));
        }
        Stmt::If { .. } => panic!("expected a return statement"),
    }
}

#[test]
fn wrong_keyword_is_reported() {
    let err = parse("int main(void) { retur 2; }").unwrap_err();
    match err {
        CompileError::Parse(ParseError::UnexpectedKeyword { expected, found }) => {
            assert_eq!(expected, Keyword::Return);
            assert_eq!(found.handle, 6);
        }
        other => panic!("unexpected error {:?}", other),
    }
}

#[test]
fn wrong_token_kind_is_reported() {
    let err = parse("int main(void) { return 2 }").unwrap_err();
    match err {
        CompileError::Parse(ParseError::UnexpectedToken { expected, found }) => {
            assert_eq!(expected, TokenType::Semicolon);
            assert_eq!(found.unwrap().ttype, TokenType::CloseBrace);
        }
        other => panic!("unexpected error {:?}", other),
    }
}

#[test]
fn missing_tokens_are_reported() {
    let err = parse("int main(void) {").unwrap_err();
    assert_eq!(
        err,
        CompileError::Parse(ParseError::UnexpectedToken { expected: TokenType::Ident, found: None })
    );
}
