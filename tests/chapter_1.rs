use rustcc::codegen::Target;
use rustcc::ast::{Expr, Stmt};
use rustcc::pipeline::{assembly, codegen, lex, parse, tacky};
use rustcc::token::TokenType;
use rustcc::tacky as source_ir;
use rustcc::x86::{Instruction, Operand};

const RETURN_0: &str = "int main(void) {
        return 0;
    }";

const RETURN_2: &str = "int main(void) {
        return 2;
    }";

const NO_NEWLINES: &str = "int main(void){return 0;}";

const MULTI_DIGITS: &str = "int main(void) {
        return 100;
    }";

const NEWLINES: &str = "int
            main
            (
            void
            )
            {
            return
            0
            ;
        }";

const SPACES: &str = " int   main    (  void)  {   return  0 ; } ";

const TABS: &str = " int\tmain\t(\tvoid)\t{\treturn\t0\t;\t} ";

fn linux_assembly(value: &str) -> String {
    format!(
        ".globl main\nmain:\n    movl ${}, %eax\n    ret\n\n.section .note.GNU-stack,\"\",@progbits\n",
        value
    )
}

fn lex_error(src: &str) -> String {
    match lex(src) {
        Err(e) => e.message(),
        Ok(_) => panic!("Expected input '{}' to fail", src),
    }
}

#[test]
fn same_representation() {
    let mut programs = Vec::new();

    let return_0 = codegen(RETURN_0).unwrap();
    programs.push(codegen(NO_NEWLINES).unwrap());
    programs.push(codegen(NEWLINES).unwrap());
    programs.push(codegen(SPACES).unwrap());
    programs.push(codegen(TABS).unwrap());

    for p in programs {
        assert_eq!(return_0, p);
    }
}

#[test]
fn chapter_1_return_0() {
    assert_eq!(assembly(RETURN_0, Target::linux()).unwrap(), linux_assembly("0"));
}

#[test]
fn chapter_1_return_2() {
    assert_eq!(assembly(RETURN_2, Target::linux()).unwrap(), linux_assembly("2"));
}

#[test]
fn chapter_1_no_newlines() {
    assert_eq!(assembly(NO_NEWLINES, Target::linux()).unwrap(), linux_assembly("0"));
}

#[test]
fn chapter_1_multi_digit() {
    assert_eq!(assembly(MULTI_DIGITS, Target::linux()).unwrap(), linux_assembly("100"));
}

#[test]
fn chapter_1_newlines() {
    assert_eq!(assembly(NEWLINES, Target::linux()).unwrap(), linux_assembly("0"));
}

#[test]
fn chapter_1_spaces() {
    assert_eq!(assembly(SPACES, Target::linux()).unwrap(), linux_assembly("0"));
}

#[test]
fn chapter_1_tabs() {
    assert_eq!(assembly(TABS, Target::linux()).unwrap(), linux_assembly("0"));
}

#[test]
fn at_sign() {
    let src = "int main(void) { return 0@1; }";
    assert_eq!("Invalid char '@'", lex_error(src));
}

#[test]
fn backslash() {
    let src = "\\";
    assert_eq!("Invalid char '\\'", lex_error(src));
}

#[test]
fn backtick() {
    let src = "`";
    assert_eq!("Invalid char '`'", lex_error(src));
}

#[test]
fn invalid_identifier() {
    let src = "int main(void) { return 1foo; }";
    assert_eq!("Invalid char in numeric constant 'f'", lex_error(src));
}

#[test]
fn invalid_identifier_2() {
    let src = "int main(void) { return @b; }";
    assert_eq!("Invalid char '@'", lex_error(src));
}

#[test]
fn macos_symbols_have_underscore_and_no_note() {
    assert_eq!(
        assembly(RETURN_2, Target::macos()).unwrap(),
        ".globl _main\n_main:\n    movl $2, %eax\n    ret\n"
    );
}

#[test]
fn round_trip_minimal_program() {
    let src = "int main(void) { return 2; }";
    let tokens = lex(src).unwrap();
    let seen: Vec<(TokenType, &str)> =
        (0..tokens.len()).map(|i| (tokens.tokens()[i].ttype, tokens.token_text(i))).collect();
    assert_eq!(
        seen,
        vec![
            (TokenType::Ident, "int"),
            (TokenType::Ident, "main"),
            (TokenType::OpenParen, "("),
            (TokenType::Ident, "void"),
            (TokenType::CloseParen, ")"),
            (TokenType::OpenBrace, "{"),
            (TokenType::Ident, "return"),
            (TokenType::Constant, "2"),
            (TokenType::Semicolon, ";"),
            (TokenType::CloseBrace, "}"),
        ]
    );
    let tree = parse(src).unwrap();
    let function = tree.fn_def(tree.program(tree.program_node().unwrap()).main);
    match tree.stmt(function.body) {
        Stmt::Return { expr, .. } => match tree.expr(expr) {
            Expr::Constant { constant } => assert_eq!(tree.constant(constant).value, 2),
        },
        Stmt::If { .. } => panic!("expected a return statement"),
    }
    let ir = tacky(src).unwrap();
    assert_eq!(ir.nodes.main.name, "main");
    assert_eq!(
        ir.nodes.main.body,
        vec![source_ir::Instruction::Mov {
            src: source_ir::Operand::Immediate(2),
            dst: source_ir::Operand::Register
        }]
    );
    let target = codegen(src).unwrap();
    assert_eq!(target.nodes.main.name, "main");
    assert_eq!(
        target.nodes.main.body,
        vec![
            Instruction::Mov { src: Operand::Immediate(2), dst: Operand::Register },
            Instruction::Ret
        ]
    );
    let text = assembly(src, Target::linux()).unwrap();
    assert!(text.contains(".globl main\n"));
    assert!(text.contains("main:\n"));
    assert!(text.contains("movl $2, %eax"));
    assert!(text.contains("    ret\n"));
}

#[test]
fn comments_are_skipped() {
    let src = "// leading\nint main(void) { /* the answer */ return 42; } // trailing";
    assert_eq!(assembly(src, Target::linux()).unwrap(), linux_assembly("42"));
}

#[test]
fn digit_separators_are_ignored() {
    let src = "int main(void) { return 1_000; }";
    assert_eq!(assembly(src, Target::linux()).unwrap(), linux_assembly("1000"));
}
