use rustcc::pipeline::{codegen, lex, parse, tacky};
use rustcc::token::{Keyword, TokenType};

const SRC: &str = "int main(void) {\n    return 2;\n}";

#[test]
fn token_dump_lists_line_kind_and_text() {
    let out = lex(SRC).unwrap();
    assert_eq!(
        out.dump(),
        "0: [Ident] \"int\"\n0: [Ident] \"main\"\n0: [OpenParen] \"(\"\n0: [Ident] \"void\"\n\
         0: [CloseParen] \")\"\n0: [OpenBrace] \"{\"\n1: [Ident] \"return\"\n1: [Constant] \"2\"\n\
         1: [Semicolon] \";\"\n2: [CloseBrace] \"}\"\n"
    );
}

#[test]
fn tree_dump_is_indented() {
    let tree = parse(SRC).unwrap();
    assert_eq!(
        tree.dump(),
        "Program(\n Function(\n  Name = main,\n  Body = Return(\n   Constant(2)\n  )\n )\n)\n"
    );
}

#[test]
fn source_ir_dump() {
    let ir = tacky(SRC).unwrap();
    assert_eq!(
        ir.dump(),
        "Program(\n Function(\n  name = main\n  instructions = [\n  \
         Instruction [Mov(src: Immediate(2), dest: Register)],\n  ]\n )\n)\n"
    );
}

#[test]
fn target_ir_dump_ends_with_return() {
    let ir = codegen(SRC).unwrap();
    assert_eq!(
        ir.dump(),
        "Program(\n Function(\n  name = main\n  instructions = [\n  \
         Instruction [Mov(src: Immediate(2), dest: Register)],\n  Instruction [Ret],\n  ]\n )\n)\n"
    );
}

#[test]
fn names_and_spellings() {
    assert_eq!(TokenType::FrontSlash.name(), "FrontSlash");
    assert_eq!(Keyword::Return.spelling(), b"return".to_vec());
    assert_eq!(Keyword::Int.spelling(), b"int".to_vec());
    assert_eq!(Keyword::Void.spelling(), b"void".to_vec());
}
