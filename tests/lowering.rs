use rustcc::ast::{
    Constant, ConstantId, Expr, ExprId, FnDef, FnDefId, Ident, IdentId, NodeId, NodeKind, Program,
    Stmt, StmtId, Tree,
};
use rustcc::lexer::Lexer;
use rustcc::tacky::{self, LowerError, Operand};
use rustcc::x86;

#[test]
fn empty_tree_has_no_program() {
    let tokens = Lexer::lex("").unwrap();
    let tree = Tree::new(tokens);
    assert_eq!(tree.program_node(), None);
    assert_eq!(tacky::lower(&tree), Err(LowerError::MissingProgram));
    assert_eq!(tree.dump(), "");
}

/// `int main(void) { if 1 then return 7 }`, built by hand.
fn tree_with_if(tokens: rustcc::lexer::TokenizedOutput<'_>) -> Tree<'_> {
    let name_token = tokens.get(1).unwrap();
    let cond_token = tokens.get(3).unwrap();
    let value_token = tokens.get(5).unwrap();
    let ret_token = tokens.get(4).unwrap();
    let mut tree = Tree::with_capacity(tokens, 10);
    let name = tree.push(NodeKind::Ident(Ident { token: name_token }));
    let one = tree.push(NodeKind::Constant(Constant { value: 1, token: cond_token }));
    let cond = tree.push(NodeKind::Expr(Expr::Constant { constant: ConstantId(one.0) }));
    let seven = tree.push(NodeKind::Constant(Constant { value: 7, token: value_token }));
    let value = tree.push(NodeKind::Expr(Expr::Constant { constant: ConstantId(seven.0) }));
    let ret = tree.push(NodeKind::Stmt(Stmt::Return { expr: ExprId(value.0), token: ret_token }));
    let branch = tree.push(NodeKind::Stmt(Stmt::If {
        cond: ExprId(cond.0),
        cond_true: StmtId(ret.0),
        cond_false: None,
    }));
    let function = tree.push(NodeKind::FnDef(FnDef { name: IdentId(name.0), body: StmtId(branch.0) }));
    tree.push(NodeKind::Program(Program { main: FnDefId(function.0) }));
    tree
}

#[test]
fn if_statement_is_not_lowered() {
    let tokens = Lexer::lex("int main ( 1 return 7").unwrap();
    let tree = tree_with_if(tokens);
    assert_eq!(tacky::lower(&tree), Err(LowerError::UnsupportedStatement));
    assert_eq!(
        tree.dump(),
        "Program(\n Function(\n  Name = main,\n  Body = If(\n   Constant(1)\n  ) Then (\n   \
         Return(\n    Constant(7)\n   )\n  )\n )\n)\n"
    );
}

#[test]
fn nodes_lower_by_kind() {
    let tokens = Lexer::lex("int main ( 1 return 7").unwrap();
    let tree = tree_with_if(tokens);
    assert_eq!(tacky::lower_node(&tree, NodeId(0)), Err(LowerError::UnsupportedNode));
    assert_eq!(
        tacky::lower_node(&tree, NodeId(1)),
        Ok(tacky::NodeKind::Operand(Operand::Immediate(1)))
    );
    assert_eq!(
        tacky::lower_node(&tree, NodeId(4)),
        Ok(tacky::NodeKind::Operand(Operand::Immediate(7)))
    );
    assert_eq!(
        tacky::lower_node(&tree, NodeId(5)),
        Ok(tacky::NodeKind::Instructions(vec![tacky::Instruction::Mov {
            src: Operand::Immediate(7),
            dst: Operand::Register
        }]))
    );
    assert_eq!(tacky::lower_node(&tree, NodeId(6)), Err(LowerError::UnsupportedStatement));
}

#[test]
fn target_lowering_appends_return() {
    let ir = tacky::Tacky {
        nodes: tacky::Program {
            main: tacky::FnDef {
                name: "f".to_string(),
                body: vec![
                    tacky::Instruction::Mov { src: Operand::Immediate(-3), dst: Operand::Register },
                    tacky::Instruction::Mov { src: Operand::Immediate(4), dst: Operand::Register },
                ],
            },
        },
    };
    let lowered = x86::lower(&ir);
    assert_eq!(lowered.nodes.main.name, "f");
    assert_eq!(
        lowered.nodes.main.body,
        vec![
            x86::Instruction::Mov { src: x86::Operand::Immediate(-3), dst: x86::Operand::Register },
            x86::Instruction::Mov { src: x86::Operand::Immediate(4), dst: x86::Operand::Register },
            x86::Instruction::Ret,
        ]
    );
}

#[test]
fn negative_and_extreme_immediates_render() {
    let ir = x86::X86 {
        nodes: x86::Program {
            main: x86::FnDef {
                name: "g".to_string(),
                body: vec![
                    x86::Instruction::Mov {
                        src: x86::Operand::Immediate(i64::MIN),
                        dst: x86::Operand::Register,
                    },
                    x86::Instruction::Ret,
                ],
            },
        },
    };
    let text = rustcc::codegen::Codegen::emit_from_input(&ir, rustcc::codegen::Target::linux()).unwrap();
    assert_eq!(
        text,
        ".globl g\ng:\n    movl $-9223372036854775808, %eax\n    ret\n\n.section .note.GNU-stack,\"\",@progbits\n"
    );
    let mut codegen = rustcc::codegen::Codegen::new(&ir, rustcc::codegen::Target::macos());
    codegen.emit();
    assert_eq!(codegen.output(), ".globl _g\n_g:\n    movl $-9223372036854775808, %eax\n    ret\n");
}
