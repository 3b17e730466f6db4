//! The source IR: a syntax tree lowered to a list of moves.
use vstd::prelude::*;
use vstd::string::*;
use vstd::utf8::*;

use crate::ast::{
    is_constant_at, is_fn_def_at, is_program_at, is_stmt_at, Expr, Node, NodeId,
    NodeKind as AstKind, Stmt, Tree,
};
use crate::lexer::TokenizedOutput;
use crate::text::{append_signed_decimal, signed_decimal};

verus! {

#[derive(Debug, Clone, Copy, PartialEq, Eq, Structural)]
pub enum Operand {
    Immediate(i64),
    Register,
}

#[derive(Debug, Clone, Copy, PartialEq, Eq, Structural)]
pub enum Instruction {
    Mov { src: Operand, dst: Operand },
    Ret,
}

#[derive(Debug, Clone, PartialEq, Eq)]
pub struct FnDef {
    pub name: String,
    pub body: Vec<Instruction>,
}

#[derive(Debug, Clone, PartialEq, Eq)]
pub struct Program {
    pub main: FnDef,
}

/// The source IR of one compilation unit.
#[derive(Debug, Clone, PartialEq, Eq)]
pub struct Tacky {
    pub nodes: Program,
}

/// What one syntax node lowers to.
#[derive(Debug, Clone, PartialEq, Eq)]
pub enum NodeKind {
    Program(Program),
    FnDef(FnDef),
    Instructions(Vec<Instruction>),
    Operand(Operand),
}

/// A syntax node that lowering does not define yet.
#[derive(Debug, Clone, Copy, PartialEq, Eq, Structural)]
pub enum LowerError {
    /// The tree holds no `Program` node.
    MissingProgram,
    /// An `if` statement.
    UnsupportedStatement,
    /// A node, such as a bare identifier, that lowers to no IR of its own.
    UnsupportedNode,
}

/// The value of an expression node.
pub open spec fn expr_value(n: Seq<Node>, e: Expr) -> i64 {
    match e {
        Expr::Constant { constant } => n[constant.0 as int].kind->Constant_0.value,
    }
}

/// The instructions of a statement: a `return` moves its value into the
/// return register; an `if` is not lowered.
pub open spec fn stmt_instructions(n: Seq<Node>, s: Stmt) -> Option<Seq<Instruction>> {
    match s {
        Stmt::Return { expr, .. } => Some(
            seq![
                Instruction::Mov {
                    src: Operand::Immediate(expr_value(n, n[expr.0 as int].kind->Expr_0)),
                    dst: Operand::Register,
                },
            ],
        ),
        Stmt::If { .. } => None,
    }
}

/// The source text of an identifier node.
pub open spec fn ident_text(t: TokenizedOutput, n: Seq<Node>, id: int) -> Seq<u8> {
    let h = n[id].kind->Ident_0.token.handle as int;
    t.bytes().subrange(t.source_seq()[h].start as int, t.source_seq()[h].end as int)
}

/// The function that a `FnDef` node lowers to: its name is the identifier's
/// text and its body the statement's instructions.
pub open spec fn lowers_fn_def(t: TokenizedOutput, n: Seq<Node>, f: crate::ast::FnDef, r: FnDef) -> bool {
    &&& encode_utf8(r.name@) == ident_text(t, n, f.name.0 as int)
    &&& stmt_instructions(n, n[f.body.0 as int].kind->Stmt_0) == Some(r.body@)
}

/// The index of the first `Program` node.
pub open spec fn first_program(n: Seq<Node>) -> int {
    choose|i: int| is_program_at(n, i) && forall|j: int| 0 <= j < i ==> !(#[trigger] n[j].kind is Program)
}

/// Whether the program's statement can be lowered.
pub open spec fn lowerable(n: Seq<Node>) -> bool {
    let p = n[first_program(n)].kind->Program_0;
    let f = n[p.main.0 as int].kind->FnDef_0;
    n[f.body.0 as int].kind->Stmt_0 is Return
}

fn lower_constant(c: crate::ast::Constant) -> (r: i64)
    ensures
        r == c.value,
{
    c.value
}

fn lower_expr(tree: &Tree, e: Expr) -> (r: i64)
    requires
        tree.wf(),
        e matches Expr::Constant { constant } && is_constant_at(tree.node_seq(), constant.0 as int),
    ensures
        r == expr_value(tree.node_seq(), e),
{
    match e {
        Expr::Constant { constant } => lower_constant(tree.constant(constant)),
    }
}

fn lower_stmt(tree: &Tree, s: Stmt, ghost_index: usize) -> (r: Result<Vec<Instruction>, LowerError>)
    requires
        tree.wf(),
        is_stmt_at(tree.node_seq(), ghost_index as int),
        tree.node_seq()[ghost_index as int].kind == AstKind::Stmt(s),
    ensures
        match stmt_instructions(tree.node_seq(), s) {
            Some(body) => r matches Ok(v) && v@ == body,
            None => r == Err::<Vec<Instruction>, LowerError>(LowerError::UnsupportedStatement),
        },
{
    proof {
        assert(crate::ast::node_children_valid(tree.node_seq(), ghost_index as int));
    }
    let mut instrs: Vec<Instruction> = Vec::new();
    match s {
        Stmt::Return { expr, .. } => {
            let e = tree.expr(expr);
            proof {
                assert(crate::ast::node_children_valid(tree.node_seq(), expr.0 as int));
            }
            let value = lower_expr(tree, e);
            instrs.push(Instruction::Mov { src: Operand::Immediate(value), dst: Operand::Register });
            assert(instrs@ =~= stmt_instructions(tree.node_seq(), s)->Some_0);
        },
        Stmt::If { .. } => {
            return Err(LowerError::UnsupportedStatement);
        },
    }
    Ok(instrs)
}

fn lower_fn_def(tree: &Tree, f: crate::ast::FnDef, index: usize) -> (r: Result<FnDef, LowerError>)
    requires
        tree.wf(),
        is_fn_def_at(tree.node_seq(), index as int),
        tree.node_seq()[index as int].kind == AstKind::FnDef(f),
    ensures
        stmt_instructions(tree.node_seq(), tree.node_seq()[f.body.0 as int].kind->Stmt_0) is Some
            ==> (r matches Ok(d) && lowers_fn_def(tree.token_output(), tree.node_seq(), f, d)),
        stmt_instructions(tree.node_seq(), tree.node_seq()[f.body.0 as int].kind->Stmt_0) is None
            ==> r == Err::<FnDef, LowerError>(LowerError::UnsupportedStatement),
{
    proof {
        assert(crate::ast::node_children_valid(tree.node_seq(), index as int));
        assert(crate::ast::node_children_valid(tree.node_seq(), f.name.0 as int));
        assert(crate::ast::node_tokens_valid(
            tree.node_seq(),
            f.name.0 as int,
            tree.token_output().token_seq().len() as int,
        ));
    }
    let ident = tree.ident(f.name);
    let text = tree.tokens().token_text(ident.token.handle);
    let name = text.to_owned();
    let body = tree.stmt(f.body);
    let instrs = lower_stmt(tree, body, f.body.0)?;
    Ok(FnDef { name, body: instrs })
}

fn lower_program(tree: &Tree, p: crate::ast::Program, index: usize) -> (r: Result<
    Program,
    LowerError,
>)
    requires
        tree.wf(),
        is_program_at(tree.node_seq(), index as int),
        tree.node_seq()[index as int].kind == AstKind::Program(p),
    ensures
        ({
            let f = tree.node_seq()[p.main.0 as int].kind->FnDef_0;
            &&& stmt_instructions(tree.node_seq(), tree.node_seq()[f.body.0 as int].kind->Stmt_0)
                is Some ==> (r matches Ok(q) && lowers_fn_def(
                tree.token_output(),
                tree.node_seq(),
                f,
                q.main,
            ))
            &&& stmt_instructions(tree.node_seq(), tree.node_seq()[f.body.0 as int].kind->Stmt_0)
                is None ==> r == Err::<Program, LowerError>(LowerError::UnsupportedStatement)
        }),
{
    proof {
        assert(crate::ast::node_children_valid(tree.node_seq(), index as int));
    }
    let f = tree.fn_def(p.main);
    let main = lower_fn_def(tree, f, p.main.0)?;
    Ok(Program { main })
}

/// Lowers the syntax tree, starting from its first `Program` node.
pub fn lower(input: &Tree) -> (r: Result<Tacky, LowerError>)
    requires
        input.wf(),
    ensures
        ({
            let n = input.node_seq();
            &&& !(exists|i: int| is_program_at(n, i)) ==> r == Err::<Tacky, LowerError>(
                LowerError::MissingProgram,
            )
            &&& (exists|i: int| is_program_at(n, i)) && !lowerable(n) ==> r == Err::<
                Tacky,
                LowerError,
            >(LowerError::UnsupportedStatement)
            &&& (exists|i: int| is_program_at(n, i)) && lowerable(n) ==> (r matches Ok(t)
                && lowers_fn_def(
                input.token_output(),
                n,
                n[n[first_program(n)].kind->Program_0.main.0 as int].kind->FnDef_0,
                t.nodes.main,
            ))
        }),
{
    let ghost n = input.node_seq();
    match input.program_node() {
        None => {
            proof {
                assert forall|i: int| !is_program_at(n, i) by {
                    if 0 <= i < n.len() {
                        assert(!(n[i].kind is Program));
                    }
                }
            }
            Err(LowerError::MissingProgram)
        },
        Some(id) => {
            proof {
                let k = first_program(n);
                assert(is_program_at(n, id.0 as int));
                assert(is_program_at(n, k) && forall|j: int|
                    0 <= j < k ==> !(#[trigger] n[j].kind is Program));
                if k < id.0 {
                    assert(!(n[k].kind is Program));
                }
                if id.0 < k {
                    assert(!(n[id.0 as int].kind is Program));
                }
                assert(k == id.0);
                assert(crate::ast::node_children_valid(n, k));
                let p = n[k].kind->Program_0;
                assert(crate::ast::node_children_valid(n, p.main.0 as int));
            }
            let program = input.program(id);
            let nodes = lower_program(input, program, id.0)?;
            Ok(Tacky { nodes })
        },
    }
}

/// Lowers any node by its kind: a program, a function, a statement's
/// instructions, or an expression's or constant's operand.
pub fn lower_node(tree: &Tree, id: NodeId) -> (r: Result<NodeKind, LowerError>)
    requires
        tree.wf(),
        id.0 < tree.node_seq().len(),
    ensures
        tree.node_seq()[id.0 as int].kind is Ident ==> r == Err::<NodeKind, LowerError>(
            LowerError::UnsupportedNode,
        ),
        tree.node_seq()[id.0 as int].kind matches AstKind::Constant(c) ==> r == Ok::<
            NodeKind,
            LowerError,
        >(NodeKind::Operand(Operand::Immediate(c.value))),
        tree.node_seq()[id.0 as int].kind matches AstKind::Expr(e) ==> r == Ok::<
            NodeKind,
            LowerError,
        >(NodeKind::Operand(Operand::Immediate(expr_value(tree.node_seq(), e)))),
        tree.node_seq()[id.0 as int].kind matches AstKind::Stmt(s) ==> match stmt_instructions(
            tree.node_seq(),
            s,
        ) {
            Some(body) => r matches Ok(NodeKind::Instructions(v)) && v@ == body,
            None => r == Err::<NodeKind, LowerError>(LowerError::UnsupportedStatement),
        },
        tree.node_seq()[id.0 as int].kind matches AstKind::FnDef(f) ==> (stmt_instructions(
            tree.node_seq(),
            tree.node_seq()[f.body.0 as int].kind->Stmt_0,
        ) is Some <==> r is Ok) && (r matches Ok(k) ==> k matches NodeKind::FnDef(d)
            && lowers_fn_def(tree.token_output(), tree.node_seq(), f, d)),
        tree.node_seq()[id.0 as int].kind matches AstKind::Program(p) ==> ({
            let f = tree.node_seq()[p.main.0 as int].kind->FnDef_0;
            &&& (stmt_instructions(tree.node_seq(), tree.node_seq()[f.body.0 as int].kind->Stmt_0)
                is Some <==> r is Ok)
            &&& (r matches Ok(k) ==> (k matches NodeKind::Program(q) && lowers_fn_def(
                tree.token_output(),
                tree.node_seq(),
                f,
                q.main,
            )))
        }),
{
    let node = tree.node(id);
    proof {
        assert(crate::ast::node_children_valid(tree.node_seq(), id.0 as int));
    }
    match node.kind {
        AstKind::Program(p) => match lower_program(tree, p, id.0) {
            Ok(q) => Ok(NodeKind::Program(q)),
            Err(e) => Err(e),
        },
        AstKind::FnDef(f) => match lower_fn_def(tree, f, id.0) {
            Ok(d) => Ok(NodeKind::FnDef(d)),
            Err(e) => Err(e),
        },
        AstKind::Stmt(s) => match lower_stmt(tree, s, id.0) {
            Ok(v) => Ok(NodeKind::Instructions(v)),
            Err(e) => Err(e),
        },
        AstKind::Expr(e) => {
            let Expr::Constant { constant } = e;
            Ok(NodeKind::Operand(Operand::Immediate(lower_expr(tree, e))))
        },
        AstKind::Ident(_) => Err(LowerError::UnsupportedNode),
        AstKind::Constant(c) => Ok(NodeKind::Operand(Operand::Immediate(lower_constant(c)))),
    }
}

pub open spec fn operand_text(o: Operand) -> Seq<char> {
    match o {
        Operand::Immediate(v) => "Immediate("@ + signed_decimal(v as int) + ")"@,
        Operand::Register => "Register"@,
    }
}

/// One instruction of the dump, on a line of its own.
pub open spec fn instruction_text(i: Instruction) -> Seq<char> {
    "  Instruction ["@ + match i {
        Instruction::Mov { src, dst } => "Mov(src: "@ + operand_text(src) + ", dest: "@ + operand_text(
            dst,
        ) + ")"@,
        Instruction::Ret => "Ret"@,
    } + "],\n"@
}

pub open spec fn instructions_text(b: Seq<Instruction>) -> Seq<char>
    decreases b.len(),
{
    if b.len() == 0 {
        Seq::empty()
    } else {
        instructions_text(b.drop_last()) + instruction_text(b.last())
    }
}

/// The indented dump of a program: its function's name and instructions.
pub open spec fn dump_text(p: Program) -> Seq<char> {
    "Program(\n"@ + " Function(\n"@ + "  name = "@ + p.main.name@ + "\n"@ + "  instructions = [\n"@
        + instructions_text(p.main.body@) + "  ]\n"@ + " )\n"@ + ")\n"@
}

fn dump_operand(o: Operand, out: &mut String)
    ensures
        final(out)@ == old(out)@ + operand_text(o),
{
    match o {
        Operand::Immediate(v) => {
            out.append("Immediate(");
            append_signed_decimal(out, v);
            out.append(")");
        },
        Operand::Register => {
            out.append("Register");
        },
    }
    assert(final(out)@ =~= old(out)@ + operand_text(o));
}

fn dump_instruction(i: Instruction, out: &mut String)
    ensures
        final(out)@ == old(out)@ + instruction_text(i),
{
    out.append("  Instruction [");
    match i {
        Instruction::Mov { src, dst } => {
            out.append("Mov(src: ");
            dump_operand(src, out);
            out.append(", dest: ");
            dump_operand(dst, out);
            out.append(")");
        },
        Instruction::Ret => {
            out.append("Ret");
        },
    }
    out.append("],\n");
    assert(final(out)@ =~= old(out)@ + instruction_text(i));
}

impl Tacky {
    /// The indented dump of the program.
    pub fn dump(&self) -> (r: String)
        ensures
            r@ == dump_text(self.nodes),
    {
        let f = &self.nodes.main;
        let mut out = String::new();
        out.append("Program(\n");
        out.append(" Function(\n");
        out.append("  name = ");
        out.append(f.name.as_str());
        out.append("\n");
        out.append("  instructions = [\n");
        let ghost head = out@;
        let mut i: usize = 0;
        while i < f.body.len()
            invariant
                i <= f.body@.len(),
                out@ == head + instructions_text(f.body@.take(i as int)),
            decreases f.body@.len() - i,
        {
            dump_instruction(f.body[i], &mut out);
            proof {
                let t = f.body@.take(i + 1);
                assert(t.drop_last() =~= f.body@.take(i as int));
            }
            i = i + 1;
            assert(out@ =~= head + instructions_text(f.body@.take(i as int)));
        }
        assert(f.body@.take(i as int) =~= f.body@);
        out.append("  ]\n");
        out.append(" )\n");
        out.append(")\n");
        assert(out@ =~= dump_text(self.nodes));
        out
    }
}

} // verus!
