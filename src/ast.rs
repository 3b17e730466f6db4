//! The syntax tree: an append-only arena of nodes addressed by typed handles.
use vstd::pervasive::unreached;
use vstd::prelude::*;
use vstd::string::*;
use vstd::utf8::*;

use crate::lexer::TokenizedOutput;
use crate::text::{append_signed_decimal, signed_decimal};
use crate::token::Token;

verus! {

/// A handle to any node.
#[derive(Debug, Clone, Copy, PartialEq, Eq, Structural)]
pub struct NodeId(pub usize);

/// A handle to a `Program` node.
#[derive(Debug, Clone, Copy, PartialEq, Eq, Structural)]
pub struct ProgramId(pub usize);

/// A handle to a `FnDef` node.
#[derive(Debug, Clone, Copy, PartialEq, Eq, Structural)]
pub struct FnDefId(pub usize);

/// A handle to a `Stmt` node.
#[derive(Debug, Clone, Copy, PartialEq, Eq, Structural)]
pub struct StmtId(pub usize);

/// A handle to an `Expr` node.
#[derive(Debug, Clone, Copy, PartialEq, Eq, Structural)]
pub struct ExprId(pub usize);

/// A handle to an `Ident` node.
#[derive(Debug, Clone, Copy, PartialEq, Eq, Structural)]
pub struct IdentId(pub usize);

/// A handle to a `Constant` node.
#[derive(Debug, Clone, Copy, PartialEq, Eq, Structural)]
pub struct ConstantId(pub usize);

#[derive(Debug, Clone, Copy, PartialEq, Eq, Structural)]
pub struct Program {
    pub main: FnDefId,
}

#[derive(Debug, Clone, Copy, PartialEq, Eq, Structural)]
pub struct FnDef {
    pub name: IdentId,
    pub body: StmtId,
}

#[derive(Debug, Clone, Copy, PartialEq, Eq, Structural)]
pub enum Stmt {
    Return { expr: ExprId, token: Token },
    If { cond: ExprId, cond_true: StmtId, cond_false: Option<StmtId> },
}

#[derive(Debug, Clone, Copy, PartialEq, Eq, Structural)]
pub enum Expr {
    Constant { constant: ConstantId },
}

#[derive(Debug, Clone, Copy, PartialEq, Eq, Structural)]
pub struct Ident {
    pub token: Token,
}

#[derive(Debug, Clone, Copy, PartialEq, Eq, Structural)]
pub struct Constant {
    pub value: i64,
    pub token: Token,
}

/// Every kind of syntax node.
#[derive(Debug, Clone, Copy, PartialEq, Eq, Structural)]
pub enum NodeKind {
    Program(Program),
    FnDef(FnDef),
    Stmt(Stmt),
    Expr(Expr),
    Ident(Ident),
    Constant(Constant),
}

/// A node of the tree.
#[derive(Debug, Clone, Copy, PartialEq, Eq, Structural)]
pub struct Node {
    pub kind: NodeKind,
}

pub open spec fn is_program_at(n: Seq<Node>, i: int) -> bool {
    0 <= i < n.len() && n[i].kind is Program
}

pub open spec fn is_fn_def_at(n: Seq<Node>, i: int) -> bool {
    0 <= i < n.len() && n[i].kind is FnDef
}

pub open spec fn is_stmt_at(n: Seq<Node>, i: int) -> bool {
    0 <= i < n.len() && n[i].kind is Stmt
}

pub open spec fn is_expr_at(n: Seq<Node>, i: int) -> bool {
    0 <= i < n.len() && n[i].kind is Expr
}

pub open spec fn is_ident_at(n: Seq<Node>, i: int) -> bool {
    0 <= i < n.len() && n[i].kind is Ident
}

pub open spec fn is_constant_at(n: Seq<Node>, i: int) -> bool {
    0 <= i < n.len() && n[i].kind is Constant
}

/// The handles held by the node at `i` point to earlier nodes of the kinds
/// that their types promise.
pub open spec fn node_children_valid(n: Seq<Node>, i: int) -> bool {
    match n[i].kind {
        NodeKind::Program(p) => p.main.0 < i && is_fn_def_at(n, p.main.0 as int),
        NodeKind::FnDef(f) => f.name.0 < i && is_ident_at(n, f.name.0 as int) && f.body.0 < i
            && is_stmt_at(n, f.body.0 as int),
        NodeKind::Stmt(Stmt::Return { expr, .. }) => expr.0 < i && is_expr_at(n, expr.0 as int),
        NodeKind::Stmt(Stmt::If { cond, cond_true, cond_false }) => cond.0 < i && is_expr_at(
            n,
            cond.0 as int,
        ) && cond_true.0 < i && is_stmt_at(n, cond_true.0 as int) && (cond_false matches Some(
            c,
        ) ==> c.0 < i && is_stmt_at(n, c.0 as int)),
        NodeKind::Expr(Expr::Constant { constant }) => constant.0 < i && is_constant_at(
            n,
            constant.0 as int,
        ),
        NodeKind::Ident(_) => true,
        NodeKind::Constant(_) => true,
    }
}

/// The tokens held by the node at `i` are tokens of a stream of `count`.
pub open spec fn node_tokens_valid(n: Seq<Node>, i: int, count: int) -> bool {
    match n[i].kind {
        NodeKind::Stmt(Stmt::Return { token, .. }) => token.handle < count,
        NodeKind::Ident(ident) => ident.token.handle < count,
        NodeKind::Constant(c) => c.token.handle < count,
        _ => true,
    }
}

/// Every node refers only to earlier nodes of the promised kinds, and to
/// tokens of the stream: the tree is acyclic by construction.
pub open spec fn nodes_wf(n: Seq<Node>, count: int) -> bool {
    forall|i: int|
        0 <= i < n.len() ==> #[trigger] node_children_valid(n, i) && node_tokens_valid(n, i, count)
}

/// Appending nodes keeps every handle of the shorter tree pointing at the
/// same node, hence at a node of the kind its type promises.
pub proof fn lemma_handles_stay_valid(before: Seq<Node>, after: Seq<Node>, i: int)
    requires
        before.is_prefix_of(after),
        0 <= i < before.len(),
    ensures
        after[i] == before[i],
        is_program_at(before, i) ==> is_program_at(after, i),
        is_fn_def_at(before, i) ==> is_fn_def_at(after, i),
        is_stmt_at(before, i) ==> is_stmt_at(after, i),
        is_expr_at(before, i) ==> is_expr_at(after, i),
        is_ident_at(before, i) ==> is_ident_at(after, i),
        is_constant_at(before, i) ==> is_constant_at(after, i),
{
}

/// The syntax tree of one compilation unit, together with the tokens that
/// its nodes refer to. Children are always appended before their parents.
#[derive(Debug)]
pub struct Tree<'src> {
    tokens: TokenizedOutput<'src>,
    nodes: Vec<Node>,
}

impl<'src> Tree<'src> {
    pub closed spec fn node_seq(&self) -> Seq<Node> {
        self.nodes@
    }

    pub closed spec fn token_output(&self) -> TokenizedOutput<'src> {
        self.tokens
    }

    pub open spec fn wf(&self) -> bool {
        &&& self.token_output().wf()
        &&& nodes_wf(self.node_seq(), self.token_output().token_seq().len() as int)
    }

    pub fn new(tokens: TokenizedOutput<'src>) -> (r: Tree<'src>)
        requires
            tokens.wf(),
        ensures
            r.wf(),
            r.token_output() == tokens,
            r.node_seq().len() == 0,
    {
        Tree { tokens, nodes: Vec::new() }
    }

    pub fn with_capacity(tokens: TokenizedOutput<'src>, cap: usize) -> (r: Tree<'src>)
        requires
            tokens.wf(),
        ensures
            r.wf(),
            r.token_output() == tokens,
            r.node_seq().len() == 0,
    {
        Tree { tokens, nodes: Vec::with_capacity(cap) }
    }

    pub fn tokens(&self) -> (r: &TokenizedOutput<'src>)
        ensures
            *r == self.token_output(),
    {
        &self.tokens
    }

    pub fn len(&self) -> (r: usize)
        ensures
            r == self.node_seq().len(),
    {
        self.nodes.len()
    }

    /// Appends a node whose handles point to earlier nodes of the promised
    /// kinds, and returns its handle.
    pub fn push(&mut self, kind: NodeKind) -> (r: NodeId)
        requires
            old(self).wf(),
            node_children_valid(old(self).node_seq().push(Node { kind }), old(self).node_seq().len() as int),
            node_tokens_valid(
                old(self).node_seq().push(Node { kind }),
                old(self).node_seq().len() as int,
                old(self).token_output().token_seq().len() as int,
            ),
        ensures
            final(self).wf(),
            final(self).token_output() == old(self).token_output(),
            final(self).node_seq() == old(self).node_seq().push(Node { kind }),
            r.0 == old(self).node_seq().len(),
    {
        let id = self.nodes.len();
        self.nodes.push(Node { kind });
        proof {
            let n = self.nodes@;
            let o = old(self).nodes@;
            let count = self.tokens.token_seq().len() as int;
            assert forall|i: int| 0 <= i < n.len() implies #[trigger] node_children_valid(n, i)
                && node_tokens_valid(n, i, count) by {
                if i < o.len() {
                    assert(node_children_valid(o, i) && node_tokens_valid(o, i, count));
                    assert(n[i] == o[i]);
                    match n[i].kind {
                        NodeKind::Program(p) => {
                            assert(n[p.main.0 as int] == o[p.main.0 as int]);
                        },
                        NodeKind::FnDef(f) => {
                            assert(n[f.name.0 as int] == o[f.name.0 as int]);
                            assert(n[f.body.0 as int] == o[f.body.0 as int]);
                        },
                        NodeKind::Stmt(Stmt::Return { expr, .. }) => {
                            assert(n[expr.0 as int] == o[expr.0 as int]);
                        },
                        NodeKind::Stmt(Stmt::If { cond, cond_true, cond_false }) => {
                            assert(n[cond.0 as int] == o[cond.0 as int]);
                            assert(n[cond_true.0 as int] == o[cond_true.0 as int]);
                            if let Some(c) = cond_false {
                                assert(n[c.0 as int] == o[c.0 as int]);
                            }
                        },
                        NodeKind::Expr(Expr::Constant { constant }) => {
                            assert(n[constant.0 as int] == o[constant.0 as int]);
                        },
                        _ => {},
                    }
                }
            }
        }
        NodeId(id)
    }

    /// The node under any handle.
    pub fn node(&self, id: NodeId) -> (r: Node)
        requires
            id.0 < self.node_seq().len(),
        ensures
            r == self.node_seq()[id.0 as int],
    {
        self.nodes[id.0]
    }

    pub fn program(&self, id: ProgramId) -> (r: Program)
        requires
            is_program_at(self.node_seq(), id.0 as int),
        ensures
            NodeKind::Program(r) == self.node_seq()[id.0 as int].kind,
    {
        match self.nodes[id.0].kind {
            NodeKind::Program(p) => p,
            _ => unreached(),
        }
    }

    pub fn fn_def(&self, id: FnDefId) -> (r: FnDef)
        requires
            is_fn_def_at(self.node_seq(), id.0 as int),
        ensures
            NodeKind::FnDef(r) == self.node_seq()[id.0 as int].kind,
    {
        match self.nodes[id.0].kind {
            NodeKind::FnDef(f) => f,
            _ => unreached(),
        }
    }

    pub fn stmt(&self, id: StmtId) -> (r: Stmt)
        requires
            is_stmt_at(self.node_seq(), id.0 as int),
        ensures
            NodeKind::Stmt(r) == self.node_seq()[id.0 as int].kind,
    {
        match self.nodes[id.0].kind {
            NodeKind::Stmt(s) => s,
            _ => unreached(),
        }
    }

    pub fn expr(&self, id: ExprId) -> (r: Expr)
        requires
            is_expr_at(self.node_seq(), id.0 as int),
        ensures
            NodeKind::Expr(r) == self.node_seq()[id.0 as int].kind,
    {
        match self.nodes[id.0].kind {
            NodeKind::Expr(e) => e,
            _ => unreached(),
        }
    }

    pub fn ident(&self, id: IdentId) -> (r: Ident)
        requires
            is_ident_at(self.node_seq(), id.0 as int),
        ensures
            NodeKind::Ident(r) == self.node_seq()[id.0 as int].kind,
    {
        match self.nodes[id.0].kind {
            NodeKind::Ident(i) => i,
            _ => unreached(),
        }
    }

    pub fn constant(&self, id: ConstantId) -> (r: Constant)
        requires
            is_constant_at(self.node_seq(), id.0 as int),
        ensures
            NodeKind::Constant(r) == self.node_seq()[id.0 as int].kind,
    {
        match self.nodes[id.0].kind {
            NodeKind::Constant(c) => c,
            _ => unreached(),
        }
    }

    /// The first `Program` node, if any.
    pub fn program_node(&self) -> (r: Option<ProgramId>)
        ensures
            match r {
                Some(id) => is_program_at(self.node_seq(), id.0 as int) && forall|j: int|
                    0 <= j < id.0 ==> !(#[trigger] self.node_seq()[j].kind is Program),
                None => forall|j: int|
                    0 <= j < self.node_seq().len() ==> !(#[trigger] self.node_seq()[j].kind is Program),
            },
    {
        let mut i: usize = 0;
        while i < self.nodes.len()
            invariant
                i <= self.nodes@.len(),
                forall|j: int| 0 <= j < i ==> !(#[trigger] self.nodes@[j].kind is Program),
            decreases self.nodes@.len() - i,
        {
            if let NodeKind::Program(_) = self.nodes[i].kind {
                return Some(ProgramId(i));
            }
            i = i + 1;
        }
        None
    }
}

/// `d` spaces.
pub open spec fn pad(d: nat) -> Seq<char> {
    Seq::new(d, |i: int| ' ')
}

/// The text of an identifier node: its token's source text.
pub open spec fn ident_node_text(t: TokenizedOutput, n: Seq<Node>, i: int) -> Seq<char> {
    let h = n[i].kind->Ident_0.token.handle as int;
    decode_utf8(t.bytes().subrange(t.source_seq()[h].start as int, t.source_seq()[h].end as int))
}

/// An expression at depth `d`, on lines of its own.
pub open spec fn expr_text(n: Seq<Node>, i: int, d: nat) -> Seq<char> {
    match n[i].kind->Expr_0 {
        Expr::Constant { constant } => pad(d) + "Constant("@ + signed_decimal(
            n[constant.0 as int].kind->Constant_0.value as int,
        ) + ")\n"@,
    }
}

/// A statement at depth `d`, starting on the current line.
pub open spec fn stmt_text(n: Seq<Node>, i: int, d: nat) -> Seq<char>
    decreases i,
{
    if i < 0 || i >= n.len() || !(n[i].kind is Stmt) {
        Seq::empty()
    } else {
        match n[i].kind->Stmt_0 {
            Stmt::Return { expr, .. } => "Return(\n"@ + expr_text(n, expr.0 as int, d + 1) + pad(d)
                + ")\n"@,
            Stmt::If { cond, cond_true, cond_false } => {
                let then_text = if cond_true.0 < i {
                    stmt_text(n, cond_true.0 as int, d + 1)
                } else {
                    Seq::empty()
                };
                let else_text = match cond_false {
                    Some(c) => if c.0 < i {
                        pad(d) + ") Else (\n"@ + pad(d + 1) + stmt_text(n, c.0 as int, d + 1)
                    } else {
                        pad(d) + ") Else (\n"@ + pad(d + 1)
                    },
                    None => Seq::empty(),
                };
                "If(\n"@ + expr_text(n, cond.0 as int, d + 1) + pad(d) + ") Then (\n"@ + pad(d + 1)
                    + then_text + else_text + pad(d) + ")\n"@
            },
        }
    }
}

/// The dump of a tree from its `Program` node at `i`.
pub open spec fn program_text(t: TokenizedOutput, n: Seq<Node>, i: int) -> Seq<char> {
    let f = n[n[i].kind->Program_0.main.0 as int].kind->FnDef_0;
    "Program(\n"@ + " Function(\n"@ + "  Name = "@ + ident_node_text(t, n, f.name.0 as int) + ",\n"@
        + "  Body = "@ + stmt_text(n, f.body.0 as int, 2) + " )\n"@ + ")\n"@
}

fn append_pad(out: &mut String, d: usize)
    ensures
        final(out)@ == old(out)@ + pad(d as nat),
{
    let mut k: usize = 0;
    while k < d
        invariant
            k <= d,
            out@ == old(out)@ + pad(k as nat),
        decreases d - k,
    {
        out.append(" ");
        proof {
            reveal_strlit(" ");
        }
        k = k + 1;
        assert(out@ =~= old(out)@ + pad(k as nat));
    }
}

impl<'src> Tree<'src> {
    fn dump_expr(&self, id: ExprId, d: usize, out: &mut String)
        requires
            self.wf(),
            is_expr_at(self.node_seq(), id.0 as int),
        ensures
            final(out)@ == old(out)@ + expr_text(self.node_seq(), id.0 as int, d as nat),
    {
        proof {
            assert(node_children_valid(self.node_seq(), id.0 as int));
        }
        match self.expr(id) {
            Expr::Constant { constant } => {
                append_pad(out, d);
                out.append("Constant(");
                append_signed_decimal(out, self.constant(constant).value);
                out.append(")\n");
            },
        }
        assert(final(out)@ =~= old(out)@ + expr_text(self.node_seq(), id.0 as int, d as nat));
    }

    fn dump_stmt(&self, id: StmtId, d: usize, out: &mut String)
        requires
            self.wf(),
            is_stmt_at(self.node_seq(), id.0 as int),
            d + id.0 <= usize::MAX,
        ensures
            final(out)@ == old(out)@ + stmt_text(self.node_seq(), id.0 as int, d as nat),
        decreases id.0, 1nat,
    {
        let ghost n = self.node_seq();
        proof {
            assert(node_children_valid(n, id.0 as int));
        }
        match self.stmt(id) {
            Stmt::Return { expr, .. } => {
                out.append("Return(\n");
                self.dump_expr(expr, d + 1, out);
                append_pad(out, d);
                out.append(")\n");
            },
            Stmt::If { cond, cond_true, cond_false } => {
                self.dump_if(id, cond, cond_true, cond_false, d, out);
            },
        }
        assert(final(out)@ =~= old(out)@ + stmt_text(n, id.0 as int, d as nat));
    }

    fn dump_if(
        &self,
        id: StmtId,
        cond: ExprId,
        cond_true: StmtId,
        cond_false: Option<StmtId>,
        d: usize,
        out: &mut String,
    )
        requires
            self.wf(),
            is_stmt_at(self.node_seq(), id.0 as int),
            self.node_seq()[id.0 as int].kind == NodeKind::Stmt(
                Stmt::If { cond, cond_true, cond_false },
            ),
            d + id.0 <= usize::MAX,
        ensures
            final(out)@ == old(out)@ + stmt_text(self.node_seq(), id.0 as int, d as nat),
        decreases id.0, 0nat,
    {
        let ghost n = self.node_seq();
        proof {
            assert(node_children_valid(n, id.0 as int));
        }
        let ghost start = out@;
        let ghost dd = d as nat;
        out.append("If(\n");
        self.dump_expr(cond, d + 1, out);
        let ghost with_cond = "If(\n"@ + expr_text(n, cond.0 as int, dd + 1);
        assert(out@ =~= start + with_cond);
        append_pad(out, d);
        out.append(") Then (\n");
        append_pad(out, d + 1);
        let ghost then_head = with_cond + pad(dd) + ") Then (\n"@ + pad(dd + 1);
        assert(out@ =~= start + then_head);
        self.dump_stmt(cond_true, d + 1, out);
        let ghost with_then = then_head + stmt_text(n, cond_true.0 as int, dd + 1);
        assert(out@ =~= start + with_then);
        let ghost else_text = match cond_false {
            Some(c) => pad(dd) + ") Else (\n"@ + pad(dd + 1) + stmt_text(n, c.0 as int, dd + 1),
            None => Seq::<char>::empty(),
        };
        match cond_false {
            Some(c) => {
                append_pad(out, d);
                out.append(") Else (\n");
                append_pad(out, d + 1);
                self.dump_stmt(c, d + 1, out);
                assert(out@ =~= start + with_then + else_text);
            },
            None => {
                assert(out@ =~= start + with_then + else_text);
            },
        }
        append_pad(out, d);
        out.append(")\n");
        let ghost whole = with_then + else_text + pad(dd) + ")\n"@;
        assert(out@ =~= start + whole);
        assert(stmt_text(n, id.0 as int, dd) == whole);
    }

    /// The indented dump of the tree from its first `Program` node, or an
    /// empty text when it has none.
    pub fn dump(&self) -> (r: String)
        requires
            self.wf(),
        ensures
            ({
                let n = self.node_seq();
                &&& (forall|j: int| 0 <= j < n.len() ==> !(#[trigger] n[j].kind is Program)) ==> r@
                    == Seq::<char>::empty()
                &&& forall|i: int|
                    is_program_at(n, i) && (forall|j: int|
                        0 <= j < i ==> !(#[trigger] n[j].kind is Program)) ==> r@ == program_text(
                        self.token_output(),
                        n,
                        i,
                    )
            }),
    {
        let ghost n = self.node_seq();
        let mut out = String::new();
        match self.program_node() {
            None => {
                return out;
            },
            Some(id) => {
                let program = self.program(id);
                proof {
                    assert(node_children_valid(n, id.0 as int));
                }
                let f = self.fn_def(program.main);
                proof {
                    assert(node_children_valid(n, program.main.0 as int));
                    assert(node_children_valid(n, f.name.0 as int));
                    assert(node_tokens_valid(
                        n,
                        f.name.0 as int,
                        self.token_output().token_seq().len() as int,
                    ));
                }
                out.append("Program(\n");
                out.append(" Function(\n");
                out.append("  Name = ");
                let ident = self.ident(f.name);
                let text = self.tokens.token_text(ident.token.handle);
                out.append(text);
                proof {
                    broadcast use encode_utf8_decode_utf8;

                    assert(text@ == decode_utf8(text.spec_bytes()));
                }
                out.append(",\n");
                out.append("  Body = ");
                self.dump_stmt(f.body, 2, &mut out);
                out.append(" )\n");
                out.append(")\n");
                proof {
                    assert forall|i: int|
                        is_program_at(n, i) && (forall|j: int|
                            0 <= j < i ==> !(#[trigger] n[j].kind is Program)) implies out@
                        == program_text(self.token_output(), n, i) by {
                        if i < id.0 {
                            assert(!(n[i].kind is Program));
                        }
                        if id.0 < i {
                            assert(!(n[id.0 as int].kind is Program));
                        }
                        assert(out@ =~= program_text(self.token_output(), n, id.0 as int));
                    }
                }
                out
            },
        }
    }
}

} // verus!
