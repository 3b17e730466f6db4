//! The recursive-descent parser: a token stream to a syntax tree.
use vstd::prelude::*;
use vstd::string::*;

use crate::ast::{
    is_constant_at, is_expr_at, is_fn_def_at, is_ident_at, is_program_at, is_stmt_at,
    node_children_valid, node_tokens_valid, nodes_wf, Constant, ConstantId, Expr, ExprId, FnDef,
    FnDefId, Ident, IdentId, Node, NodeKind, Program, ProgramId, Stmt, StmtId, Tree,
};
use crate::lexer::{SpanSpec, TokenizedOutput};
use crate::token::{Keyword, Token, TokenType};

verus! {

/// A syntax error: what the grammar expected and the token found instead.
#[derive(Debug, Clone, Copy, PartialEq, Eq, Structural)]
#[allow(inconsistent_fields)]
pub enum ParseError {
    /// A token of another kind, or the end of input (`found` is `None`).
    UnexpectedToken { expected: TokenType, found: Option<Token> },
    /// An identifier spelled otherwise than the keyword.
    UnexpectedKeyword { expected: Keyword, found: Token },
    /// A numeric constant above the largest 64-bit signed integer.
    ConstantOutOfRange { found: Token },
}

/// One expectation of the grammar on the next token.
#[derive(Debug, Clone, Copy, PartialEq, Eq, Structural)]
pub enum Expect {
    Kind(TokenType),
    Word(Keyword),
    Number,
}

/// The value of a numeric literal: its decimal digits, separators skipped.
pub open spec fn digits_value(s: Seq<u8>) -> int
    decreases s.len(),
{
    if s.len() == 0 {
        0
    } else if 48 <= s.last() && s.last() <= 57 {
        digits_value(s.drop_last()) * 10 + (s.last() - 48)
    } else {
        digits_value(s.drop_last())
    }
}

proof fn lemma_digits_value_grows(s: Seq<u8>, i: int)
    requires
        0 <= i <= s.len(),
    ensures
        0 <= digits_value(s.subrange(0, i)) <= digits_value(s),
    decreases s.len() - i,
{
    if i < s.len() {
        lemma_digits_value_grows(s, i + 1);
        let p = s.subrange(0, i + 1);
        assert(p.drop_last() =~= s.subrange(0, i));
    } else {
        assert(s.subrange(0, i) =~= s);
        lemma_digits_value_nonneg(s);
    }
}

proof fn lemma_digits_value_nonneg(s: Seq<u8>)
    ensures
        digits_value(s) >= 0,
    decreases s.len(),
{
    if s.len() > 0 {
        lemma_digits_value_nonneg(s.drop_last());
    }
}

/// The text of token `k`, sliced from the source bytes at its span.
pub open spec fn token_bytes(b: Seq<u8>, ts: Seq<SpanSpec>, k: int) -> Seq<u8> {
    b.subrange(ts[k].1, ts[k].2)
}

/// Token `k` of a stream with spans `ts`.
pub open spec fn token_at(ts: Seq<SpanSpec>, k: int) -> Token {
    Token { ttype: ts[k].0, has_error: false, handle: k as usize }
}

pub open spec fn expected_kind(e: Expect) -> TokenType {
    match e {
        Expect::Kind(k) => k,
        Expect::Word(_) => TokenType::Ident,
        Expect::Number => TokenType::Constant,
    }
}

/// The error, if any, of matching token `pos` against one expectation.
pub open spec fn check(b: Seq<u8>, ts: Seq<SpanSpec>, pos: int, e: Expect) -> Option<ParseError> {
    if pos < 0 || pos >= ts.len() {
        Some(ParseError::UnexpectedToken { expected: expected_kind(e), found: None })
    } else if ts[pos].0 != expected_kind(e) {
        Some(
            ParseError::UnexpectedToken {
                expected: expected_kind(e),
                found: Some(token_at(ts, pos)),
            },
        )
    } else {
        match e {
            Expect::Word(kw) => if token_bytes(b, ts, pos) != kw.spec_spelling() {
                Some(ParseError::UnexpectedKeyword { expected: kw, found: token_at(ts, pos) })
            } else {
                None
            },
            Expect::Number => if digits_value(token_bytes(b, ts, pos)) > i64::MAX {
                Some(ParseError::ConstantOutOfRange { found: token_at(ts, pos) })
            } else {
                None
            },
            Expect::Kind(_) => None,
        }
    }
}

/// The first of two possible errors.
pub open spec fn first_of(a: Option<ParseError>, b: Option<ParseError>) -> Option<ParseError> {
    if a is Some {
        a
    } else {
        b
    }
}

/// `<statement> ::= "return" <constant> ";"` at token `pos`.
pub open spec fn statement_error(b: Seq<u8>, ts: Seq<SpanSpec>, pos: int) -> Option<ParseError> {
    first_of(
        check(b, ts, pos, Expect::Word(Keyword::Return)),
        first_of(check(b, ts, pos + 1, Expect::Number), check(b, ts, pos + 2, Expect::Kind(TokenType::Semicolon))),
    )
}

/// `<function> ::= "int" IDENT "(" "void" ")" "{" <statement> "}"` at token
/// `pos`.
pub open spec fn function_error(b: Seq<u8>, ts: Seq<SpanSpec>, pos: int) -> Option<ParseError> {
    first_of(
        check(b, ts, pos, Expect::Word(Keyword::Int)),
        first_of(
            check(b, ts, pos + 1, Expect::Kind(TokenType::Ident)),
            first_of(
                check(b, ts, pos + 2, Expect::Kind(TokenType::OpenParen)),
                first_of(
                    check(b, ts, pos + 3, Expect::Word(Keyword::Void)),
                    first_of(
                        check(b, ts, pos + 4, Expect::Kind(TokenType::CloseParen)),
                        first_of(
                            check(b, ts, pos + 5, Expect::Kind(TokenType::OpenBrace)),
                            first_of(
                                statement_error(b, ts, pos + 6),
                                check(b, ts, pos + 9, Expect::Kind(TokenType::CloseBrace)),
                            ),
                        ),
                    ),
                ),
            ),
        ),
    )
}

/// `<program> ::= <function>`, from the first token.
pub open spec fn program_error(b: Seq<u8>, ts: Seq<SpanSpec>) -> Option<ParseError> {
    function_error(b, ts, 0)
}

/// The nodes that a statement at token `pos` appends to a tree of `n` nodes.
pub open spec fn statement_nodes(b: Seq<u8>, ts: Seq<SpanSpec>, pos: int, n: int) -> Seq<Node> {
    seq![
        Node {
            kind: NodeKind::Constant(
                Constant {
                    value: digits_value(token_bytes(b, ts, pos + 1)) as i64,
                    token: token_at(ts, pos + 1),
                },
            ),
        },
        Node { kind: NodeKind::Expr(Expr::Constant { constant: ConstantId(n as usize) }) },
        Node {
            kind: NodeKind::Stmt(
                Stmt::Return { expr: ExprId((n + 1) as usize), token: token_at(ts, pos) },
            ),
        },
    ]
}

/// The nodes that a function at token `pos` appends to a tree of `n` nodes:
/// its name, its statement, then the function itself.
pub open spec fn function_nodes(b: Seq<u8>, ts: Seq<SpanSpec>, pos: int, n: int) -> Seq<Node> {
    seq![Node { kind: NodeKind::Ident(Ident { token: token_at(ts, pos + 1) }) }] + statement_nodes(
        b,
        ts,
        pos + 6,
        n + 1,
    ) + seq![
        Node {
            kind: NodeKind::FnDef(
                FnDef { name: IdentId(n as usize), body: StmtId((n + 3) as usize) },
            ),
        },
    ]
}

/// The tree of a program that parsed: its function's nodes, children first,
/// then the program.
pub open spec fn program_nodes(b: Seq<u8>, ts: Seq<SpanSpec>) -> Seq<Node> {
    function_nodes(b, ts, 0, 0).push(Node { kind: NodeKind::Program(Program { main: FnDefId(4) }) })
}

/// Every handle that a successful parse issues (the program at 5, the
/// function at 4, the statement at 3, the expression at 2, the constant at 1
/// and the name at 0) points, in the parsed tree and in every tree that
/// extends it, at a node of the kind its type promises; and every handle held
/// by a node of the parsed tree points at an earlier node of the promised kind.
pub proof fn lemma_parse_handles_valid(b: Seq<u8>, ts: Seq<SpanSpec>, later: Seq<Node>)
    requires
        program_error(b, ts) is None,
        program_nodes(b, ts).is_prefix_of(later),
    ensures
        nodes_wf(program_nodes(b, ts), ts.len() as int),
        is_program_at(later, 5),
        is_fn_def_at(later, 4),
        is_stmt_at(later, 3),
        is_expr_at(later, 2),
        is_constant_at(later, 1),
        is_ident_at(later, 0),
{
    let n = program_nodes(b, ts);
    assert(n.len() == 6);
    assert(ts.len() > 9);
    assert forall|i: int| 0 <= i < n.len() implies #[trigger] node_children_valid(n, i)
        && node_tokens_valid(n, i, ts.len() as int) by {
        assert(n[0].kind is Ident);
        assert(n[1].kind is Constant);
        assert(n[2].kind is Expr);
        assert(n[3].kind is Stmt);
        assert(n[4].kind is FnDef);
    }
    assert(later[5] == n[5]);
    assert(later[4] == n[4]);
    assert(later[3] == n[3]);
    assert(later[2] == n[2]);
    assert(later[1] == n[1]);
    assert(later[0] == n[0]);
    assert(n[5].kind is Program);
}

/// Reads a numeric literal, or `None` when its value exceeds `i64::MAX`.
pub fn parse_value(text: &str) -> (r: Option<i64>)
    ensures
        digits_value(text.spec_bytes()) <= i64::MAX ==> r == Some(
            digits_value(text.spec_bytes()) as i64,
        ),
        digits_value(text.spec_bytes()) > i64::MAX ==> r is None,
{
    let bytes = text.as_bytes();
    let ghost s = bytes@;
    let mut v: i64 = 0;
    let mut i: usize = 0;
    while i < bytes.len()
        invariant
            s == bytes@,
            s == text.spec_bytes(),
            i <= s.len(),
            v as int == digits_value(s.subrange(0, i as int)),
            v >= 0,
        decreases s.len() - i,
    {
        let c = bytes[i];
        proof {
            let p = s.subrange(0, i + 1);
            assert(p.drop_last() =~= s.subrange(0, i as int));
        }
        if 48 <= c && c <= 57 {
            let d = (c - 48) as i64;
            if v > (i64::MAX - d) / 10 {
                proof {
                    let m = i64::MAX as int;
                    let dd = d as int;
                    let vv = v as int;
                    assert(vv * 10 + dd > m) by (nonlinear_arith)
                        requires
                            vv > (m - dd) / 10,
                            0 <= dd <= 9,
                            m > 9,
                    ;
                    let p = s.subrange(0, i + 1);
                    assert(p.last() == c);
                    assert(digits_value(p) == vv * 10 + dd);
                    lemma_digits_value_grows(s, i + 1);
                }
                return None;
            }
            proof {
                let m = i64::MAX as int;
                let dd = d as int;
                let vv = v as int;
                assert(vv * 10 + dd <= m) by (nonlinear_arith)
                    requires
                        0 <= vv <= (m - dd) / 10,
                        0 <= dd <= 9,
                        m > 9,
                ;
            }
            v = v * 10 + d;
        }
        i = i + 1;
    }
    assert(s.subrange(0, i as int) =~= s);
    Some(v)
}

/// The parser: a cursor over the tokens and the tree built so far.
pub struct Parser<'src> {
    nodes: Tree<'src>,
    cur_token: usize,
}

impl<'src> Parser<'src> {
    pub closed spec fn tree(&self) -> Tree<'src> {
        self.nodes
    }

    pub closed spec fn cursor(&self) -> int {
        self.cur_token as int
    }

    pub open spec fn input(&self) -> TokenizedOutput<'src> {
        self.tree().token_output()
    }

    pub open spec fn wf(&self) -> bool {
        self.tree().wf()
    }

    pub fn from_tokens(tokens: TokenizedOutput<'src>) -> (r: Parser<'src>)
        requires
            tokens.wf(),
        ensures
            r.wf(),
            r.input() == tokens,
            r.cursor() == 0,
            r.tree().node_seq().len() == 0,
    {
        let len = tokens.len();
        Parser { nodes: Tree::with_capacity(tokens, len), cur_token: 0 }
    }

    pub fn nodes(&self) -> (r: &Tree<'src>)
        ensures
            *r == self.tree(),
    {
        &self.nodes
    }

    /// The finished tree.
    pub fn into_tree(self) -> (r: Tree<'src>)
        ensures
            r == self.tree(),
    {
        self.nodes
    }

    /// Consumes the token under the cursor if it has kind `ttype`.
    fn expect(&mut self, ttype: TokenType) -> (r: Result<Token, ParseError>)
        requires
            old(self).wf(),
        ensures
            final(self).tree() == old(self).tree(),
            check(old(self).input().bytes(), old(self).input().spans(), old(self).cursor(), Expect::Kind(ttype)) matches Some(e) ==> r
                == Err::<Token, ParseError>(e),
            check(old(self).input().bytes(), old(self).input().spans(), old(self).cursor(), Expect::Kind(ttype)) is None ==> r == Ok::<
                Token,
                ParseError,
            >(token_at(old(self).input().spans(), old(self).cursor())) && final(self).cursor()
                == old(self).cursor() + 1,
    {
        let token = self.nodes.tokens().get(self.cur_token);
        match token {
            None => Err(ParseError::UnexpectedToken { expected: ttype, found: None }),
            Some(token) => {
                if token.ttype != ttype {
                    Err(ParseError::UnexpectedToken { expected: ttype, found: Some(token) })
                } else {
                    self.cur_token = self.cur_token + 1;
                    Ok(token)
                }
            },
        }
    }

    /// Consumes an identifier and appends its node.
    fn expect_ident(&mut self) -> (r: Result<IdentId, ParseError>)
        requires
            old(self).wf(),
        ensures
            r matches Ok(id) ==> id.0 == old(self).tree().node_seq().len(),
            final(self).wf(),
            final(self).input() == old(self).input(),
            check(old(self).input().bytes(), old(self).input().spans(), old(self).cursor(), Expect::Kind(TokenType::Ident)) matches Some(
                e,
            ) ==> r == Err::<IdentId, ParseError>(e),
            check(old(self).input().bytes(), old(self).input().spans(), old(self).cursor(), Expect::Kind(TokenType::Ident)) is None ==> {
                &&& r == Ok::<IdentId, ParseError>(IdentId(old(self).tree().node_seq().len() as usize))
                &&& final(self).cursor() == old(self).cursor() + 1
                &&& final(self).tree().node_seq() == old(self).tree().node_seq().push(
                    Node {
                        kind: NodeKind::Ident(
                            Ident { token: token_at(old(self).input().spans(), old(self).cursor()) },
                        ),
                    },
                )
            },
    {
        let token = self.expect(TokenType::Ident)?;
        proof {
            assert(token.handle < self.input().token_seq().len());
        }
        let id = self.nodes.push(NodeKind::Ident(Ident { token }));
        Ok(IdentId(id.0))
    }

    /// Consumes an identifier spelled exactly as `keyword`.
    fn expect_keyword(&mut self, keyword: Keyword) -> (r: Result<Token, ParseError>)
        requires
            old(self).wf(),
        ensures
            final(self).tree() == old(self).tree(),
            check(old(self).input().bytes(), old(self).input().spans(), old(self).cursor(), Expect::Word(keyword)) matches Some(e) ==> r
                == Err::<Token, ParseError>(e),
            check(old(self).input().bytes(), old(self).input().spans(), old(self).cursor(), Expect::Word(keyword)) is None ==> r == Ok::<
                Token,
                ParseError,
            >(token_at(old(self).input().spans(), old(self).cursor())) && final(self).cursor()
                == old(self).cursor() + 1,
    {
        let token = self.expect(TokenType::Ident)?;
        let text = self.nodes.tokens().token_text(token.handle);
        let spelling = keyword.spelling();
        if !bytes_equal(text.as_bytes(), spelling.as_slice()) {
            return Err(ParseError::UnexpectedKeyword { expected: keyword, found: token });
        }
        Ok(token)
    }

    /// Parses a whole program and appends its `Program` node last.
    pub fn parse(&mut self) -> (r: Result<ProgramId, ParseError>)
        requires
            old(self).wf(),
            old(self).cursor() == 0,
            old(self).tree().node_seq().len() == 0,
        ensures
            final(self).wf(),
            final(self).input() == old(self).input(),
            program_error(old(self).input().bytes(), old(self).input().spans()) matches Some(e) ==> r == Err::<ProgramId, ParseError>(e),
            program_error(old(self).input().bytes(), old(self).input().spans()) is None ==> r == Ok::<ProgramId, ParseError>(ProgramId(5))
                && final(self).tree().node_seq() == program_nodes(old(self).input().bytes(), old(self).input().spans()),
    {
        let main = self.parse_function_def()?;
        assert(self.tree().node_seq()[main.0 as int].kind is FnDef);
        let id = self.nodes.push(NodeKind::Program(Program { main }));
        Ok(ProgramId(id.0))
    }

    fn parse_function_def(&mut self) -> (r: Result<FnDefId, ParseError>)
        requires
            old(self).wf(),
        ensures
            final(self).wf(),
            final(self).input() == old(self).input(),
            r matches Ok(id) ==> id.0 == old(self).tree().node_seq().len() + 4,
            function_error(old(self).input().bytes(), old(self).input().spans(), old(self).cursor())
                matches Some(e) ==> r == Err::<FnDefId, ParseError>(e),
            function_error(old(self).input().bytes(), old(self).input().spans(), old(self).cursor())
                is None ==> {
                &&& r == Ok::<FnDefId, ParseError>(
                    FnDefId((old(self).tree().node_seq().len() + 4) as usize),
                )
                &&& final(self).cursor() == old(self).cursor() + 10
                &&& final(self).tree().node_seq() == old(self).tree().node_seq() + function_nodes(
                    old(self).input().bytes(),
                    old(self).input().spans(),
                    old(self).cursor(),
                    old(self).tree().node_seq().len() as int,
                )
            },
    {
        let ghost t = self.input();
        let ghost k = self.cursor();
        let ghost n = self.tree().node_seq();
        self.expect_keyword(Keyword::Int)?;
        let name = self.expect_ident()?;
        self.expect(TokenType::OpenParen)?;
        self.expect_keyword(Keyword::Void)?;
        self.expect(TokenType::CloseParen)?;
        self.expect(TokenType::OpenBrace)?;
        let ghost before_body = self.tree().node_seq();
        let body = match self.parse_statement() {
            Ok(s) => s,
            Err(e) => return Err(e),
        };
        assert(statement_error(t.bytes(), t.spans(), k + 6) is None);
        self.expect(TokenType::CloseBrace)?;
        assert(self.tree().node_seq()[name.0 as int].kind is Ident);
        assert(self.tree().node_seq()[body.0 as int].kind is Stmt);
        let id = self.nodes.push(NodeKind::FnDef(FnDef { name, body }));
        assert(self.tree().node_seq() =~= n + function_nodes(t.bytes(), t.spans(), k, n.len() as int));
        Ok(FnDefId(id.0))
    }

    /// `<statement> ::= "return" <expr> ";"`
    fn parse_statement(&mut self) -> (r: Result<StmtId, ParseError>)
        requires
            old(self).wf(),
        ensures
            r matches Ok(id) ==> id.0 == old(self).tree().node_seq().len() + 2,
            final(self).wf(),
            final(self).input() == old(self).input(),
            statement_error(old(self).input().bytes(), old(self).input().spans(), old(self).cursor()) matches Some(e) ==> r == Err::<
                StmtId,
                ParseError,
            >(e),
            statement_error(old(self).input().bytes(), old(self).input().spans(), old(self).cursor()) is None ==> {
                &&& r == Ok::<StmtId, ParseError>(
                    StmtId((old(self).tree().node_seq().len() + 2) as usize),
                )
                &&& final(self).cursor() == old(self).cursor() + 3
                &&& final(self).tree().node_seq() == old(self).tree().node_seq() + statement_nodes(
                    old(self).input().bytes(),
                    old(self).input().spans(),
                    old(self).cursor(),
                    old(self).tree().node_seq().len() as int,
                )
            },
    {
        let token = self.expect_keyword(Keyword::Return)?;
        let ghost before = self.tree().node_seq();
        let ghost t = self.input();
        let ghost k = self.cursor();
        let expr = match self.parse_expr() {
            Ok(x) => x,
            Err(e) => return Err(e),
        };
        assert(check(t.bytes(), t.spans(), k, Expect::Number) is None);
        self.expect(TokenType::Semicolon)?;
        assert(self.tree().node_seq()[expr.0 as int].kind is Expr);
        proof {
            assert(token.handle < self.input().token_seq().len());
        }
        let id = self.nodes.push(NodeKind::Stmt(Stmt::Return { expr, token }));
        assert(self.tree().node_seq() =~= old(self).tree().node_seq() + statement_nodes(
            old(self).input().bytes(),
            old(self).input().spans(),
            old(self).cursor(),
            old(self).tree().node_seq().len() as int,
        ));
        Ok(StmtId(id.0))
    }

    /// `<expr> ::= <constant>`
    fn parse_expr(&mut self) -> (r: Result<ExprId, ParseError>)
        requires
            old(self).wf(),
        ensures
            r matches Ok(id) ==> id.0 == old(self).tree().node_seq().len() + 1,
            final(self).wf(),
            final(self).input() == old(self).input(),
            check(old(self).input().bytes(), old(self).input().spans(), old(self).cursor(), Expect::Number) matches Some(e) ==> r
                == Err::<ExprId, ParseError>(e),
            check(old(self).input().bytes(), old(self).input().spans(), old(self).cursor(), Expect::Number) is None ==> {
                &&& r == Ok::<ExprId, ParseError>(
                    ExprId((old(self).tree().node_seq().len() + 1) as usize),
                )
                &&& final(self).cursor() == old(self).cursor() + 1
                &&& final(self).tree().node_seq() == old(self).tree().node_seq().push(
                    constant_node(old(self).input().bytes(), old(self).input().spans(), old(self).cursor()),
                ).push(
                    Node {
                        kind: NodeKind::Expr(
                            Expr::Constant {
                                constant: ConstantId(old(self).tree().node_seq().len() as usize),
                            },
                        ),
                    },
                )
            },
    {
        let ghost before = self.tree().node_seq();
        let ghost t = self.input();
        let ghost k = self.cursor();
        let constant = match self.parse_constant() {
            Ok(c) => c,
            Err(e) => return Err(e),
        };
        assert(check(t.bytes(), t.spans(), k, Expect::Number) is None);
        assert(self.tree().node_seq() == before.push(constant_node(t.bytes(), t.spans(), k)));
        assert(self.tree().node_seq()[constant.0 as int].kind is Constant);
        let id = self.nodes.push(NodeKind::Expr(Expr::Constant { constant }));
        Ok(ExprId(id.0))
    }

    /// `<constant> ::= NUMERIC_LITERAL`
    pub fn parse_constant(&mut self) -> (r: Result<ConstantId, ParseError>)
        requires
            old(self).wf(),
        ensures
            r matches Ok(id) ==> id.0 == old(self).tree().node_seq().len(),
            final(self).wf(),
            final(self).input() == old(self).input(),
            check(old(self).input().bytes(), old(self).input().spans(), old(self).cursor(), Expect::Number) matches Some(e) ==> r
                == Err::<ConstantId, ParseError>(e),
            check(old(self).input().bytes(), old(self).input().spans(), old(self).cursor(), Expect::Number) is None ==> {
                &&& r == Ok::<ConstantId, ParseError>(
                    ConstantId(old(self).tree().node_seq().len() as usize),
                )
                &&& final(self).cursor() == old(self).cursor() + 1
                &&& final(self).tree().node_seq() == old(self).tree().node_seq().push(
                    constant_node(old(self).input().bytes(), old(self).input().spans(), old(self).cursor()),
                )
            },
    {
        let token = self.expect(TokenType::Constant)?;
        let text = self.nodes.tokens().token_text(token.handle);
        let value = match parse_value(text) {
            Some(v) => v,
            None => {
                return Err(ParseError::ConstantOutOfRange { found: token });
            },
        };
        let id = self.nodes.push(NodeKind::Constant(Constant { value, token }));
        Ok(ConstantId(id.0))
    }
}

/// The node that a numeric literal at token `pos` becomes.
pub open spec fn constant_node(b: Seq<u8>, ts: Seq<SpanSpec>, pos: int) -> Node {
    Node {
        kind: NodeKind::Constant(
            Constant { value: digits_value(token_bytes(b, ts, pos)) as i64, token: token_at(ts, pos) },
        ),
    }
}

/// Whether two byte strings are equal.
pub fn bytes_equal(a: &[u8], b: &[u8]) -> (r: bool)
    ensures
        r == (a@ == b@),
{
    if a.len() != b.len() {
        return false;
    }
    let mut i: usize = 0;
    while i < a.len()
        invariant
            a@.len() == b@.len(),
            i <= a@.len(),
            forall|j: int| 0 <= j < i ==> a@[j] == b@[j],
        decreases a@.len() - i,
    {
        if a[i] != b[i] {
            return false;
        }
        i = i + 1;
    }
    assert(a@ =~= b@);
    true
}

} // verus!
