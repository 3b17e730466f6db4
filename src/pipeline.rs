//! The whole compilation, stage by stage, from source text.
use vstd::pervasive::unreached;
use vstd::prelude::*;
use vstd::string::*;
use vstd::utf8::*;

use crate::ast::{is_program_at, Tree};
use crate::codegen::{body_text, footer_text, symbol, Codegen, Target};
use crate::lexer::{lex_from, Lexer, SpanSpec, TokenizedOutput};
use crate::parser::{
    check, digits_value, program_error, program_nodes, token_at, token_bytes, Expect, ParseError,
    Parser,
};
use crate::tacky::{self, first_program, lowerable, LowerError, Tacky};
use crate::token::{Keyword, LexError, TokenType};
use crate::x86::{self, X86};

verus! {

/// Why a compilation failed.
#[derive(Debug, Clone, Copy, PartialEq, Eq, Structural)]
pub enum CompileError {
    Lex(LexError),
    Parse(ParseError),
    Lower(LowerError),
}

impl CompileError {
    pub open spec fn spec_message(self) -> Seq<char> {
        match self {
            CompileError::Lex(e) => e.spec_message(),
            CompileError::Parse(ParseError::UnexpectedToken { .. }) => "Unexpected token"@,
            CompileError::Parse(ParseError::UnexpectedKeyword { .. }) => "Unexpected keyword"@,
            CompileError::Parse(ParseError::ConstantOutOfRange { .. }) => "Constant out of range"@,
            CompileError::Lower(LowerError::MissingProgram) => "No program to lower"@,
            CompileError::Lower(LowerError::UnsupportedStatement) => "Unsupported statement"@,
            CompileError::Lower(LowerError::UnsupportedNode) => "Unsupported node"@,
        }
    }

    /// The diagnostic text of the error.
    pub fn message(&self) -> (r: String)
        ensures
            r@ == self.spec_message(),
    {
        match self {
            CompileError::Lex(e) => e.message(),
            CompileError::Parse(ParseError::UnexpectedToken { .. }) => "Unexpected token".to_owned(),
            CompileError::Parse(ParseError::UnexpectedKeyword { .. }) => "Unexpected keyword".to_owned(),
            CompileError::Parse(ParseError::ConstantOutOfRange { .. }) => "Constant out of range".to_owned(),
            CompileError::Lower(LowerError::MissingProgram) => "No program to lower".to_owned(),
            CompileError::Lower(LowerError::UnsupportedStatement) => "Unsupported statement".to_owned(),
            CompileError::Lower(LowerError::UnsupportedNode) => "Unsupported node".to_owned(),
        }
    }
}

/// The name of the function of a program that parsed.
pub open spec fn main_name(b: Seq<u8>, ts: Seq<SpanSpec>) -> Seq<char> {
    decode_utf8(token_bytes(b, ts, 1))
}

/// The value that the function of a program that parsed returns.
pub open spec fn return_value(b: Seq<u8>, ts: Seq<SpanSpec>) -> i64 {
    digits_value(token_bytes(b, ts, 7)) as i64
}

/// The source IR body of a program that parsed: one move into the return
/// register.
pub open spec fn source_body(b: Seq<u8>, ts: Seq<SpanSpec>) -> Seq<tacky::Instruction> {
    seq![
        tacky::Instruction::Mov {
            src: tacky::Operand::Immediate(return_value(b, ts)),
            dst: tacky::Operand::Register,
        },
    ]
}

/// The target IR body of a program that parsed: the move, then a return.
pub open spec fn target_body(b: Seq<u8>, ts: Seq<SpanSpec>) -> Seq<x86::Instruction> {
    seq![
        x86::Instruction::Mov {
            src: x86::Operand::Immediate(return_value(b, ts)),
            dst: x86::Operand::Register,
        },
        x86::Instruction::Ret,
    ]
}

/// The assembly text of a program that parsed.
pub open spec fn program_assembly(b: Seq<u8>, ts: Seq<SpanSpec>, target: Target) -> Seq<char> {
    ".globl "@ + symbol(main_name(b, ts), target) + "\n"@ + symbol(main_name(b, ts), target)
        + ":\n"@ + body_text(target_body(b, ts)) + footer_text(target)
}

/// Two token streams with the same kinds and the same texts, token by token.
pub open spec fn same_tokens(b1: Seq<u8>, ts1: Seq<SpanSpec>, b2: Seq<u8>, ts2: Seq<SpanSpec>) -> bool {
    &&& ts1.len() == ts2.len()
    &&& forall|k: int|
        0 <= k < ts1.len() ==> (#[trigger] ts1[k]).0 == ts2[k].0 && token_bytes(b1, ts1, k)
            == token_bytes(b2, ts2, k)
}

proof fn lemma_same_check(
    b1: Seq<u8>,
    ts1: Seq<SpanSpec>,
    b2: Seq<u8>,
    ts2: Seq<SpanSpec>,
    pos: int,
    e: Expect,
)
    requires
        same_tokens(b1, ts1, b2, ts2),
    ensures
        check(b1, ts1, pos, e) == check(b2, ts2, pos, e),
{
    if 0 <= pos < ts1.len() {
        assert(ts1[pos].0 == ts2[pos].0);
        assert(token_at(ts1, pos) == token_at(ts2, pos));
    }
}

/// Where whitespace and comments stand does not matter: two sources whose
/// tokens have the same kinds and texts fail with the same syntax error, or
/// both parse and lower to functions with the same name and target body.
pub proof fn lemma_same_tokens_same_program(
    b1: Seq<u8>,
    ts1: Seq<SpanSpec>,
    b2: Seq<u8>,
    ts2: Seq<SpanSpec>,
)
    requires
        same_tokens(b1, ts1, b2, ts2),
    ensures
        program_error(b1, ts1) == program_error(b2, ts2),
        program_error(b1, ts1) is None ==> main_name(b1, ts1) == main_name(b2, ts2) && target_body(
            b1,
            ts1,
        ) == target_body(b2, ts2),
{
    lemma_same_check(b1, ts1, b2, ts2, 0, Expect::Word(Keyword::Int));
    lemma_same_check(b1, ts1, b2, ts2, 1, Expect::Kind(TokenType::Ident));
    lemma_same_check(b1, ts1, b2, ts2, 2, Expect::Kind(TokenType::OpenParen));
    lemma_same_check(b1, ts1, b2, ts2, 3, Expect::Word(Keyword::Void));
    lemma_same_check(b1, ts1, b2, ts2, 4, Expect::Kind(TokenType::CloseParen));
    lemma_same_check(b1, ts1, b2, ts2, 5, Expect::Kind(TokenType::OpenBrace));
    lemma_same_check(b1, ts1, b2, ts2, 6, Expect::Word(Keyword::Return));
    lemma_same_check(b1, ts1, b2, ts2, 7, Expect::Number);
    lemma_same_check(b1, ts1, b2, ts2, 8, Expect::Kind(TokenType::Semicolon));
    lemma_same_check(b1, ts1, b2, ts2, 9, Expect::Kind(TokenType::CloseBrace));
    if program_error(b1, ts1) is None {
        assert(ts1.len() > 9);
        assert(ts1[1].0 == ts2[1].0);
        assert(ts1[7].0 == ts2[7].0);
        assert(token_bytes(b1, ts1, 1) == token_bytes(b2, ts2, 1));
        assert(token_bytes(b1, ts1, 7) == token_bytes(b2, ts2, 7));
    }
}

/// Tokenizes the source.
pub fn lex(src: &str) -> (r: Result<TokenizedOutput<'_>, CompileError>)
    ensures
        match lex_from(src.spec_bytes(), 0) {
            Ok(_) => r matches Ok(out) && out.source() == src && out.lexed(),
            Err(e) => r == Err::<TokenizedOutput<'_>, CompileError>(CompileError::Lex(e)),
        },
{
    match Lexer::lex(src) {
        Ok(out) => Ok(out),
        Err(e) => Err(CompileError::Lex(e)),
    }
}

/// Tokenizes and parses the source.
pub fn parse(src: &str) -> (r: Result<Tree<'_>, CompileError>)
    ensures
        match lex_from(src.spec_bytes(), 0) {
            Err(e) => r == Err::<Tree<'_>, CompileError>(CompileError::Lex(e)),
            Ok((ts, _)) => match program_error(src.spec_bytes(), ts) {
                Some(e) => r == Err::<Tree<'_>, CompileError>(CompileError::Parse(e)),
                None => r matches Ok(t) && t.wf() && t.token_output().lexed()
                    && t.token_output().source() == src && t.node_seq() == program_nodes(
                    src.spec_bytes(),
                    ts,
                ),
            },
        },
{
    let tokens = lex(src)?;
    let mut parser = Parser::from_tokens(tokens);
    match parser.parse() {
        Ok(_) => Ok(parser.into_tree()),
        Err(e) => Err(CompileError::Parse(e)),
    }
}

proof fn lemma_parsed_tree_lowers(b: Seq<u8>, ts: Seq<SpanSpec>)
    ensures
        is_program_at(program_nodes(b, ts), 5),
        first_program(program_nodes(b, ts)) == 5,
        lowerable(program_nodes(b, ts)),
{
    let n = program_nodes(b, ts);
    assert(n.len() == 6);
    assert(n[5].kind is Program);
    assert(n[0].kind is Ident);
    assert(n[1].kind is Constant);
    assert(n[2].kind is Expr);
    assert(n[3].kind is Stmt);
    assert(n[4].kind is FnDef);
    assert(is_program_at(n, 5) && forall|j: int| 0 <= j < 5 ==> !(#[trigger] n[j].kind is Program));
    let k = first_program(n);
    assert(is_program_at(n, k) && forall|j: int| 0 <= j < k ==> !(#[trigger] n[j].kind is Program));
    if k < 5 {
        assert(!(n[k].kind is Program));
    }
    if k > 5 {
        assert(!(n[5].kind is Program));
    }
}

/// Compiles the source to the source IR.
pub fn tacky(src: &str) -> (r: Result<Tacky, CompileError>)
    ensures
        match lex_from(src.spec_bytes(), 0) {
            Err(e) => r == Err::<Tacky, CompileError>(CompileError::Lex(e)),
            Ok((ts, _)) => match program_error(src.spec_bytes(), ts) {
                Some(e) => r == Err::<Tacky, CompileError>(CompileError::Parse(e)),
                None => r matches Ok(t) && t.nodes.main.name@ == main_name(src.spec_bytes(), ts)
                    && t.nodes.main.body@ == source_body(src.spec_bytes(), ts),
            },
        },
{
    let tree = parse(src)?;
    proof {
        let b = src.spec_bytes();
        if let Ok((ts, _)) = lex_from(b, 0) {
            lemma_parsed_tree_lowers(b, ts);
        }
    }
    match tacky::lower(&tree) {
        Ok(t) => {
            proof {
                let b = src.spec_bytes();
                let ts = lex_from(b, 0)->Ok_0.0;
                let out = tree.token_output();
                let n = tree.node_seq();
                assert(out.spans()[1] == ts[1]);
                assert(out.spans()[7] == ts[7]);
                broadcast use encode_utf8_decode_utf8;

                assert(t.nodes.main.body@ =~= source_body(b, ts));
            }
            Ok(t)
        },
        Err(e) => Err(CompileError::Lower(e)),
    }
}

/// Compiles the source to the target IR.
pub fn codegen(src: &str) -> (r: Result<X86, CompileError>)
    ensures
        match lex_from(src.spec_bytes(), 0) {
            Err(e) => r == Err::<X86, CompileError>(CompileError::Lex(e)),
            Ok((ts, _)) => match program_error(src.spec_bytes(), ts) {
                Some(e) => r == Err::<X86, CompileError>(CompileError::Parse(e)),
                None => r matches Ok(x) && x.nodes.main.name@ == main_name(src.spec_bytes(), ts)
                    && x.nodes.main.body@ == target_body(src.spec_bytes(), ts),
            },
        },
{
    let t = tacky(src)?;
    let x = x86::lower(&t);
    proof {
        let b = src.spec_bytes();
        if let Ok((ts, _)) = lex_from(b, 0) {
            assert(x.nodes.main.body@ =~= target_body(b, ts));
        }
    }
    Ok(x)
}

/// Compiles the source to assembly text for `target`.
pub fn assembly(src: &str, target: Target) -> (r: Result<String, CompileError>)
    ensures
        match lex_from(src.spec_bytes(), 0) {
            Err(e) => r == Err::<String, CompileError>(CompileError::Lex(e)),
            Ok((ts, _)) => match program_error(src.spec_bytes(), ts) {
                Some(e) => r == Err::<String, CompileError>(CompileError::Parse(e)),
                None => r matches Ok(s) && s@ == program_assembly(src.spec_bytes(), ts, target),
            },
        },
{
    let x = codegen(src)?;
    match Codegen::emit_from_input(&x, target) {
        Ok(s) => Ok(s),
        Err(_) => unreached(),
    }
}

} // verus!
