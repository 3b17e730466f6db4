//! Tokens, their source spans, line entries and lexical errors.
use vstd::prelude::*;
use vstd::string::*;

verus! {

/// The closed set of token kinds.
///
/// Keywords are lexed as identifiers and recognised by the parser from their
/// spelling; `Keyword` is reserved for a tokenizer that classifies them.
#[derive(Debug, Clone, Copy, PartialEq, Eq, Structural)]
pub enum TokenType {
    Ident,
    Keyword,
    Constant,
    OpenParen,
    CloseParen,
    OpenBrace,
    CloseBrace,
    Semicolon,
    Colon,
    FrontSlash,
    Hyphen,
    Asterisk,
    Quote,
    DoubleQuote,
    Comma,
}

impl TokenType {
    /// The name of the kind as it appears in token dumps.
    pub open spec fn spec_name(self) -> Seq<char> {
        match self {
            TokenType::Ident => "Ident"@,
            TokenType::Keyword => "Keyword"@,
            TokenType::Constant => "Constant"@,
            TokenType::OpenParen => "OpenParen"@,
            TokenType::CloseParen => "CloseParen"@,
            TokenType::OpenBrace => "OpenBrace"@,
            TokenType::CloseBrace => "CloseBrace"@,
            TokenType::Semicolon => "Semicolon"@,
            TokenType::Colon => "Colon"@,
            TokenType::FrontSlash => "FrontSlash"@,
            TokenType::Hyphen => "Hyphen"@,
            TokenType::Asterisk => "Asterisk"@,
            TokenType::Quote => "Quote"@,
            TokenType::DoubleQuote => "DoubleQuote"@,
            TokenType::Comma => "Comma"@,
        }
    }

    pub fn name(&self) -> (r: &'static str)
        ensures
            r@ == self.spec_name(),
    {
        match self {
            TokenType::Ident => "Ident",
            TokenType::Keyword => "Keyword",
            TokenType::Constant => "Constant",
            TokenType::OpenParen => "OpenParen",
            TokenType::CloseParen => "CloseParen",
            TokenType::OpenBrace => "OpenBrace",
            TokenType::CloseBrace => "CloseBrace",
            TokenType::Semicolon => "Semicolon",
            TokenType::Colon => "Colon",
            TokenType::FrontSlash => "FrontSlash",
            TokenType::Hyphen => "Hyphen",
            TokenType::Asterisk => "Asterisk",
            TokenType::Quote => "Quote",
            TokenType::DoubleQuote => "DoubleQuote",
            TokenType::Comma => "Comma",
        }
    }
}

/// The words that the grammar recognises among identifiers.
#[derive(Debug, Clone, Copy, PartialEq, Eq, Structural)]
pub enum Keyword {
    Return,
    Int,
    Void,
}

impl Keyword {
    /// The canonical spelling of the keyword, as bytes of the source.
    pub open spec fn spec_spelling(self) -> Seq<u8> {
        match self {
            Keyword::Return => seq![114u8, 101u8, 116u8, 117u8, 114u8, 110u8],
            Keyword::Int => seq![105u8, 110u8, 116u8],
            Keyword::Void => seq![118u8, 111u8, 105u8, 100u8],
        }
    }

    pub fn spelling(&self) -> (r: Vec<u8>)
        ensures
            r@ == self.spec_spelling(),
    {
        let r = match self {
            Keyword::Return => vec![114u8, 101u8, 116u8, 117u8, 114u8, 110u8],
            Keyword::Int => vec![105u8, 110u8, 116u8],
            Keyword::Void => vec![118u8, 111u8, 105u8, 100u8],
        };
        assert(r@ =~= self.spec_spelling());
        r
    }
}

/// A token: its kind, an error flag and the index of its source span in the
/// token stream.
#[derive(Debug, Clone, Copy, PartialEq, Eq, Structural)]
pub struct Token {
    pub ttype: TokenType,
    pub has_error: bool,
    pub handle: usize,
}

impl Token {
    pub fn ttype(self) -> (r: TokenType)
        ensures
            r == self.ttype,
    {
        self.ttype
    }

    pub fn has_error(self) -> (r: bool)
        ensures
            r == self.has_error,
    {
        self.has_error
    }
}

/// Where a token stands: byte offsets `[start, end)` of the source and the
/// index of its line.
#[derive(Debug, Clone, Copy, PartialEq, Eq, Structural)]
pub struct TokenSource {
    pub start: usize,
    pub end: usize,
    pub line: usize,
}

impl TokenSource {
    /// The text of the span, sliced from `source`.
    pub fn fmt<'a>(&self, source: &'a str) -> (r: &'a str)
        requires
            self.start <= self.end <= source.spec_bytes().len(),
            vstd::utf8::is_char_boundary(source.spec_bytes(), self.start as int),
            vstd::utf8::is_char_boundary(source.spec_bytes(), self.end as int),
        ensures
            r.spec_bytes() == source.spec_bytes().subrange(self.start as int, self.end as int),
    {
        let (head, _) = source.split_at(self.end);
        proof {
            broadcast use vstd::utf8::encode_utf8_valid_utf8;

            crate::lexer::lemma_boundary_prefix(source.spec_bytes(), self.start as int, self.end as int);
        }
        let (_, text) = head.split_at(self.start);
        assert(text.spec_bytes() =~= source.spec_bytes().subrange(self.start as int, self.end as int));
        text
    }
}

/// One entry of the line table: the byte offsets `[start, end)` of a line,
/// its newline included.
#[derive(Debug, Clone, Copy, PartialEq, Eq, Structural)]
pub struct Line {
    pub start: usize,
    pub end: usize,
}

/// A lexical error; both kinds end the compilation.
#[derive(Debug, Clone, Copy, PartialEq, Eq, Structural)]
pub enum LexError {
    /// A character that no rule of the tokenizer accepts, at byte `offset`.
    InvalidChar { c: char, offset: usize },
    /// A letter inside a numeric constant, at byte `offset`.
    InvalidNumericConstant { c: char, offset: usize },
}

impl LexError {
    /// The diagnostic text of the error.
    pub open spec fn spec_message(self) -> Seq<char> {
        match self {
            LexError::InvalidChar { c, .. } => "Invalid char '"@ + seq![c] + "'"@,
            LexError::InvalidNumericConstant { c, .. } => "Invalid char in numeric constant '"@ + seq![
                c,
            ] + "'"@,
        }
    }

    pub fn message(&self) -> (r: String)
        ensures
            r@ == self.spec_message(),
    {
        let (mut r, c) = match self {
            LexError::InvalidChar { c, .. } => ("Invalid char '".to_owned(), *c),
            LexError::InvalidNumericConstant { c, .. } => (
                "Invalid char in numeric constant '".to_owned(),
                *c,
            ),
        };
        let mut one = String::new();
        one.push(c);
        r.append(one.as_str());
        r.append("'");
        r
    }
}

} // verus!
