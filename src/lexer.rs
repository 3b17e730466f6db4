//! The tokenizer: source text to a token stream and a line table.
use vstd::prelude::*;
use vstd::string::*;
use vstd::utf8::*;

use crate::token::{LexError, Line, Token, TokenSource, TokenType};

verus! {

/// A token as the lexical model sees it: kind and byte span `[start, end)`.
pub type SpanSpec = (TokenType, int, int);

/// ASCII whitespace: space, tab, line feed, vertical tab, form feed, return.
pub open spec fn is_whitespace_byte(c: u8) -> bool {
    c == 32 || (9 <= c && c <= 13)
}

/// The length of the whitespace character outside ASCII whose UTF-8 encoding
/// starts at `p` (U+0085, U+00A0, U+1680, U+2000 to U+200A, U+2028, U+2029,
/// U+202F, U+205F, U+3000), or 0 when none does.
pub open spec fn space_len(b: Seq<u8>, p: int) -> int {
    if 0 <= p && p + 1 < b.len() && b[p] == 0xc2 && (b[p + 1] == 0x85 || b[p + 1] == 0xa0) {
        2
    } else if 0 <= p && p + 2 < b.len() && ((b[p] == 0xe1 && b[p + 1] == 0x9a && b[p + 2] == 0x80)
        || (b[p] == 0xe2 && b[p + 1] == 0x80 && ((0x80 <= b[p + 2] && b[p + 2] <= 0x8a) || b[p + 2]
        == 0xa8 || b[p + 2] == 0xa9 || b[p + 2] == 0xaf)) || (b[p] == 0xe2 && b[p + 1] == 0x81
        && b[p + 2] == 0x9f) || (b[p] == 0xe3 && b[p + 1] == 0x80 && b[p + 2] == 0x80)) {
        3
    } else {
        0
    }
}

/// Offset `i` follows a whole character: it starts the input, or follows an
/// ASCII byte or the encoding of a whitespace character outside ASCII.
pub open spec fn ends_char(b: Seq<u8>, i: int) -> bool {
    ||| i == 0
    ||| (i >= 1 && b[i - 1] < 128)
    ||| (i >= 2 && space_len(b, i - 2) == 2)
    ||| (i >= 3 && space_len(b, i - 3) == 3)
}

pub open spec fn is_letter(c: u8) -> bool {
    (65 <= c && c <= 90) || (97 <= c && c <= 122)
}

pub open spec fn is_digit(c: u8) -> bool {
    48 <= c && c <= 57
}

/// A letter or an underscore: what an identifier starts with.
pub open spec fn is_ident_start(c: u8) -> bool {
    is_letter(c) || c == 95
}

pub open spec fn is_ident_continue(c: u8) -> bool {
    is_ident_start(c) || is_digit(c)
}

/// Digits and the `_` digit-group separator.
pub open spec fn is_numeric_continue(c: u8) -> bool {
    is_digit(c) || c == 95
}

/// The fixed table of single-character tokens.
pub open spec fn punctuation_kind(c: u8) -> Option<TokenType> {
    if c == 40 {
        Some(TokenType::OpenParen)
    } else if c == 41 {
        Some(TokenType::CloseParen)
    } else if c == 123 {
        Some(TokenType::OpenBrace)
    } else if c == 125 {
        Some(TokenType::CloseBrace)
    } else if c == 59 {
        Some(TokenType::Semicolon)
    } else if c == 47 {
        Some(TokenType::FrontSlash)
    } else if c == 45 {
        Some(TokenType::Hyphen)
    } else if c == 58 {
        Some(TokenType::Colon)
    } else if c == 42 {
        Some(TokenType::Asterisk)
    } else if c == 39 {
        Some(TokenType::Quote)
    } else if c == 34 {
        Some(TokenType::DoubleQuote)
    } else if c == 44 {
        Some(TokenType::Comma)
    } else {
        None
    }
}

/// The character that starts at offset `q`: the byte itself when ASCII,
/// else the first character that the bytes from `q` on encode.
pub open spec fn char_at(b: Seq<u8>, q: int) -> char {
    if b[q] < 128 {
        b[q] as char
    } else {
        decode_utf8(b.subrange(q, b.len() as int))[0]
    }
}

/// Whether a character is alphabetic or numeric in Unicode.
pub uninterp spec fn alphanumeric(c: char) -> bool;

/// Relies on `char::is_alphanumeric`: whether `c` has the Unicode Alphabetic
/// or Numeric property, which depends on `c` alone.
#[verifier::external_body]
fn is_alphanumeric(c: char) -> (r: bool)
    ensures
        r == alphanumeric(c),
{
    c.is_alphanumeric()
}

/// The character at `e`, right after the digits of a numeric constant, makes
/// the constant invalid: an ASCII letter, or an alphabetic or numeric
/// character outside ASCII.
pub open spec fn invalid_after_number(b: Seq<u8>, e: int) -> bool {
    0 <= e < b.len() && (is_letter(b[e]) || (b[e] >= 128 && alphanumeric(char_at(b, e))))
}

/// Where the scanner is while it skips whitespace and comments.
#[derive(Debug, Clone, Copy, PartialEq, Eq, Structural)]
pub enum Trivia {
    Code,
    LineComment,
    BlockComment,
}

/// The first offset at or after `p` that starts neither whitespace nor a
/// comment, scanning in state `mode`. An unterminated comment runs to the end.
pub open spec fn skip_from(b: Seq<u8>, p: int, mode: Trivia) -> int
    decreases b.len() - p,
{
    if p < 0 || p >= b.len() {
        p
    } else {
        match mode {
            Trivia::Code => {
                if is_whitespace_byte(b[p]) {
                    skip_from(b, p + 1, Trivia::Code)
                } else if space_len(b, p) > 0 {
                    skip_from(b, p + space_len(b, p), Trivia::Code)
                } else if b[p] == 47 && p + 1 < b.len() && b[p + 1] == 47 {
                    skip_from(b, p + 2, Trivia::LineComment)
                } else if b[p] == 47 && p + 1 < b.len() && b[p + 1] == 42 {
                    skip_from(b, p + 2, Trivia::BlockComment)
                } else {
                    p
                }
            },
            Trivia::LineComment => {
                if b[p] == 10 {
                    skip_from(b, p + 1, Trivia::Code)
                } else {
                    skip_from(b, p + 1, Trivia::LineComment)
                }
            },
            Trivia::BlockComment => {
                if b[p] == 42 && p + 1 < b.len() && b[p + 1] == 47 {
                    skip_from(b, p + 2, Trivia::Code)
                } else {
                    skip_from(b, p + 1, Trivia::BlockComment)
                }
            },
        }
    }
}

/// The offset just past the first newline at or after `p`, or the end of the
/// input: where a line comment whose body starts at `p` ends.
pub open spec fn line_comment_end(b: Seq<u8>, p: int) -> int
    decreases b.len() - p,
{
    if 0 <= p < b.len() {
        if b[p] == 10 {
            p + 1
        } else {
            line_comment_end(b, p + 1)
        }
    } else {
        p
    }
}

/// The offset just past the first `*/` at or after `p`, or the end of the
/// input: where a block comment whose body starts at `p` ends.
pub open spec fn block_comment_end(b: Seq<u8>, p: int) -> int
    decreases b.len() - p,
{
    if 0 <= p < b.len() {
        if b[p] == 42 && p + 1 < b.len() && b[p + 1] == 47 {
            p + 2
        } else {
            block_comment_end(b, p + 1)
        }
    } else {
        p
    }
}

/// The end of the identifier characters that start at `p`.
pub open spec fn ident_end(b: Seq<u8>, p: int) -> int
    decreases b.len() - p,
{
    if 0 <= p < b.len() && is_ident_continue(b[p]) {
        ident_end(b, p + 1)
    } else {
        p
    }
}

/// The end of the digits and separators that start at `p`.
pub open spec fn number_end(b: Seq<u8>, p: int) -> int
    decreases b.len() - p,
{
    if 0 <= p < b.len() && is_numeric_continue(b[p]) {
        number_end(b, p + 1)
    } else {
        p
    }
}

/// Puts one token in front of the tokens of a lexing result.
pub open spec fn with_token(t: SpanSpec, r: Result<(Seq<SpanSpec>, int), LexError>) -> Result<
    (Seq<SpanSpec>, int),
    LexError,
> {
    match r {
        Ok((ts, stop)) => Ok((seq![t] + ts, stop)),
        Err(e) => Err(e),
    }
}

/// Puts a sequence of tokens in front of the tokens of a lexing result.
pub open spec fn with_tokens(pre: Seq<SpanSpec>, r: Result<(Seq<SpanSpec>, int), LexError>) -> Result<
    (Seq<SpanSpec>, int),
    LexError,
> {
    match r {
        Ok((ts, stop)) => Ok((pre + ts, stop)),
        Err(e) => Err(e),
    }
}

/// The lexical grammar: the tokens of `b` from offset `p` on and the offset
/// where scanning stops (the end of input or a NUL byte), or the first error.
pub open spec fn lex_from(b: Seq<u8>, p: int) -> Result<(Seq<SpanSpec>, int), LexError>
    decreases b.len() - p,
{
    let q = skip_from(b, p, Trivia::Code);
    if p < 0 || q < p || q >= b.len() || b[q] == 0 {
        Ok((seq![], q))
    } else {
        let c = b[q];
        match punctuation_kind(c) {
            Some(k) => with_token((k, q, q + 1), lex_from(b, q + 1)),
            None => {
                if is_ident_start(c) {
                    let e = ident_end(b, q + 1);
                    if e <= q || e > b.len() {
                        Ok((seq![], q))
                    } else {
                        with_token((TokenType::Ident, q, e), lex_from(b, e))
                    }
                } else if is_digit(c) {
                    let e = number_end(b, q + 1);
                    if e <= q || e > b.len() {
                        Ok((seq![], q))
                    } else if invalid_after_number(b, e) {
                        Err(LexError::InvalidNumericConstant { c: char_at(b, e), offset: e as usize })
                    } else {
                        with_token((TokenType::Constant, q, e), lex_from(b, e))
                    }
                } else {
                    Err(LexError::InvalidChar { c: char_at(b, q), offset: q as usize })
                }
            },
        }
    }
}

/// The number of newline bytes among the first `n` bytes.
pub open spec fn newlines_before(b: Seq<u8>, n: int) -> nat
    decreases n,
{
    if n <= 0 {
        0
    } else {
        newlines_before(b, n - 1) + if b[n - 1] == 10 {
            1nat
        } else {
            0nat
        }
    }
}

/// A line table that closes one entry at each newline before `upto`: the
/// entries are contiguous from offset 0 and each ends just after a newline.
pub open spec fn lines_up_to(lines: Seq<Line>, b: Seq<u8>, upto: int) -> bool {
    &&& lines.len() == newlines_before(b, upto)
    &&& forall|k: int|
        0 <= k < lines.len() ==> 0 < #[trigger] lines[k].end <= upto && b[lines[k].end - 1] == 10
    &&& forall|k: int|
        0 <= k < lines.len() ==> #[trigger] lines[k].start == if k == 0 {
            0
        } else {
            lines[k - 1].end as int
        }
    &&& forall|j: int, k: int|
        0 <= j < k < lines.len() ==> #[trigger] lines[j].end < #[trigger] lines[k].end
}

/// The complete line table of a scan that stopped at `stop`: one entry per
/// newline, then a closing entry for the last line.
pub open spec fn complete_lines(lines: Seq<Line>, b: Seq<u8>, stop: int) -> bool {
    &&& lines.len() >= 1
    &&& lines_up_to(lines.drop_last(), b, stop)
    &&& lines.last().end == stop
    &&& lines.last().start == if lines.len() == 1 {
        0
    } else {
        lines[lines.len() - 2].end as int
    }
}

/// In valid UTF-8, the byte that follows `w` bytes from a leading byte of
/// width `w` starts a character.
proof fn lemma_after_char(b: Seq<u8>, j: int, w: int)
    requires
        valid_utf8(b),
        0 <= j,
        j + w < b.len(),
        (w == 1 && is_leading_byte_width_1(b[j])) || (w == 2 && is_leading_byte_width_2(b[j])) || (w
            == 3 && is_leading_byte_width_3(b[j])),
    ensures
        !is_continuation_byte(b[j + w]),
    decreases b.len(),
{
    let n = length_of_first_scalar(b);
    let rest = pop_first_scalar(b);
    assert(valid_first_scalar(b));
    assert(valid_utf8(rest));
    assert(1 <= n <= b.len());
    assert(rest.len() == b.len() - n);
    if j < n {
        assert(j == 0);
        assert(n == w);
        assert(rest[0] == b[j + w]);
        assert(rest.len() > 0);
        assert(valid_first_scalar(rest));
    } else {
        assert(rest[j - n] == b[j]);
        assert(rest[j - n + w] == b[j + w]);
        lemma_after_char(rest, j - n, w);
    }
}

/// An offset is a character boundary when it ends the input, holds an ASCII
/// byte, or follows a whole character.
pub(crate) proof fn lemma_boundary(b: Seq<u8>, i: int)
    requires
        valid_utf8(b),
        0 <= i <= b.len(),
        i == b.len() || b[i] < 128 || ends_char(b, i),
    ensures
        is_char_boundary(b, i),
{
    broadcast use is_char_boundary_start_end_of_seq;

    if 0 < i < b.len() {
        if b[i] >= 128 {
            if b[i - 1] < 128 {
                lemma_after_char(b, i - 1, 1);
            } else if i >= 2 && space_len(b, i - 2) == 2 {
                lemma_after_char(b, i - 2, 2);
            } else {
                lemma_after_char(b, i - 3, 3);
            }
        }
        is_char_boundary_iff_not_is_continuation_byte(b, i);
    }
}

proof fn lemma_with_tokens_push(pre: Seq<SpanSpec>, t: SpanSpec, r: Result<(Seq<SpanSpec>, int), LexError>)
    ensures
        with_tokens(pre, with_token(t, r)) == with_tokens(pre.push(t), r),
{
    match r {
        Ok((ts, stop)) => {
            assert(pre + (seq![t] + ts) =~= pre.push(t) + ts);
        },
        Err(e) => {},
    }
}

/// The output of the tokenizer: the source, the tokens, their spans and the
/// line table.
#[derive(Debug)]
pub struct TokenizedOutput<'src> {
    source: &'src str,
    tokens: Vec<Token>,
    token_sources: Vec<TokenSource>,
    lines: Vec<Line>,
}

impl<'src> TokenizedOutput<'src> {
    pub closed spec fn source(&self) -> &'src str {
        self.source
    }

    /// The bytes of the source text.
    pub open spec fn bytes(&self) -> Seq<u8> {
        self.source().spec_bytes()
    }

    pub closed spec fn token_seq(&self) -> Seq<Token> {
        self.tokens@
    }

    pub closed spec fn source_seq(&self) -> Seq<TokenSource> {
        self.token_sources@
    }

    pub closed spec fn line_seq(&self) -> Seq<Line> {
        self.lines@
    }

    /// Kinds and spans of the tokens.
    pub open spec fn spans(&self) -> Seq<SpanSpec> {
        Seq::new(
            self.token_seq().len(),
            |i: int|
                (
                    self.token_seq()[i].ttype,
                    self.source_seq()[i].start as int,
                    self.source_seq()[i].end as int,
                ),
        )
    }

    /// Every token has its span at its own index, within the source and on
    /// character boundaries, and its line is the number of newlines before it.
    pub open spec fn wf(&self) -> bool {
        &&& self.token_seq().len() == self.source_seq().len()
        &&& forall|i: int|
            0 <= i < self.token_seq().len() ==> {
                let t = #[trigger] self.token_seq()[i];
                let s = self.source_seq()[i];
                &&& t.handle == i
                &&& !t.has_error
                &&& s.start <= s.end <= self.bytes().len()
                &&& is_char_boundary(self.bytes(), s.start as int)
                &&& is_char_boundary(self.bytes(), s.end as int)
                &&& s.line == newlines_before(self.bytes(), s.start as int)
            }
    }

    /// This output is what the lexical grammar gives for its source.
    pub open spec fn lexed(&self) -> bool {
        &&& self.wf()
        &&& lex_from(self.bytes(), 0) matches Ok((ts, stop)) && self.spans() == ts
            && complete_lines(self.line_seq(), self.bytes(), stop)
    }

    pub(crate) fn new(source: &'src str) -> (r: TokenizedOutput<'src>)
        ensures
            r.source() == source,
            r.token_seq().len() == 0,
            r.source_seq().len() == 0,
            r.line_seq().len() == 0,
            r.wf(),
    {
        TokenizedOutput { source, tokens: Vec::new(), token_sources: Vec::new(), lines: Vec::new() }
    }

    pub fn len(&self) -> (r: usize)
        ensures
            r == self.token_seq().len(),
    {
        self.tokens.len()
    }

    pub fn is_empty(&self) -> (r: bool)
        ensures
            r == (self.token_seq().len() == 0),
    {
        self.len() == 0
    }

    pub fn get(&self, index: usize) -> (r: Option<Token>)
        ensures
            index < self.token_seq().len() ==> r == Some(self.token_seq()[index as int]),
            index >= self.token_seq().len() ==> r is None,
            self.token_seq().len() <= usize::MAX,
    {
        if index < self.tokens.len() {
            Some(self.tokens[index])
        } else {
            None
        }
    }

    pub fn token_source(&self, handle: usize) -> (r: TokenSource)
        requires
            self.wf(),
            handle < self.token_seq().len(),
        ensures
            r == self.source_seq()[handle as int],
    {
        self.token_sources[handle]
    }

    /// The text of a token, sliced from the source at its span.
    pub fn token_text(&self, handle: usize) -> (r: &'src str)
        requires
            self.wf(),
            handle < self.token_seq().len(),
        ensures
            r.spec_bytes() == self.bytes().subrange(
                self.source_seq()[handle as int].start as int,
                self.source_seq()[handle as int].end as int,
            ),
    {
        let span = self.token_sources[handle];
        assert(self.token_seq()[handle as int].handle == handle);
        span.fmt(self.source)
    }

    pub fn tokens(&self) -> (r: &[Token])
        ensures
            r@ == self.token_seq(),
    {
        self.tokens.as_slice()
    }

    pub fn lines(&self) -> (r: &[Line])
        ensures
            r@ == self.line_seq(),
    {
        self.lines.as_slice()
    }

    pub(crate) fn push_token(&mut self, ttype: TokenType, has_error: bool, source: TokenSource)
        requires
            old(self).token_seq().len() == old(self).source_seq().len(),
        ensures
            final(self).source() == old(self).source(),
            final(self).line_seq() == old(self).line_seq(),
            final(self).token_seq().len() == old(self).token_seq().len() + 1,
            forall|i: int|
                0 <= i < old(self).token_seq().len() ==> final(self).token_seq()[i] == old(
                    self,
                ).token_seq()[i],
            final(self).token_seq().last().ttype == ttype,
            final(self).token_seq().last().has_error == has_error,
            final(self).token_seq().last().handle as int == old(self).source_seq().len(),
            final(self).source_seq() == old(self).source_seq().push(source),
    {
        let handle = self.token_sources.len();
        self.tokens.push(Token { ttype, has_error, handle });
        self.token_sources.push(source);
    }

    pub(crate) fn push_line(&mut self, line: Line)
        ensures
            final(self).source() == old(self).source(),
            final(self).token_seq() == old(self).token_seq(),
            final(self).source_seq() == old(self).source_seq(),
            final(self).line_seq() == old(self).line_seq().push(line),
    {
        self.lines.push(line);
    }

    pub(crate) fn last_line(&self) -> (r: Option<Line>)
        ensures
            self.line_seq().len() == 0 ==> r is None,
            self.line_seq().len() > 0 ==> r == Some(self.line_seq().last()),
    {
        if self.lines.len() == 0 {
            None
        } else {
            Some(self.lines[self.lines.len() - 1])
        }
    }

    /// The index of the line being scanned.
    pub(crate) fn current_line(&self) -> (r: usize)
        ensures
            r == self.line_seq().len(),
    {
        self.lines.len()
    }

    /// The offset where the line being scanned starts.
    pub(crate) fn current_line_offset(&self) -> (r: usize)
        ensures
            r == if self.line_seq().len() == 0 {
                0
            } else {
                self.line_seq().last().end
            },
    {
        if let Some(line) = self.last_line() {
            line.end
        } else {
            0
        }
    }
}

/// One line of the token dump: `<line>: [<kind>] "<lexeme>"`.
pub open spec fn token_line_text(t: TokenizedOutput, i: int) -> Seq<char> {
    crate::text::decimal(t.source_seq()[i].line as nat) + ": ["@ + t.token_seq()[i].ttype.spec_name()
        + "] \""@ + decode_utf8(
        t.bytes().subrange(t.source_seq()[i].start as int, t.source_seq()[i].end as int),
    ) + "\"\n"@
}

/// The dump of the first `k` tokens.
pub open spec fn token_dump_text(t: TokenizedOutput, k: int) -> Seq<char>
    decreases k,
{
    if k <= 0 {
        Seq::empty()
    } else {
        token_dump_text(t, k - 1) + token_line_text(t, k - 1)
    }
}

impl<'src> TokenizedOutput<'src> {
    /// The token dump: one line per token, in order.
    pub fn dump(&self) -> (r: String)
        requires
            self.wf(),
        ensures
            r@ == token_dump_text(*self, self.token_seq().len() as int),
    {
        let mut out = String::new();
        let mut i: usize = 0;
        while i < self.tokens.len()
            invariant
                self.wf(),
                i <= self.token_seq().len(),
                out@ == token_dump_text(*self, i as int),
            decreases self.token_seq().len() - i,
        {
            let source = self.token_sources[i];
            crate::text::append_decimal(&mut out, source.line as u64);
            out.append(": [");
            out.append(self.tokens[i].ttype.name());
            out.append("] \"");
            let text = self.token_text(i);
            out.append(text);
            out.append("\"\n");
            proof {
                broadcast use encode_utf8_decode_utf8;

                assert(text@ == decode_utf8(text.spec_bytes()));
            }
            i = i + 1;
            assert(out@ =~= token_dump_text(*self, i as int));
        }
        out
    }
}

/// A boundary of the whole input that lies before `end` is a boundary of the
/// input cut at `end`, itself a boundary.
pub(crate) proof fn lemma_boundary_prefix(b: Seq<u8>, i: int, end: int)
    requires
        valid_utf8(b),
        0 <= i <= end <= b.len(),
        is_char_boundary(b, i),
        is_char_boundary(b, end),
    ensures
        is_char_boundary(b.subrange(0, end), i),
{
    broadcast use is_char_boundary_start_end_of_seq;

    let head = b.subrange(0, end);
    valid_utf8_split(b, end);
    if i < end {
        is_char_boundary_iff_not_is_continuation_byte(b, i);
        is_char_boundary_iff_not_is_continuation_byte(head, i);
    }
}

/// The single-character token kind of a byte, if any.
pub fn punctuation(c: u8) -> (r: Option<TokenType>)
    ensures
        r == punctuation_kind(c),
{
    if c == 40 {
        Some(TokenType::OpenParen)
    } else if c == 41 {
        Some(TokenType::CloseParen)
    } else if c == 123 {
        Some(TokenType::OpenBrace)
    } else if c == 125 {
        Some(TokenType::CloseBrace)
    } else if c == 59 {
        Some(TokenType::Semicolon)
    } else if c == 47 {
        Some(TokenType::FrontSlash)
    } else if c == 45 {
        Some(TokenType::Hyphen)
    } else if c == 58 {
        Some(TokenType::Colon)
    } else if c == 42 {
        Some(TokenType::Asterisk)
    } else if c == 39 {
        Some(TokenType::Quote)
    } else if c == 34 {
        Some(TokenType::DoubleQuote)
    } else if c == 44 {
        Some(TokenType::Comma)
    } else {
        None
    }
}


/// The scanner: a cursor over the source bytes and the output built so far.
pub struct Lexer<'src> {
    source: &'src str,
    bytes: &'src [u8],
    offset: usize,
    output: TokenizedOutput<'src>,
}

impl<'src> Lexer<'src> {
    pub closed spec fn bytes_spec(&self) -> Seq<u8> {
        self.bytes@
    }

    pub closed spec fn offset_spec(&self) -> int {
        self.offset as int
    }

    pub closed spec fn output_spec(&self) -> TokenizedOutput<'src> {
        self.output
    }

    /// The cursor lies within the source, the output is well formed and its
    /// line table covers everything before the cursor.
    pub closed spec fn inv(&self) -> bool {
        &&& self.bytes@ == self.source.spec_bytes()
        &&& self.output.source() == self.source
        &&& self.offset <= self.bytes@.len()
        &&& self.output.wf()
        &&& forall|i: int|
            0 <= i < self.output.source_seq().len() ==> (#[trigger] self.output.source_seq()[i]).end
                <= self.offset
        &&& lines_up_to(self.output.line_seq(), self.bytes@, self.offset as int)
    }

    pub fn new(source: &'src str) -> (r: Lexer<'src>)
        ensures
            r.inv(),
            r.bytes_spec() == source.spec_bytes(),
            r.offset_spec() == 0,
            r.output_spec().source() == source,
            r.output_spec().token_seq().len() == 0,
            r.output_spec().line_seq().len() == 0,
    {
        let bytes = source.as_bytes();
        let r = Lexer { source, bytes, offset: 0, output: TokenizedOutput::new(source) };
        assert(lines_up_to(r.output.line_seq(), bytes@, 0));
        r
    }

    /// Moves the cursor over one byte, closing a line entry on a newline.
    fn advance_byte(&mut self)
        requires
            old(self).inv(),
            old(self).offset < old(self).bytes@.len(),
        ensures
            final(self).inv(),
            final(self).source == old(self).source,
            final(self).bytes == old(self).bytes,
            final(self).offset == old(self).offset + 1,
            final(self).output.token_seq() == old(self).output.token_seq(),
            final(self).output.source_seq() == old(self).output.source_seq(),
    {
        let c = self.bytes[self.offset];
        if c == 10 {
            let line = Line { start: self.output.current_line_offset(), end: self.offset + 1 };
            self.output.push_line(line);
        }
        self.offset = self.offset + 1;
        proof {
            let b = self.bytes@;
            let lines = self.output.line_seq();
            let o = old(self).output.line_seq();
            assert(newlines_before(b, self.offset as int) == newlines_before(b, old(self).offset as int)
                + if b[old(self).offset as int] == 10 {
                1nat
            } else {
                0nat
            });
            if c == 10 {
                assert forall|k: int| 0 <= k < lines.len() implies 0 < #[trigger] lines[k].end
                    <= self.offset && b[lines[k].end - 1] == 10 by {
                    if k < o.len() {
                        assert(lines[k] == o[k]);
                    }
                }
                assert forall|k: int| 0 <= k < lines.len() implies #[trigger] lines[k].start == if k
                    == 0 {
                    0
                } else {
                    lines[k - 1].end as int
                } by {
                    if k < o.len() {
                        assert(lines[k] == o[k]);
                    }
                    if k == o.len() && k > 0 {
                        assert(lines[k - 1] == o[k - 1]);
                    }
                }
                assert forall|j: int, k: int| 0 <= j < k < lines.len() implies #[trigger] lines[j].end
                    < #[trigger] lines[k].end by {
                    assert(lines[j] == o[j]);
                    if k < o.len() {
                        assert(lines[k] == o[k]);
                    }
                }
            }
        }
    }

    /// Skips the body of a comment whose opening `//` or `/*` lies behind the
    /// cursor, up to and including its terminator.
    fn skip_comments(&mut self, block: bool)
        requires
            old(self).inv(),
            old(self).offset >= 2,
            old(self).bytes@[old(self).offset - 2] == 47,
            old(self).bytes@[old(self).offset - 1] == if block {
                42u8
            } else {
                47u8
            },
        ensures
            final(self).offset == if block {
                block_comment_end(old(self).bytes@, old(self).offset as int)
            } else {
                line_comment_end(old(self).bytes@, old(self).offset as int)
            },
            final(self).inv(),
            final(self).source == old(self).source,
            final(self).bytes == old(self).bytes,
            final(self).offset >= old(self).offset,
            final(self).offset < final(self).bytes@.len() ==> final(self).offset > 0 && ends_char(final(self).bytes@, final(self).offset as int),
            skip_from(final(self).bytes@, final(self).offset as int, Trivia::Code) == skip_from(
                old(self).bytes@,
                old(self).offset as int,
                if block {
                    Trivia::BlockComment
                } else {
                    Trivia::LineComment
                },
            ),
            final(self).output.token_seq() == old(self).output.token_seq(),
            final(self).output.source_seq() == old(self).output.source_seq(),
    {
        let ghost mode = if block {
            Trivia::BlockComment
        } else {
            Trivia::LineComment
        };
        let ghost b = self.bytes@;
        loop
            invariant
                self.inv(),
                self.source == old(self).source,
                self.bytes == old(self).bytes,
                b == self.bytes@,
                self.offset >= old(self).offset,
                mode == if block {
                    Trivia::BlockComment
                } else {
                    Trivia::LineComment
                },
                skip_from(b, self.offset as int, mode) == skip_from(b, old(self).offset as int, mode),
                block ==> block_comment_end(b, self.offset as int) == block_comment_end(
                    b,
                    old(self).offset as int,
                ),
                !block ==> line_comment_end(b, self.offset as int) == line_comment_end(
                    b,
                    old(self).offset as int,
                ),
                self.output.token_seq() == old(self).output.token_seq(),
                self.output.source_seq() == old(self).output.source_seq(),
            decreases self.bytes@.len() - self.offset,
        {
            if self.offset >= self.bytes.len() {
                assert(skip_from(b, self.offset as int, mode) == self.offset as int);
                assert(skip_from(b, self.offset as int, Trivia::Code) == self.offset as int);
                return ;
            }
            let ghost o = self.offset as int;
            let c = self.bytes[self.offset];
            if !block {
                self.advance_byte();
                if c == 10 {
                    assert(skip_from(b, o, mode) == skip_from(b, o + 1, Trivia::Code));
                    return ;
                }
                assert(skip_from(b, o, mode) == skip_from(b, o + 1, mode));
            } else if c == 42 && self.offset + 1 < self.bytes.len() && self.bytes[self.offset + 1]
                == 47 {
                self.advance_byte();
                self.advance_byte();
                assert(skip_from(b, o, mode) == skip_from(b, o + 2, Trivia::Code));
                return ;
            } else {
                self.advance_byte();
                assert(skip_from(b, o, mode) == skip_from(b, o + 1, mode));
            }
        }
    }

    /// Skips whitespace and comments, closing a line entry at every newline,
    /// and returns the byte under the cursor, if any.
    fn skip_whitespace(&mut self) -> (r: Option<u8>)
        requires
            old(self).inv(),
        ensures
            final(self).inv(),
            final(self).source == old(self).source,
            final(self).bytes == old(self).bytes,
            final(self).offset >= old(self).offset,
            final(self).offset == skip_from(old(self).bytes@, old(self).offset as int, Trivia::Code),
            final(self).offset < final(self).bytes@.len() ==> (final(self).offset == old(self).offset || ends_char(final(self).bytes@, final(self).offset as int)),
            final(self).offset < final(self).bytes@.len() ==> r == Some(
                final(self).bytes@[final(self).offset as int],
            ),
            final(self).offset >= final(self).bytes@.len() ==> r is None,
            final(self).output.token_seq() == old(self).output.token_seq(),
            final(self).output.source_seq() == old(self).output.source_seq(),
    {
        let ghost b = self.bytes@;
        loop
            invariant
                self.inv(),
                self.source == old(self).source,
                self.bytes == old(self).bytes,
                b == self.bytes@,
                self.offset >= old(self).offset,
                skip_from(b, self.offset as int, Trivia::Code) == skip_from(
                    b,
                    old(self).offset as int,
                    Trivia::Code,
                ),
                self.output.token_seq() == old(self).output.token_seq(),
                self.output.source_seq() == old(self).output.source_seq(),
                self.offset < self.bytes@.len() ==> (self.offset == old(self).offset || ends_char(
                    self.bytes@,
                    self.offset as int,
                )),
            decreases self.bytes@.len() - self.offset,
        {
            if self.offset >= self.bytes.len() {
                return None;
            }
            let c = self.bytes[self.offset];
            let wide = self.unicode_space_len();
            if c == 32 || (9 <= c && c <= 13) {
                self.advance_byte();
            } else if wide > 0 {
                let ghost o = self.offset as int;
                self.advance_byte();
                self.advance_byte();
                if wide == 3 {
                    self.advance_byte();
                }
                assert(ends_char(b, self.offset as int)) by {
                    assert(space_len(b, self.offset - wide) == wide);
                }
            } else if c == 47 && self.offset + 1 < self.bytes.len() && (self.bytes[self.offset + 1]
                == 47 || self.bytes[self.offset + 1] == 42) {
                let block = self.bytes[self.offset + 1] == 42;
                self.advance_byte();
                self.advance_byte();
                self.skip_comments(block);
            } else {
                return Some(c);
            }
        }
    }

    /// The length of the whitespace character outside ASCII under the
    /// cursor, or 0.
    fn unicode_space_len(&self) -> (r: usize)
        requires
            self.inv(),
        ensures
            r == space_len(self.bytes@, self.offset as int),
    {
        let b = self.bytes;
        let p = self.offset;
        if p < b.len() && b.len() - p >= 2 && b[p] == 0xc2 && (b[p + 1] == 0x85 || b[p + 1] == 0xa0) {
            2
        } else if p < b.len() && b.len() - p >= 3 && ((b[p] == 0xe1 && b[p + 1] == 0x9a && b[p + 2] == 0x80) || (
        b[p] == 0xe2 && b[p + 1] == 0x80 && ((0x80 <= b[p + 2] && b[p + 2] <= 0x8a) || b[p + 2]
            == 0xa8 || b[p + 2] == 0xa9 || b[p + 2] == 0xaf)) || (b[p] == 0xe2 && b[p + 1] == 0x81
            && b[p + 2] == 0x9f) || (b[p] == 0xe3 && b[p + 1] == 0x80 && b[p + 2] == 0x80)) {
            3
        } else {
            0
        }
    }

    /// The character under the cursor, which stands on a character boundary.
    fn char_under_cursor(&self) -> (r: char)
        requires
            self.inv(),
            self.offset < self.bytes@.len(),
            ends_char(self.bytes@, self.offset as int),
        ensures
            r == char_at(self.bytes@, self.offset as int),
    {
        let c = self.bytes[self.offset];
        if c < 128 {
            return c as char;
        }
        proof {
            broadcast use encode_utf8_valid_utf8;

            lemma_boundary(self.bytes@, self.offset as int);
        }
        let (_, rest) = self.source.split_at(self.offset);
        proof {
            broadcast use encode_utf8_decode_utf8;

            let tail = self.bytes@.subrange(self.offset as int, self.bytes@.len() as int);
            assert(rest.spec_bytes() =~= tail);
            assert(decode_utf8(tail) == rest@);
            if rest@.len() == 0 {
                assert(encode_utf8(rest@) =~= Seq::<u8>::empty());
            }
        }
        rest.get_char(0)
    }

    /// Records a token spanning from `start` to the cursor.
    fn emit(&mut self, ttype: TokenType, start: usize)
        requires
            old(self).inv(),
            start < old(self).offset,
            forall|i: int|
                0 <= i < old(self).output.source_seq().len() ==> (#[trigger] old(
                    self,
                ).output.source_seq()[i]).end <= start,
            old(self).bytes@[start as int] < 128,
            old(self).bytes@[old(self).offset - 1] < 128,
            newlines_before(old(self).bytes@, start as int) == newlines_before(
                old(self).bytes@,
                old(self).offset as int,
            ),
        ensures
            final(self).inv(),
            final(self).source == old(self).source,
            final(self).bytes == old(self).bytes,
            final(self).offset == old(self).offset,
            final(self).output.spans() == old(self).output.spans().push(
                (ttype, start as int, old(self).offset as int),
            ),
    {
        let line = self.output.current_line();
        let source = TokenSource { start, end: self.offset, line };
        self.output.push_token(ttype, false, source);
        proof {
            broadcast use encode_utf8_valid_utf8;

            let b = self.bytes@;
            assert(valid_utf8(b));
            lemma_boundary(b, start as int);
            lemma_boundary(b, self.offset as int);
            let o = old(self).output;
            assert forall|i: int| 0 <= i < self.output.token_seq().len() implies {
                let t = #[trigger] self.output.token_seq()[i];
                let s = self.output.source_seq()[i];
                &&& t.handle == i
                &&& !t.has_error
                &&& s.start <= s.end <= self.output.bytes().len()
                &&& is_char_boundary(self.output.bytes(), s.start as int)
                &&& is_char_boundary(self.output.bytes(), s.end as int)
                &&& s.line == newlines_before(self.output.bytes(), s.start as int)
            } by {
                if i < o.token_seq().len() {
                    assert(self.output.token_seq()[i] == o.token_seq()[i]);
                    assert(self.output.source_seq()[i] == o.source_seq()[i]);
                } else {
                    assert(self.output.source_seq()[i] == source);
                    assert(self.output.bytes() == b);
                }
            }
            assert forall|i: int| 0 <= i < self.output.source_seq().len() implies (
            #[trigger] self.output.source_seq()[i]).end <= self.offset by {
                if i < o.source_seq().len() {
                    assert(self.output.source_seq()[i] == o.source_seq()[i]);
                }
            }
            assert forall|i: int| 0 <= i < o.token_seq().len() implies self.output.spans()[i] == o.spans()[i] by {
                assert(self.output.token_seq()[i] == o.token_seq()[i]);
                assert(self.output.source_seq()[i] == o.source_seq()[i]);
            }
            assert(self.output.spans() =~= o.spans().push((ttype, start as int, self.offset as int)));
        }
    }

    /// Consumes an identifier that starts under the cursor.
    fn consume_ident(&mut self)
        requires
            old(self).inv(),
            old(self).offset < old(self).bytes@.len(),
            is_ident_start(old(self).bytes@[old(self).offset as int]),
            forall|i: int|
                0 <= i < old(self).output.source_seq().len() ==> (#[trigger] old(
                    self,
                ).output.source_seq()[i]).end <= old(self).offset,
        ensures
            final(self).inv(),
            final(self).source == old(self).source,
            final(self).bytes == old(self).bytes,
            final(self).offset == ident_end(old(self).bytes@, old(self).offset + 1),
            final(self).offset > old(self).offset,
            final(self).bytes@[final(self).offset - 1] < 128,
            final(self).output.spans() == old(self).output.spans().push(
                (TokenType::Ident, old(self).offset as int, final(self).offset as int),
            ),
    {
        let start = self.offset;
        let ghost b = self.bytes@;
        self.advance_byte();
        while self.offset < self.bytes.len() && (is_ident_char(self.bytes[self.offset]))
            invariant
                self.inv(),
                self.source == old(self).source,
                self.bytes == old(self).bytes,
                b == self.bytes@,
                start < self.offset,
                forall|i: int| start <= i < self.offset ==> is_ident_continue(#[trigger] b[i]),
                ident_end(b, self.offset as int) == ident_end(b, start + 1),
                newlines_before(b, start as int) == newlines_before(b, self.offset as int),
                self.output.token_seq() == old(self).output.token_seq(),
                self.output.source_seq() == old(self).output.source_seq(),
            decreases self.bytes@.len() - self.offset,
        {
            self.advance_byte();
        }
        self.emit(TokenType::Ident, start);
    }

    /// Consumes a numeric constant that starts under the cursor; a letter
    /// right after its digits is an error.
    fn consume_numeric_constant(&mut self) -> (r: Result<(), LexError>)
        requires
            old(self).inv(),
            old(self).offset < old(self).bytes@.len(),
            is_digit(old(self).bytes@[old(self).offset as int]),
            forall|i: int|
                0 <= i < old(self).output.source_seq().len() ==> (#[trigger] old(
                    self,
                ).output.source_seq()[i]).end <= old(self).offset,
        ensures
            final(self).inv(),
            final(self).source == old(self).source,
            final(self).bytes == old(self).bytes,
            old(self).offset < number_end(old(self).bytes@, old(self).offset + 1) <= old(
                self,
            ).bytes@.len(),
            ({
                let b = old(self).bytes@;
                let e = number_end(b, old(self).offset + 1);
                if invalid_after_number(b, e) {
                    &&& r == Err::<(), LexError>(
                        LexError::InvalidNumericConstant { c: char_at(b, e), offset: e as usize },
                    )
                    &&& final(self).output.token_seq() == old(self).output.token_seq()
                    &&& final(self).output.source_seq() == old(self).output.source_seq()
                } else {
                    &&& r is Ok
                    &&& final(self).offset == e
                    &&& final(self).bytes@[final(self).offset - 1] < 128
                    &&& final(self).output.spans() == old(self).output.spans().push(
                        (TokenType::Constant, old(self).offset as int, e),
                    )
                }
            }),
    {
        let start = self.offset;
        let ghost b = self.bytes@;
        self.advance_byte();
        while self.offset < self.bytes.len() && (is_numeric_char(self.bytes[self.offset]))
            invariant
                self.inv(),
                self.source == old(self).source,
                self.bytes == old(self).bytes,
                b == self.bytes@,
                start < self.offset,
                forall|i: int| start <= i < self.offset ==> is_numeric_continue(#[trigger] b[i]),
                number_end(b, self.offset as int) == number_end(b, start + 1),
                newlines_before(b, start as int) == newlines_before(b, self.offset as int),
                self.output.token_seq() == old(self).output.token_seq(),
                self.output.source_seq() == old(self).output.source_seq(),
            decreases self.bytes@.len() - self.offset,
        {
            self.advance_byte();
        }
        if self.offset < self.bytes.len() {
            let c = self.bytes[self.offset];
            if is_letter_byte(c) {
                return Err(LexError::InvalidNumericConstant { c: c as char, offset: self.offset });
            }
            if c >= 128 {
                let wide = self.char_under_cursor();
                if is_alphanumeric(wide) {
                    return Err(LexError::InvalidNumericConstant { c: wide, offset: self.offset });
                }
            }
        }
        self.emit(TokenType::Constant, start);
        Ok(())
    }

    /// Tokenizes `source`, or reports the first lexical error.
    pub fn lex(source: &str) -> (r: Result<TokenizedOutput<'_>, LexError>)
        ensures
            match lex_from(source.spec_bytes(), 0) {
                Ok(_) => r matches Ok(out) && out.source() == source && out.lexed(),
                Err(e) => r == Err::<TokenizedOutput<'_>, LexError>(e),
            },
    {
        let mut lexer = Lexer::new(source);
        match lexer.run_lexer() {
            Ok(()) => Ok(lexer.output),
            Err(e) => Err(e),
        }
    }

    /// Runs the scan loop from the start of the source to its end or to a
    /// NUL byte, then closes the last line.
    fn run_lexer(&mut self) -> (r: Result<(), LexError>)
        requires
            old(self).inv(),
            old(self).offset == 0,
            old(self).output.token_seq().len() == 0,
            old(self).output.line_seq().len() == 0,
        ensures
            final(self).output.source() == old(self).output.source(),
            match lex_from(old(self).bytes@, 0) {
                Ok(_) => r is Ok && final(self).output.lexed(),
                Err(e) => r == Err::<(), LexError>(e),
            },
    {
        let ghost b = self.bytes@;
        assert(self.output.spans() =~= Seq::<SpanSpec>::empty());
        assert(with_tokens(self.output.spans(), lex_from(b, 0)) == lex_from(b, 0)) by {
            match lex_from(b, 0) {
                Ok((ts, stop)) => {
                    assert(Seq::<SpanSpec>::empty() + ts =~= ts);
                },
                Err(e) => {},
            }
        }
        loop
            invariant_except_break
                ends_char(self.bytes@, self.offset as int),
            invariant
                self.inv(),
                self.source == old(self).source,
                self.bytes == old(self).bytes,
                b == self.bytes@,
                lex_from(b, 0) == with_tokens(self.output.spans(), lex_from(b, self.offset as int)),
                self.output.source() == old(self).output.source(),
            ensures
                self.inv(),
                self.output.source() == old(self).output.source(),
                lex_from(b, 0) == Ok::<(Seq<SpanSpec>, int), LexError>(
                    (self.output.spans(), self.offset as int),
                ),
            decreases self.bytes@.len() - self.offset,
        {
            let ghost p = self.offset as int;
            let next = self.skip_whitespace();
            let c = match next {
                None => {
                    assert(lex_from(b, p) == Ok::<(Seq<SpanSpec>, int), LexError>((seq![], self.offset as int)));
                    assert(self.output.spans() + seq![] =~= self.output.spans());
                    break ;
                },
                Some(c) => c,
            };
            if c == 0 {
                assert(lex_from(b, p) == Ok::<(Seq<SpanSpec>, int), LexError>((seq![], self.offset as int)));
                assert(self.output.spans() + seq![] =~= self.output.spans());
                break ;
            }
            let start = self.offset;
            match punctuation(c) {
                Some(kind) => {
                    assert(lex_from(b, p) == with_token((kind, start as int, start + 1), lex_from(b, start + 1)));
                    let ghost before = self.output.spans();
                    self.advance_byte();
                    self.emit(kind, start);
                    proof {
                        lemma_with_tokens_push(
                            before,
                            (kind, start as int, self.offset as int),
                            lex_from(b, self.offset as int),
                        );
                    }
                },
                None => {
                    if is_ident_start_byte(c) {
                        let ghost before = self.output.spans();
                        self.consume_ident();
                        assert(lex_from(b, p) == with_token((TokenType::Ident, start as int, self.offset as int), lex_from(b, self.offset as int)));
                        proof {
                            lemma_with_tokens_push(
                                before,
                                (TokenType::Ident, start as int, self.offset as int),
                                lex_from(b, self.offset as int),
                            );
                        }
                    } else if is_digit_byte(c) {
                        let ghost before = self.output.spans();
                        let res = self.consume_numeric_constant();
                        if let Err(e) = res {
                            assert(lex_from(b, p) == Err::<(Seq<SpanSpec>, int), LexError>(e));
                            return Err(e);
                        }
                        assert(lex_from(b, p) == with_token((TokenType::Constant, start as int, self.offset as int), lex_from(b, self.offset as int)));
                        proof {
                            lemma_with_tokens_push(
                                before,
                                (TokenType::Constant, start as int, self.offset as int),
                                lex_from(b, self.offset as int),
                            );
                        }
                    } else {
                        let bad = self.char_under_cursor();
                        assert(lex_from(b, p) == Err::<(Seq<SpanSpec>, int), LexError>(LexError::InvalidChar { c: bad, offset: start }));
                        return Err(LexError::InvalidChar { c: bad, offset: start });
                    }
                },
            }
        }
        let last = Line { start: self.output.current_line_offset(), end: self.offset };
        let ghost before = self.output.line_seq();
        self.output.push_line(last);
        proof {
            assert(self.output.line_seq().drop_last() =~= before);
        }
        Ok(())
    }
}

fn is_ident_char(c: u8) -> (r: bool)
    ensures
        r == is_ident_continue(c),
{
    (65 <= c && c <= 90) || (97 <= c && c <= 122) || c == 95 || (48 <= c && c <= 57)
}

fn is_ident_start_byte(c: u8) -> (r: bool)
    ensures
        r == is_ident_start(c),
{
    (65 <= c && c <= 90) || (97 <= c && c <= 122) || c == 95
}

fn is_numeric_char(c: u8) -> (r: bool)
    ensures
        r == is_numeric_continue(c),
{
    (48 <= c && c <= 57) || c == 95
}

fn is_digit_byte(c: u8) -> (r: bool)
    ensures
        r == is_digit(c),
{
    48 <= c && c <= 57
}

fn is_letter_byte(c: u8) -> (r: bool)
    ensures
        r == is_letter(c),
{
    (65 <= c && c <= 90) || (97 <= c && c <= 122)
}

} // verus!
