//! Properties of the tokenizer that hold of every input.
use vstd::prelude::*;

use vstd::utf8::*;

use crate::lexer::{
    char_at, invalid_after_number, lemma_boundary, ident_end, is_digit, is_ident_continue, is_ident_start, is_numeric_continue, lex_from,
    number_end, punctuation_kind, skip_from, space_len, with_token, with_tokens, SpanSpec,
    TokenizedOutput, Trivia,
};
use crate::token::{LexError, TokenType};

verus! {

/// `s` is a complete lexeme of kind `kind`: an identifier, a numeric
/// constant, or the single character of a punctuation token.
pub open spec fn is_lexeme(kind: TokenType, s: Seq<u8>) -> bool {
    match kind {
        TokenType::Ident => s.len() >= 1 && is_ident_start(s[0]) && forall|i: int|
            1 <= i < s.len() ==> is_ident_continue(#[trigger] s[i]),
        TokenType::Constant => s.len() >= 1 && is_digit(s[0]) && forall|i: int|
            1 <= i < s.len() ==> is_numeric_continue(#[trigger] s[i]),
        _ => s.len() == 1 && punctuation_kind(s[0]) == Some(kind),
    }
}

/// The spans `ts` lie in order within `[p, b.len())`, and each one slices
/// out of `b` a lexeme of its kind.
pub open spec fn spans_are_lexemes(b: Seq<u8>, ts: Seq<SpanSpec>, p: int) -> bool {
    &&& forall|i: int|
        0 <= i < ts.len() ==> p <= (#[trigger] ts[i]).1 < ts[i].2 <= b.len() && is_lexeme(
            ts[i].0,
            b.subrange(ts[i].1, ts[i].2),
        )
    &&& forall|i: int| 0 <= i < ts.len() - 1 ==> (#[trigger] ts[i]).2 <= ts[i + 1].1
}

proof fn lemma_skip_from_advances(b: Seq<u8>, p: int, mode: Trivia)
    requires
        0 <= p,
    ensures
        p <= skip_from(b, p, mode),
        p <= b.len() ==> skip_from(b, p, mode) <= b.len(),
    decreases b.len() - p,
{
    if p < b.len() {
        match mode {
            Trivia::Code => {
                if crate::lexer::is_whitespace_byte(b[p]) {
                    lemma_skip_from_advances(b, p + 1, Trivia::Code);
                } else if space_len(b, p) > 0 {
                    lemma_skip_from_advances(b, p + space_len(b, p), Trivia::Code);
                } else if b[p] == 47 && p + 1 < b.len() && b[p + 1] == 47 {
                    lemma_skip_from_advances(b, p + 2, Trivia::LineComment);
                } else if b[p] == 47 && p + 1 < b.len() && b[p + 1] == 42 {
                    lemma_skip_from_advances(b, p + 2, Trivia::BlockComment);
                }
            },
            Trivia::LineComment => {
                if b[p] == 10 {
                    lemma_skip_from_advances(b, p + 1, Trivia::Code);
                } else {
                    lemma_skip_from_advances(b, p + 1, Trivia::LineComment);
                }
            },
            Trivia::BlockComment => {
                if b[p] == 42 && p + 1 < b.len() && b[p + 1] == 47 {
                    lemma_skip_from_advances(b, p + 2, Trivia::Code);
                } else {
                    lemma_skip_from_advances(b, p + 1, Trivia::BlockComment);
                }
            },
        }
    }
}

proof fn lemma_ident_run(b: Seq<u8>, p: int)
    requires
        0 <= p <= b.len(),
    ensures
        p <= ident_end(b, p) <= b.len(),
        forall|i: int| p <= i < ident_end(b, p) ==> is_ident_continue(#[trigger] b[i]),
    decreases b.len() - p,
{
    if p < b.len() && is_ident_continue(b[p]) {
        lemma_ident_run(b, p + 1);
    }
}

proof fn lemma_number_run(b: Seq<u8>, p: int)
    requires
        0 <= p <= b.len(),
    ensures
        p <= number_end(b, p) <= b.len(),
        forall|i: int| p <= i < number_end(b, p) ==> is_numeric_continue(#[trigger] b[i]),
    decreases b.len() - p,
{
    if p < b.len() && is_numeric_continue(b[p]) {
        lemma_number_run(b, p + 1);
    }
}

proof fn lemma_prepend_span(b: Seq<u8>, t: SpanSpec, ts: Seq<SpanSpec>, p: int, q: int)
    requires
        p <= t.1 < t.2 <= q,
        t.2 <= b.len(),
        is_lexeme(t.0, b.subrange(t.1, t.2)),
        spans_are_lexemes(b, ts, q),
    ensures
        spans_are_lexemes(b, seq![t] + ts, p),
{
    let all = seq![t] + ts;
    assert forall|i: int| 0 <= i < all.len() implies p <= (#[trigger] all[i]).1 < all[i].2
        <= b.len() && is_lexeme(all[i].0, b.subrange(all[i].1, all[i].2)) by {
        if i > 0 {
            assert(all[i] == ts[i - 1]);
        }
    }
    assert forall|i: int| 0 <= i < all.len() - 1 implies (#[trigger] all[i]).2 <= all[i + 1].1 by {
        assert(all[i + 1] == ts[i]);
        if i > 0 {
            assert(all[i] == ts[i - 1]);
        }
    }
}

/// Every token that the lexical grammar produces from offset `p` spans, in
/// order, a lexeme of its own kind.
pub proof fn lemma_lexed_spans(b: Seq<u8>, p: int)
    requires
        0 <= p <= b.len(),
    ensures
        lex_from(b, p) matches Ok((ts, _)) ==> spans_are_lexemes(b, ts, p),
    decreases b.len() - p,
{
    let q = skip_from(b, p, Trivia::Code);
    lemma_skip_from_advances(b, p, Trivia::Code);
    if q >= b.len() || b[q] == 0 {
        return;
    }
    let c = b[q];
    match punctuation_kind(c) {
        Some(k) => {
            lemma_lexed_spans(b, q + 1);
            if let Ok((ts, _)) = lex_from(b, q + 1) {
                lemma_prepend_span(b, (k, q, q + 1), ts, p, q + 1);
            }
        },
        None => {
            if is_ident_start(c) {
                let e = ident_end(b, q + 1);
                lemma_ident_run(b, q + 1);
                lemma_lexed_spans(b, e);
                if let Ok((ts, _)) = lex_from(b, e) {
                    let s = b.subrange(q, e);
                    assert forall|i: int| 1 <= i < s.len() implies is_ident_continue(
                        #[trigger] s[i],
                    ) by {
                        assert(s[i] == b[q + i]);
                    }
                    lemma_prepend_span(b, (TokenType::Ident, q, e), ts, p, e);
                }
            } else if is_digit(c) {
                let e = number_end(b, q + 1);
                lemma_number_run(b, q + 1);
                lemma_lexed_spans(b, e);
                if let Ok((ts, _)) = lex_from(b, e) {
                    let s = b.subrange(q, e);
                    assert forall|i: int| 1 <= i < s.len() implies is_numeric_continue(
                        #[trigger] s[i],
                    ) by {
                        assert(s[i] == b[q + i]);
                    }
                    lemma_prepend_span(b, (TokenType::Constant, q, e), ts, p, e);
                }
            }
        },
    }
}

/// Re-slicing the source at the span of any token of a successful lexing
/// gives back the lexeme that produced the token, and the spans come in
/// source order without overlapping.
pub proof fn lemma_token_spans_reslice(out: TokenizedOutput)
    requires
        out.lexed(),
    ensures
        spans_are_lexemes(out.bytes(), out.spans(), 0),
{
    lemma_lexed_spans(out.bytes(), 0);
}

/// An `@` that the scanner reaches outside any comment ends the lexing with
/// an error naming `@` and its offset, so no tokens are returned: whatever tokens `pre` came
/// before the point `p` where scanning resumed, the result is that error.
pub proof fn lemma_at_sign_is_rejected(b: Seq<u8>, pre: Seq<SpanSpec>, p: int)
    requires
        0 <= p <= b.len(),
        lex_from(b, 0) == with_tokens(pre, lex_from(b, p)),
        skip_from(b, p, Trivia::Code) < b.len(),
        b[skip_from(b, p, Trivia::Code)] == 64,
    ensures
        lex_from(b, 0) == Err::<(Seq<SpanSpec>, int), LexError>(
            LexError::InvalidChar { c: '@', offset: skip_from(b, p, Trivia::Code) as usize },
        ),
{
    lemma_skip_from_advances(b, p, Trivia::Code);
    assert((64u8 as char) == '@');
}

proof fn lemma_space_len_extend(pre: Seq<u8>, x: Seq<u8>, p: int)
    requires
        0 <= p < pre.len(),
        x.len() >= 1,
        x[0] == 64,
    ensures
        space_len(pre + x, p) == space_len(pre, p),
{
    let b = pre + x;
    assert(b[p] == pre[p]);
    if p + 1 < pre.len() {
        assert(b[p + 1] == pre[p + 1]);
    } else {
        assert(b[p + 1] == 64);
    }
    if p + 2 < pre.len() {
        assert(b[p + 2] == pre[p + 2]);
    } else if p + 2 == pre.len() {
        assert(b[p + 2] == 64);
    }
}

/// Skipping whitespace and comments from `p` in state `mode` stops in code:
/// at a byte that is neither, or at the end of the input outside any comment.
pub open spec fn skip_ends_in_code(b: Seq<u8>, p: int, mode: Trivia) -> bool
    decreases b.len() - p,
{
    if p < 0 || p >= b.len() {
        mode == Trivia::Code
    } else {
        match mode {
            Trivia::Code => {
                if crate::lexer::is_whitespace_byte(b[p]) {
                    skip_ends_in_code(b, p + 1, Trivia::Code)
                } else if space_len(b, p) > 0 {
                    skip_ends_in_code(b, p + space_len(b, p), Trivia::Code)
                } else if b[p] == 47 && p + 1 < b.len() && b[p + 1] == 47 {
                    skip_ends_in_code(b, p + 2, Trivia::LineComment)
                } else if b[p] == 47 && p + 1 < b.len() && b[p + 1] == 42 {
                    skip_ends_in_code(b, p + 2, Trivia::BlockComment)
                } else {
                    true
                }
            },
            Trivia::LineComment => {
                if b[p] == 10 {
                    skip_ends_in_code(b, p + 1, Trivia::Code)
                } else {
                    skip_ends_in_code(b, p + 1, Trivia::LineComment)
                }
            },
            Trivia::BlockComment => {
                if b[p] == 42 && p + 1 < b.len() && b[p + 1] == 47 {
                    skip_ends_in_code(b, p + 2, Trivia::Code)
                } else {
                    skip_ends_in_code(b, p + 1, Trivia::BlockComment)
                }
            },
        }
    }
}

/// Scanning `b` from `p` as the lexical grammar does ends outside any
/// comment: the input does not stop inside an unterminated `//` or `/*`.
pub open spec fn scan_ends_in_code(b: Seq<u8>, p: int) -> bool
    decreases b.len() - p,
{
    let q = skip_from(b, p, Trivia::Code);
    if p < 0 || q < p || q >= b.len() {
        skip_ends_in_code(b, p, Trivia::Code)
    } else if b[q] == 0 {
        true
    } else {
        match punctuation_kind(b[q]) {
            Some(_) => scan_ends_in_code(b, q + 1),
            None => {
                if is_ident_start(b[q]) {
                    let e = ident_end(b, q + 1);
                    if e <= q || e > b.len() {
                        true
                    } else {
                        scan_ends_in_code(b, e)
                    }
                } else if is_digit(b[q]) {
                    let e = number_end(b, q + 1);
                    if e <= q || e > b.len() {
                        true
                    } else {
                        scan_ends_in_code(b, e)
                    }
                } else {
                    true
                }
            },
        }
    }
}

proof fn lemma_stops_in_code(b: Seq<u8>, p: int, mode: Trivia)
    requires
        0 <= p,
        skip_from(b, p, mode) < b.len(),
    ensures
        skip_ends_in_code(b, p, mode),
    decreases b.len() - p,
{
    if p < b.len() {
        match mode {
            Trivia::Code => {
                if crate::lexer::is_whitespace_byte(b[p]) {
                    lemma_stops_in_code(b, p + 1, Trivia::Code);
                } else if space_len(b, p) > 0 {
                    lemma_stops_in_code(b, p + space_len(b, p), Trivia::Code);
                } else if b[p] == 47 && p + 1 < b.len() && b[p + 1] == 47 {
                    lemma_stops_in_code(b, p + 2, Trivia::LineComment);
                } else if b[p] == 47 && p + 1 < b.len() && b[p + 1] == 42 {
                    lemma_stops_in_code(b, p + 2, Trivia::BlockComment);
                }
            },
            Trivia::LineComment => {
                if b[p] == 10 {
                    lemma_stops_in_code(b, p + 1, Trivia::Code);
                } else {
                    lemma_stops_in_code(b, p + 1, Trivia::LineComment);
                }
            },
            Trivia::BlockComment => {
                if b[p] == 42 && p + 1 < b.len() && b[p + 1] == 47 {
                    lemma_stops_in_code(b, p + 2, Trivia::Code);
                } else {
                    lemma_stops_in_code(b, p + 1, Trivia::BlockComment);
                }
            },
        }
    }
}

proof fn lemma_skip_extend(pre: Seq<u8>, x: Seq<u8>, p: int, mode: Trivia)
    requires
        0 <= p <= pre.len(),
        x.len() >= 1,
        x[0] == 64,
        skip_ends_in_code(pre, p, mode),
    ensures
        skip_from(pre + x, p, mode) == skip_from(pre, p, mode),
    decreases pre.len() - p,
{
    let b = pre + x;
    if p < pre.len() {
        assert(b[p] == pre[p]);
        if p + 1 < pre.len() {
            assert(b[p + 1] == pre[p + 1]);
        } else {
            assert(b[p + 1] == 64);
        }
        match mode {
            Trivia::Code => {
                lemma_space_len_extend(pre, x, p);
                if crate::lexer::is_whitespace_byte(pre[p]) {
                    lemma_skip_extend(pre, x, p + 1, Trivia::Code);
                } else if space_len(pre, p) > 0 {
                    lemma_skip_extend(pre, x, p + space_len(pre, p), Trivia::Code);
                } else if pre[p] == 47 && p + 1 < pre.len() && pre[p + 1] == 47 {
                    lemma_skip_extend(pre, x, p + 2, Trivia::LineComment);
                } else if pre[p] == 47 && p + 1 < pre.len() && pre[p + 1] == 42 {
                    lemma_skip_extend(pre, x, p + 2, Trivia::BlockComment);
                }
            },
            Trivia::LineComment => {
                if pre[p] == 10 {
                    lemma_skip_extend(pre, x, p + 1, Trivia::Code);
                } else {
                    lemma_skip_extend(pre, x, p + 1, Trivia::LineComment);
                }
            },
            Trivia::BlockComment => {
                if pre[p] == 42 && p + 1 < pre.len() && pre[p + 1] == 47 {
                    lemma_skip_extend(pre, x, p + 2, Trivia::Code);
                } else {
                    lemma_skip_extend(pre, x, p + 1, Trivia::BlockComment);
                }
            },
        }
    } else {
        assert(b[p] == 64);
        assert(space_len(b, p) == 0);
    }
}

proof fn lemma_ident_extend(pre: Seq<u8>, x: Seq<u8>, p: int)
    requires
        0 <= p <= pre.len(),
        x.len() >= 1,
        x[0] == 64,
    ensures
        ident_end(pre + x, p) == ident_end(pre, p),
    decreases pre.len() - p,
{
    let b = pre + x;
    if p < pre.len() {
        assert(b[p] == pre[p]);
        if is_ident_continue(pre[p]) {
            lemma_ident_extend(pre, x, p + 1);
        }
    } else {
        assert(b[p] == 64);
    }
}

proof fn lemma_number_extend(pre: Seq<u8>, x: Seq<u8>, p: int)
    requires
        0 <= p <= pre.len(),
        x.len() >= 1,
        x[0] == 64,
    ensures
        number_end(pre + x, p) == number_end(pre, p),
    decreases pre.len() - p,
{
    let b = pre + x;
    if p < pre.len() {
        assert(b[p] == pre[p]);
        if is_numeric_continue(pre[p]) {
            lemma_number_extend(pre, x, p + 1);
        }
    } else {
        assert(b[p] == 64);
    }
}

/// A character that follows an ASCII byte reads the same whatever follows the
/// text, as long as the whole is valid UTF-8 and the text ends before an `@`.
proof fn lemma_char_at_extend(pre: Seq<u8>, x: Seq<u8>, e: int)
    requires
        valid_utf8(pre + x),
        x.len() >= 1,
        x[0] == 64,
        0 < e < pre.len(),
        pre[e - 1] < 128,
    ensures
        char_at(pre + x, e) == char_at(pre, e),
{
    let b = pre + x;
    assert(b[e] == pre[e]);
    assert(b[e - 1] == pre[e - 1]);
    if pre[e] >= 128 {
        assert(b[pre.len() as int] == 64);
        lemma_boundary(b, pre.len() as int);
        valid_utf8_split(b, pre.len() as int);
        assert(b.subrange(0, pre.len() as int) =~= pre);
        lemma_boundary(pre, e);
        lemma_boundary(b, e);
        valid_utf8_split(pre, e);
        valid_utf8_split(b, e);
        let s = pre.subrange(e, pre.len() as int);
        let s2 = b.subrange(e, b.len() as int);
        assert(s.len() > 0);
        assert(valid_first_scalar(s));
        assert(s2[0] == s[0]);
        if s.len() > 1 {
            assert(s2[1] == s[1]);
        }
        if s.len() > 2 {
            assert(s2[2] == s[2]);
        }
        if s.len() > 3 {
            assert(s2[3] == s[3]);
        }
        assert(decode_first_scalar(s2) == decode_first_scalar(s));
        assert(decode_utf8(s)[0] == decode_first_scalar(s) as char);
        assert(decode_utf8(s2)[0] == decode_first_scalar(s2) as char);
    }
}

proof fn lemma_with_token_ok(t: SpanSpec, r: Result<(Seq<SpanSpec>, int), LexError>, ts: Seq<SpanSpec>, stop: int)
    requires
        with_token(t, r) == Ok::<(Seq<SpanSpec>, int), LexError>((ts, stop)),
    ensures
        ts.len() >= 1,
        ts[0] == t,
        r == Ok::<(Seq<SpanSpec>, int), LexError>((ts.drop_first(), stop)),
{
    if let Ok((us, s)) = r {
        assert((seq![t] + us).drop_first() =~= us);
    }
}

proof fn lemma_at_sign_after(pre: Seq<u8>, x: Seq<u8>, p: int, ts: Seq<SpanSpec>)
    requires
        0 <= p <= pre.len(),
        x.len() >= 1,
        x[0] == 64,
        valid_utf8(pre + x),
        lex_from(pre, p) == Ok::<(Seq<SpanSpec>, int), LexError>((ts, pre.len() as int)),
        scan_ends_in_code(pre, p),
    ensures
        lex_from(pre + x, p) == Err::<(Seq<SpanSpec>, int), LexError>(
            LexError::InvalidChar { c: '@', offset: pre.len() as usize },
        ),
    decreases pre.len() - p,
{
    let b = pre + x;
    assert((64u8 as char) == '@');
    lemma_skip_from_advances(pre, p, Trivia::Code);
    let q = skip_from(pre, p, Trivia::Code);
    if q >= pre.len() {
        lemma_skip_extend(pre, x, p, Trivia::Code);
        assert(b[pre.len() as int] == 64);
        return;
    }
    assert(pre[q] != 0);
    lemma_stops_in_code(pre, p, Trivia::Code);
    lemma_skip_extend(pre, x, p, Trivia::Code);
    assert(b[q] == pre[q]);
    let c = pre[q];
    match punctuation_kind(c) {
        Some(k) => {
            lemma_with_token_ok((k, q, q + 1), lex_from(pre, q + 1), ts, pre.len() as int);
            lemma_at_sign_after(pre, x, q + 1, ts.drop_first());
        },
        None => {
            if is_ident_start(c) {
                let e = ident_end(pre, q + 1);
                lemma_ident_run(pre, q + 1);
                lemma_ident_extend(pre, x, q + 1);
                lemma_with_token_ok((TokenType::Ident, q, e), lex_from(pre, e), ts, pre.len() as int);
                lemma_at_sign_after(pre, x, e, ts.drop_first());
            } else {
                let e = number_end(pre, q + 1);
                lemma_number_run(pre, q + 1);
                lemma_number_extend(pre, x, q + 1);
                if e < pre.len() {
                    assert(b[e] == pre[e]);
                    assert(pre[e - 1] < 128);
                    lemma_char_at_extend(pre, x, e);
                } else {
                    assert(b[e] == 64);
                }
                assert(invalid_after_number(b, e) == invalid_after_number(pre, e));
                lemma_with_token_ok((TokenType::Constant, q, e), lex_from(pre, e), ts, pre.len() as int);
                lemma_at_sign_after(pre, x, e, ts.drop_first());
            }
        },
    }
}

/// An `@` outside any comment is a lexical error naming `@` and its offset,
/// and lexing stops there, so no tokens come out. `pre` is the text before the
/// `@`: it lexes without error and without reaching a NUL byte, and does not
/// end inside a comment. Whatever follows the `@`, the whole lexes to that
/// error.
pub proof fn lemma_at_sign_outside_comment(pre: Seq<u8>, rest: Seq<u8>)
    requires
        valid_utf8(pre + (seq![64u8] + rest)),
        lex_from(pre, 0) matches Ok((_, stop)) && stop == pre.len(),
        scan_ends_in_code(pre, 0),
    ensures
        lex_from(pre + (seq![64u8] + rest), 0) == Err::<(Seq<SpanSpec>, int), LexError>(
            LexError::InvalidChar { c: '@', offset: pre.len() as usize },
        ),
{
    let ts = lex_from(pre, 0)->Ok_0.0;
    lemma_at_sign_after(pre, seq![64u8] + rest, 0, ts);
}

proof fn lemma_number_run_to_end(b: Seq<u8>, p: int)
    requires
        0 <= p <= b.len(),
        forall|i: int| p <= i < b.len() ==> is_digit(#[trigger] b[i]),
    ensures
        number_end(b, p) == b.len(),
    decreases b.len() - p,
{
    if p < b.len() {
        lemma_number_run_to_end(b, p + 1);
    }
}

/// A numeric literal alone, however long, lexes to one `Constant` token that
/// spans the whole text, and scanning stops at its end.
pub proof fn lemma_literal_is_one_constant(b: Seq<u8>)
    requires
        b.len() > 0,
        forall|i: int| 0 <= i < b.len() ==> is_digit(#[trigger] b[i]),
    ensures
        lex_from(b, 0) == Ok::<(Seq<SpanSpec>, int), LexError>(
            (seq![(TokenType::Constant, 0, b.len() as int)], b.len() as int),
        ),
{
    assert(is_digit(b[0]));
    assert(space_len(b, 0) == 0);
    assert(skip_from(b, 0, Trivia::Code) == 0);
    lemma_number_run_to_end(b, 1);
    assert(skip_from(b, b.len() as int, Trivia::Code) == b.len());
    assert(lex_from(b, b.len() as int) == Ok::<(Seq<SpanSpec>, int), LexError>((seq![], b.len() as int)));
    assert(seq![(TokenType::Constant, 0, b.len() as int)] + Seq::<SpanSpec>::empty() =~= seq![
        (TokenType::Constant, 0, b.len() as int),
    ]);
}

} // verus!
