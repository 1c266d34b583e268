//! How a source text falls into tokens: each token is what its own characters are,
//! and between tokens there is nothing but whitespace and comments.

use crate::diagnostic::Diag;
use crate::lexer;
use crate::text::Text;
use crate::token::{KTok, KToken};
use vstd::prelude::*;

verus! {

/// Whether the bytes between `i` and `j` are whitespace and comments.
pub open spec fn blank(b: Seq<u8>, i: int, j: int) -> bool
    decreases j - i,
{
    if i == j {
        true
    } else if !(0 <= i < j <= b.len()) {
        false
    } else if lexer::is_space(b[i]) {
        blank(b, i + 1, j)
    } else if b[i] == 0x2f && i + 1 < b.len() && b[i + 1] == 0x2f {
        i < lexer::comment_end(b, i) <= j && blank(b, lexer::comment_end(b, i), j)
    } else if b[i] == 0x2f && i + 1 < b.len() && b[i + 1] == 0x2a {
        match lexer::block_end(b, i + 2) {
            Some(k) => i < k <= j && blank(b, k, j),
            None => false,
        }
    } else {
        false
    }
}

proof fn lemma_blank_add(b: Seq<u8>, i: int, j: int, k: int)
    requires
        blank(b, i, j),
        blank(b, j, k),
        0 <= i <= j <= k <= b.len(),
    ensures
        blank(b, i, k),
    decreases j - i,
{
    if i < j {
        if lexer::is_space(b[i]) {
            lemma_blank_add(b, i + 1, j, k);
        } else if b[i + 1] == 0x2f {
            lemma_blank_add(b, lexer::comment_end(b, i), j, k);
        } else {
            lemma_blank_add(b, lexer::block_end(b, i + 2)->Some_0, j, k);
        }
    }
}

/// Whether the bytes `w` are exactly the token `t`.
pub open spec fn alone(w: Seq<u8>, t: KTok) -> bool {
    lexer::lex_from(w, 0, Seq::empty()) == Ok::<Seq<KToken>, Diag>(
        seq![
            lexer::tok_span(t, 0, w.len() as int),
            lexer::tok_span(KTok::Eof, w.len() as int, w.len() as int),
        ],
    )
}

/// Whether the bytes between `i` and `j` are ASCII characters.
pub open spec fn ascii(b: Seq<u8>, i: int, j: int) -> bool {
    forall|k: int| i <= k < j ==> #[trigger] b[k] < 0x80
}

proof fn lemma_word(b: Seq<u8>, w: Seq<u8>, i: int, k: int)
    requires
        0 <= i < k,
        k <= lexer::word_end(b, k),
        w == b.subrange(i, lexer::word_end(b, k)),
        lexer::word_end(b, k) <= b.len(),
    ensures
        lexer::word_end(w, k - i) == w.len(),
        ascii(b, k, lexer::word_end(b, k)),
    decreases b.len() - k,
{
    if k < b.len() && (lexer::is_gap(b[k]) || lexer::is_letter(b[k]) || lexer::is_digit(b[k])) {
        lemma_word_end(b, k + 1);
        assert(w[k - i] == b[k]);
        lemma_word(b, w, i, k + 1);
    }
}

proof fn lemma_word_end(b: Seq<u8>, i: int)
    requires
        0 <= i <= b.len(),
    ensures
        i <= lexer::word_end(b, i) <= b.len(),
    decreases b.len() - i,
{
    if i < b.len() && (lexer::is_gap(b[i]) || lexer::is_letter(b[i]) || lexer::is_digit(b[i])) {
        lemma_word_end(b, i + 1);
    }
}

proof fn lemma_numeral_end(b: Seq<u8>, i: int, hex: bool)
    requires
        0 <= i <= b.len(),
    ensures
        i <= lexer::numeral_end(b, i, hex) <= b.len(),
    decreases b.len() - i,
{
    if i < b.len() && (lexer::is_gap(b[i]) || lexer::is_digit(b[i]) || (hex && lexer::is_hex(
        b[i],
    ))) {
        lemma_numeral_end(b, i + 1, hex);
    }
}

proof fn lemma_digits(b: Seq<u8>, w: Seq<u8>, i: int, k: int, hex: bool)
    requires
        0 <= i <= k <= b.len(),
        w == b.subrange(i, lexer::numeral_end(b, k, hex)),
        k <= lexer::numeral_end(b, k, hex) <= b.len(),
    ensures
        lexer::numeral_end(w, k - i, hex) == w.len(),
        ascii(b, k, lexer::numeral_end(b, k, hex)),
    decreases b.len() - k,
{
    if k < b.len() && (lexer::is_gap(b[k]) || lexer::is_digit(b[k]) || (hex && lexer::is_hex(
        b[k],
    ))) {
        lemma_numeral_end(b, k + 1, hex);
        assert(w[k - i] == b[k]);
        lemma_digits(b, w, i, k + 1, hex);
    }
}

proof fn lemma_numeral(b: Seq<u8>, w: Seq<u8>, i: int, a: int, c: int, hex: bool)
    requires
        0 <= i <= a,
        c <= i + w.len() <= b.len(),
        w == b.subrange(i, i + w.len()),
    ensures
        lexer::numeral(w, a - i, c - i, hex) == lexer::numeral(b, a, c, hex),
    decreases c - a,
{
    if a < c {
        assert(w[c - 1 - i] == b[c - 1]);
        lemma_numeral(b, w, i, a, c - 1, hex);
    }
}

/// A number is a number on its own.
proof fn lemma_number(b: Seq<u8>, i: int)
    requires
        0 <= i < b.len() <= usize::MAX,
        lexer::is_digit(b[i]),
        lexer::number_at(b, i) is Ok,
    ensures
        ({
            let (v, j) = lexer::number_at(b, i)->Ok_0;
            &&& i < j <= b.len()
            &&& alone(b.subrange(i, j), KTok::Int(v))
            &&& ascii(b, i, j)
        }),
{
    let (v, j) = lexer::number_at(b, i)->Ok_0;
    let hex = b[i] == 0x30 && i + 1 < b.len() && (b[i + 1] == 0x78 || b[i + 1] == 0x58);
    let from = if hex {
        i + 2
    } else {
        i
    };
    lemma_numeral_end(b, from, hex);
    if !hex {
        lemma_numeral_end(b, i + 1, hex);
    }
    let w = b.subrange(i, j);
    assert(w[0] == b[i]);
    if w.len() > 1 {
        assert(w[1] == b[i + 1]);
    }
    lemma_digits(b, w, i, from, hex);
    lemma_numeral(b, w, i, from, j, hex);
    let k = choose|k: int| from <= k < j && !lexer::is_gap(#[trigger] b[k]);
    assert(w[k - i] == b[k]);
    assert(lexer::has_digit(w, from - i, j - i));
    assert(lexer::number_at(w, 0) == Ok::<(i128, int), Diag>((v, w.len() as int)));
    lemma_one(w, KTok::Int(v));
}

/// Behind a token that reaches the end there is only the end of input.
proof fn lemma_one(w: Seq<u8>, t: KTok)
    requires
        lexer::lex_from(w, 0, Seq::empty()) == lexer::lex_from(
            w,
            w.len() as int,
            Seq::<KToken>::empty().push(lexer::tok_span(t, 0, w.len() as int)),
        ),
    ensures
        alone(w, t),
{
    let none: Seq<KToken> = Seq::empty();
    let a = lexer::tok_span(t, 0, w.len() as int);
    let z = lexer::tok_span(KTok::Eof, w.len() as int, w.len() as int);
    assert(none.push(a).push(z) =~= seq![a, z]);
}

/// A word is a word on its own.
proof fn lemma_word_alone(b: Seq<u8>, i: int)
    requires
        0 <= i < b.len() <= usize::MAX,
        !lexer::is_space(b[i]),
        lexer::is_gap(b[i]) || lexer::is_letter(b[i]),
    ensures
        ({
            let j = lexer::word_end(b, i + 1);
            &&& i < j <= b.len()
            &&& alone(b.subrange(i, j), lexer::word_token(lexer::word_text(b, i, j)))
            &&& ascii(b, i, j)
        }),
{
    let j = lexer::word_end(b, i + 1);
    lemma_word_end(b, i + 1);
    let w = b.subrange(i, j);
    assert(w[0] == b[i]);
    lemma_word(b, w, i, i + 1);
    assert(lexer::word_text(w, 0, w.len() as int) =~= lexer::word_text(b, i, j));
    lemma_one(w, lexer::word_token(lexer::word_text(b, i, j)));
}

/// An operator is an operator on its own.
proof fn lemma_operator(b: Seq<u8>, i: int)
    requires
        0 <= i < b.len() <= usize::MAX,
        !lexer::is_space(b[i]),
        !lexer::is_digit(b[i]),
        !(lexer::is_gap(b[i]) || lexer::is_letter(b[i])),
        lexer::operator_at(b, i) is Some,
    ensures
        ({
            let (t, n) = lexer::operator_at(b, i)->Some_0;
            &&& 0 < n && i + n <= b.len()
            &&& alone(b.subrange(i, i + n), t)
            &&& ascii(b, i, i + n)
        }),
{
    let (t, n) = lexer::operator_at(b, i)->Some_0;
    let w = b.subrange(i, i + n);
    assert(w[0] == b[i]);
    if n > 1 {
        assert(w[1] == b[i + 1]);
    }
    if n > 2 {
        assert(w[2] == b[i + 2]);
    }
    assert(lexer::operator_at(w, 0) == Some((t, n)));
    lemma_one(w, t);
}

/// Whether a token of the bytes `b` is what its own bytes are.
pub open spec fn own(b: Seq<u8>, t: KToken) -> bool {
    &&& t.span.start < t.span.end <= b.len()
    &&& alone(b.subrange(t.span.start as int, t.span.end as int), t.tok)
    &&& ascii(b, t.span.start as int, t.span.end as int)
}

/// Where the tokens end.
pub open spec fn end_of(ts: Seq<KToken>) -> int {
    if ts.len() == 0 {
        0
    } else {
        ts.last().span.end as int
    }
}

/// Whether before each token, back to the one before it, everything is blank.
pub open spec fn gaps_blank(b: Seq<u8>, ts: Seq<KToken>) -> bool {
    forall|k: int|
        0 <= k < ts.len() ==> blank(
            b,
            end_of(ts.subrange(0, k)),
            (#[trigger] ts[k]).span.start as int,
        )
}

pub open spec fn all_own(b: Seq<u8>, ts: Seq<KToken>) -> bool {
    forall|k: int| 0 <= k < ts.len() ==> own(b, #[trigger] ts[k])
}

proof fn lemma_gaps_push(b: Seq<u8>, ts: Seq<KToken>, t: KToken)
    requires
        gaps_blank(b, ts),
        blank(b, end_of(ts), t.span.start as int),
    ensures
        gaps_blank(b, ts.push(t)),
{
    let next = ts.push(t);
    assert forall|k: int| 0 <= k < next.len() implies blank(
        b,
        end_of(next.subrange(0, k)),
        (#[trigger] next[k]).span.start as int,
    ) by {
        if k < ts.len() {
            assert(next.subrange(0, k) =~= ts.subrange(0, k));
            assert(next[k] == ts[k]);
        } else {
            assert(next.subrange(0, k) =~= ts);
        }
    }
}

proof fn lemma_own_push(b: Seq<u8>, ts: Seq<KToken>, t: KToken)
    requires
        all_own(b, ts),
        own(b, t),
    ensures
        all_own(b, ts.push(t)),
{
    let next = ts.push(t);
    assert forall|k: int| 0 <= k < next.len() implies own(b, #[trigger] next[k]) by {
        if k < ts.len() {
            assert(next[k] == ts[k]);
        }
    }
}

#[verifier::rlimit(60)]
proof fn lemma_pieces(b: Seq<u8>, i: int, acc: Seq<KToken>)
    requires
        b.len() <= usize::MAX,
        0 <= end_of(acc) <= i <= b.len(),
        all_own(b, acc),
        gaps_blank(b, acc),
        blank(b, end_of(acc), i),
        lexer::lex_from(b, i, acc) is Ok,
    ensures
        ({
            let ts = lexer::lex_from(b, i, acc)->Ok_0;
            &&& ts.len() > 0
            &&& ts.last() == lexer::tok_span(KTok::Eof, b.len() as int, b.len() as int)
            &&& all_own(b, ts.drop_last())
            &&& gaps_blank(b, ts)
        }),
    decreases b.len() - i,
{
    if i >= b.len() {
        let z = lexer::tok_span(KTok::Eof, b.len() as int, b.len() as int);
        lemma_gaps_push(b, acc, z);
        assert(acc.push(z).drop_last() =~= acc);
    } else if lexer::is_space(b[i]) {
        assert(blank(b, i + 1, i + 1));
        assert(blank(b, i, i + 1));
        lemma_blank_add(b, end_of(acc), i, i + 1);
        lemma_pieces(b, i + 1, acc);
    } else if b[i] == 0x2f && i + 1 < b.len() && b[i + 1] == 0x2f {
        let j = lexer::comment_end(b, i);
        assert(blank(b, j, j));
        assert(blank(b, i, j));
        lemma_blank_add(b, end_of(acc), i, j);
        lemma_pieces(b, j, acc);
    } else if b[i] == 0x2f && i + 1 < b.len() && b[i + 1] == 0x2a {
        let j = lexer::block_end(b, i + 2)->Some_0;
        assert(blank(b, j, j));
        assert(blank(b, i, j));
        lemma_blank_add(b, end_of(acc), i, j);
        lemma_pieces(b, j, acc);
    } else {
        let (t, j) = if lexer::is_digit(b[i]) {
            lemma_number(b, i);
            let (v, j) = lexer::number_at(b, i)->Ok_0;
            (KTok::Int(v), j)
        } else if lexer::is_gap(b[i]) || lexer::is_letter(b[i]) {
            lemma_word_alone(b, i);
            let j = lexer::word_end(b, i + 1);
            (lexer::word_token(lexer::word_text(b, i, j)), j)
        } else {
            lemma_operator(b, i);
            let (t, n) = lexer::operator_at(b, i)->Some_0;
            (t, i + n)
        };
        let k = lexer::tok_span(t, i, j);
        lemma_own_push(b, acc, k);
        lemma_gaps_push(b, acc, k);
        assert(acc.push(k).last() == k);
        assert(blank(b, j, j));
        lemma_pieces(b, j, acc.push(k));
    }
}

/// The kinds of tokens.
pub open spec fn kinds(ts: Seq<KToken>) -> Seq<KTok> {
    ts.map_values(|t: KToken| t.tok)
}

/// Whether the characters of a token of `b`, as a text of their own, are that token
/// and no other.
pub open spec fn sole(b: Seq<u8>, t: KToken) -> bool {
    let w = lexer::word_text(b, t.span.start as int, t.span.end as int);
    &&& t.span.start < t.span.end <= b.len()
    &&& vstd::utf8::encode_utf8(w) == b.subrange(t.span.start as int, t.span.end as int)
    &&& lexer::tokens_of_text(w) matches Ok(us) && kinds(us) == seq![t.tok, KTok::Eof]
}

proof fn lemma_sole(b: Seq<u8>, t: KToken)
    requires
        own(b, t),
    ensures
        sole(b, t),
{
    let i = t.span.start as int;
    let j = t.span.end as int;
    lemma_ascii_text(b, i, j);
    let us = lexer::lex_from(b.subrange(i, j), 0, Seq::empty())->Ok_0;
    assert(kinds(us) =~= seq![t.tok, KTok::Eof]);
}

/// A text falls into its tokens: the end of input stands at its end; every other token
/// is, of its own characters alone, that one token; and before each token, back to the
/// end of the one before it, there is nothing but whitespace and comments.
pub proof fn law_text_falls_into_tokens(src: Text)
    requires
        vstd::utf8::encode_utf8(src).len() <= usize::MAX,
    ensures
        lexer::tokens_of_text(src) matches Ok(ts) ==> {
            let b = vstd::utf8::encode_utf8(src);
            &&& ts.len() > 0
            &&& ts.last() == lexer::tok_span(KTok::Eof, b.len() as int, b.len() as int)
            &&& gaps_blank(b, ts)
            &&& forall|k: int| 0 <= k < ts.len() - 1 ==> sole(b, #[trigger] ts[k])
        },
{
    let b = vstd::utf8::encode_utf8(src);
    let r = lexer::lex_from(b, 0, Seq::empty());
    if r is Ok {
        let ts = r->Ok_0;
        lemma_pieces(b, 0, Seq::empty());
        assert forall|k: int| 0 <= k < ts.len() - 1 implies sole(b, #[trigger] ts[k]) by {
            assert(ts.drop_last()[k] == ts[k]);
            lemma_sole(b, ts[k]);
        }
    }
}

/// ASCII characters are encoded as themselves.
proof fn lemma_ascii_text(b: Seq<u8>, i: int, j: int)
    requires
        0 <= i <= j <= b.len(),
        ascii(b, i, j),
    ensures
        vstd::utf8::encode_utf8(lexer::word_text(b, i, j)) == b.subrange(i, j),
{
    let w = lexer::word_text(b, i, j);
    assert(vstd::utf8::is_ascii_chars(w)) by {
        assert forall|k: int| 0 <= k < w.len() implies '\0' <= #[trigger] w[k] <= '\u{7f}' by {
            assert(b[i + k] < 0x80);
        }
    }
    vstd::utf8::is_ascii_chars_encode_utf8(w);
    assert(vstd::utf8::encode_utf8(w) =~= b.subrange(i, j));
}

} // verus!
