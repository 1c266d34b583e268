//! # Lexer
//!
//! Converts a source string into a flat vector of [`Token`]s: literals,
//! identifiers, keywords and operators. Errors (an unterminated comment, a stray
//! character, an integer literal out of range) are returned as a structured
//! [`Diagnostic`].

use crate::diagnostic::{Diag, Diagnostic, Stage};
use crate::span::Span;
use crate::text::{self, cat3, str_eq, Text};
use crate::token::{self, KTok, KToken};
use vstd::prelude::*;

pub use crate::token::{Tok, Token};

verus! {

// ---- what the tokens of a source text are -------------------------------

pub open spec fn is_space(c: u8) -> bool {
    c == 0x20 || c == 0x09 || c == 0x0a || c == 0x0c || c == 0x0d
}

pub open spec fn is_digit(c: u8) -> bool {
    0x30 <= c <= 0x39
}

pub open spec fn is_letter(c: u8) -> bool {
    (0x41 <= c <= 0x5a) || (0x61 <= c <= 0x7a)
}

pub open spec fn is_hex(c: u8) -> bool {
    is_digit(c) || (0x41 <= c <= 0x46) || (0x61 <= c <= 0x66)
}

/// The underscore.
pub open spec fn is_gap(c: u8) -> bool {
    c == 0x5f
}

pub open spec fn digit_of(c: u8) -> nat {
    if is_digit(c) {
        (c - 0x30) as nat
    } else if c >= 0x61 {
        (c - 0x57) as nat
    } else {
        (c - 0x37) as nat
    }
}

/// The end of the line comment that `i` lies in.
pub open spec fn comment_end(b: Seq<u8>, i: int) -> int
    decreases b.len() - i,
{
    if i < 0 || i >= b.len() || b[i] == 0x0a {
        i
    } else {
        comment_end(b, i + 1)
    }
}

/// The position behind the first `*/` at or after `i`.
pub open spec fn block_end(b: Seq<u8>, i: int) -> Option<int>
    decreases b.len() - i,
{
    if i < 0 || i + 1 >= b.len() {
        None
    } else if b[i] == 0x2a && b[i + 1] == 0x2f {
        Some(i + 2)
    } else {
        block_end(b, i + 1)
    }
}

/// The end of the identifier whose characters continue at `i`.
pub open spec fn word_end(b: Seq<u8>, i: int) -> int
    decreases b.len() - i,
{
    if 0 <= i < b.len() && (is_gap(b[i]) || is_letter(b[i]) || is_digit(b[i])) {
        word_end(b, i + 1)
    } else {
        i
    }
}

/// The end of the run of digits and underscores that continues at `i`.
pub open spec fn numeral_end(b: Seq<u8>, i: int, hex: bool) -> int
    decreases b.len() - i,
{
    if 0 <= i < b.len() && (is_gap(b[i]) || is_digit(b[i]) || (hex && is_hex(b[i]))) {
        numeral_end(b, i + 1, hex)
    } else {
        i
    }
}

/// The number that the digits between `i` and `j` write; underscores do not
/// count.
pub open spec fn numeral(b: Seq<u8>, i: int, j: int, hex: bool) -> nat
    decreases j - i,
{
    if i >= j {
        0
    } else if is_gap(b[j - 1]) {
        numeral(b, i, j - 1, hex)
    } else {
        numeral(b, i, j - 1, hex) * (if hex {
            16nat
        } else {
            10nat
        }) + digit_of(b[j - 1])
    }
}

/// Whether there is a digit between `i` and `j`.
pub open spec fn has_digit(b: Seq<u8>, i: int, j: int) -> bool {
    exists|k: int| i <= k < j && !is_gap(#[trigger] b[k])
}

pub open spec fn lex_fail<T>(message: Text, start: int, end: int) -> Result<T, Diag> {
    Err(Diag { stage: Stage::Lex, message, span: Span::make(start, end) })
}

/// The integer literal that starts at `i`, and where it ends.
pub open spec fn number_at(b: Seq<u8>, i: int) -> Result<(i128, int), Diag> {
    let hex = b[i] == 0x30 && i + 1 < b.len() && (b[i + 1] == 0x78 || b[i + 1] == 0x58);
    let from = if hex {
        i + 2
    } else {
        i
    };
    let j = numeral_end(b, from, hex);
    if hex && j == from {
        lex_fail("hex literal has no digits"@, i, j)
    } else if !has_digit(b, from, j) || numeral(b, from, j, hex) > i128::MAX {
        lex_fail("integer literal out of range"@, i, j)
    } else {
        Ok((numeral(b, from, j, hex) as i128, j))
    }
}

/// The characters between `i` and `j`.
pub open spec fn word_text(b: Seq<u8>, i: int, j: int) -> Text {
    Seq::new((j - i) as nat, |k: int| b[i + k] as char)
}

/// The keyword that `w` spells, or an identifier.
pub open spec fn word_token(w: Text) -> KTok {
    if w == "fn"@ {
        KTok::Fn
    } else if w == "struct"@ {
        KTok::Struct
    } else if w == "enum"@ {
        KTok::Enum
    } else if w == "let"@ {
        KTok::Let
    } else if w == "mut"@ {
        KTok::Mut
    } else if w == "if"@ {
        KTok::If
    } else if w == "else"@ {
        KTok::Else
    } else if w == "while"@ {
        KTok::While
    } else if w == "for"@ {
        KTok::For
    } else if w == "in"@ {
        KTok::In
    } else if w == "match"@ {
        KTok::Match
    } else if w == "return"@ {
        KTok::Return
    } else if w == "mod"@ {
        KTok::Mod
    } else if w == "use"@ {
        KTok::Use
    } else if w == "const"@ {
        KTok::Const
    } else if w == "true"@ {
        KTok::True
    } else if w == "false"@ {
        KTok::False
    } else if w == "bool"@ {
        KTok::Bool
    } else if w == "bit"@ {
        KTok::Bit
    } else if w == "i8"@ {
        KTok::IntTy(true, 8)
    } else if w == "i16"@ {
        KTok::IntTy(true, 16)
    } else if w == "i32"@ {
        KTok::IntTy(true, 32)
    } else if w == "i64"@ {
        KTok::IntTy(true, 64)
    } else if w == "u8"@ {
        KTok::IntTy(false, 8)
    } else if w == "u16"@ {
        KTok::IntTy(false, 16)
    } else if w == "u32"@ {
        KTok::IntTy(false, 32)
    } else if w == "u64"@ {
        KTok::IntTy(false, 64)
    } else {
        KTok::Ident(w)
    }
}

/// The operator that the characters `c` and `d` form together.
pub open spec fn pair_token(c: char, d: char) -> Option<KTok> {
    if c == '-' && d == '>' {
        Some(KTok::Arrow)
    } else if c == '=' && d == '>' {
        Some(KTok::FatArrow)
    } else if c == '=' && d == '=' {
        Some(KTok::EqEq)
    } else if c == '!' && d == '=' {
        Some(KTok::Ne)
    } else if c == '<' && d == '=' {
        Some(KTok::Le)
    } else if c == '>' && d == '=' {
        Some(KTok::Ge)
    } else if c == '&' && d == '&' {
        Some(KTok::AndAnd)
    } else if c == '|' && d == '|' {
        Some(KTok::OrOr)
    } else if c == '<' && d == '<' {
        Some(KTok::Shl)
    } else if c == '>' && d == '>' {
        Some(KTok::Shr)
    } else if c == '.' && d == '.' {
        Some(KTok::DotDot)
    } else if c == ':' && d == ':' {
        Some(KTok::ColonColon)
    } else {
        None
    }
}

/// The operator or punctuation that `c` is on its own.
pub open spec fn single_token(c: char) -> Option<KTok> {
    match c {
        '(' => Some(KTok::LParen),
        ')' => Some(KTok::RParen),
        '{' => Some(KTok::LBrace),
        '}' => Some(KTok::RBrace),
        '[' => Some(KTok::LBracket),
        ']' => Some(KTok::RBracket),
        ',' => Some(KTok::Comma),
        ';' => Some(KTok::Semi),
        ':' => Some(KTok::Colon),
        '.' => Some(KTok::Dot),
        '=' => Some(KTok::Eq),
        '<' => Some(KTok::Lt),
        '>' => Some(KTok::Gt),
        '+' => Some(KTok::Plus),
        '-' => Some(KTok::Minus),
        '*' => Some(KTok::Star),
        '/' => Some(KTok::Slash),
        '%' => Some(KTok::Percent),
        '&' => Some(KTok::Amp),
        '|' => Some(KTok::Pipe),
        '^' => Some(KTok::Caret),
        '!' => Some(KTok::Bang),
        _ => None,
    }
}

/// The operator or punctuation at `i` and its length. The longest one wins.
pub open spec fn operator_at(b: Seq<u8>, i: int) -> Option<(KTok, int)> {
    if i + 2 < b.len() && b[i] as char == '.' && b[i + 1] as char == '.' && b[i + 2] as char == '=' {
        Some((KTok::DotDotEq, 3))
    } else if i + 1 < b.len() && pair_token(b[i] as char, b[i + 1] as char) is Some {
        Some((pair_token(b[i] as char, b[i + 1] as char)->0, 2))
    } else {
        match single_token(b[i] as char) {
            Some(t) => Some((t, 1)),
            None => None,
        }
    }
}

pub open spec fn tok_span(tok: KTok, start: int, end: int) -> KToken {
    KToken { tok, span: Span::make(start, end) }
}

/// The tokens `acc`, those of `b` from position `i` on, and the end of input.
pub open spec fn lex_from(b: Seq<u8>, i: int, acc: Seq<KToken>) -> Result<Seq<KToken>, Diag>
    decreases b.len() - i,
{
    if i < 0 || i >= b.len() {
        Ok(acc.push(tok_span(KTok::Eof, b.len() as int, b.len() as int)))
    } else if is_space(b[i]) {
        lex_from(b, i + 1, acc)
    } else if b[i] == 0x2f && i + 1 < b.len() && b[i + 1] == 0x2f {
        let j = comment_end(b, i);
        if i < j <= b.len() {
            lex_from(b, j, acc)
        } else {
            lex_fail("no progress"@, i, i)
        }
    } else if b[i] == 0x2f && i + 1 < b.len() && b[i + 1] == 0x2a {
        match block_end(b, i + 2) {
            Some(j) => if i < j <= b.len() {
                lex_from(b, j, acc)
            } else {
                lex_fail("no progress"@, i, i)
            },
            None => lex_fail("unterminated block comment"@, i, b.len() as int),
        }
    } else if is_digit(b[i]) {
        match number_at(b, i) {
            Err(d) => Err(d),
            Ok((v, j)) => if i < j <= b.len() {
                lex_from(b, j, acc.push(tok_span(KTok::Int(v), i, j)))
            } else {
                lex_fail("no progress"@, i, i)
            },
        }
    } else if is_gap(b[i]) || is_letter(b[i]) {
        let j = word_end(b, i + 1);
        if i < j <= b.len() {
            lex_from(b, j, acc.push(tok_span(word_token(word_text(b, i, j)), i, j)))
        } else {
            lex_fail("no progress"@, i, i)
        }
    } else {
        match operator_at(b, i) {
            None => lex_fail("unexpected character '"@ + seq![b[i] as char] + "'"@, i, i + 1),
            Some((t, n)) => if n > 0 {
                lex_from(b, i + n, acc.push(tok_span(t, i, i + n)))
            } else {
                lex_fail("no progress"@, i, i)
            },
        }
    }
}

/// The tokens of a source text.
pub open spec fn tokens_of_text(src: Text) -> Result<Seq<KToken>, Diag> {
    lex_from(vstd::utf8::encode_utf8(src), 0, Seq::empty())
}

/// What every result of the lexer has: the tokens end with the end of input and
/// hold it nowhere else, and spans lie in the text, in order.
pub open spec fn well_lexed(ts: Seq<KToken>, n: nat) -> bool {
    &&& ts.len() > 0
    &&& ts.last() == tok_span(KTok::Eof, n as int, n as int)
    &&& forall|k: int| 0 <= k < ts.len() - 1 ==> !((#[trigger] ts[k]).tok is Eof)
    &&& spans_ordered(ts, n)
}

pub open spec fn spans_ordered(ts: Seq<KToken>, n: nat) -> bool {
    &&& forall|k: int|
        0 <= k < ts.len() ==> (#[trigger] ts[k]).span.start <= ts[k].span.end && ts[k].span.end <= n
    &&& forall|j: int, k: int|
        0 <= j < k < ts.len() ==> (#[trigger] ts[j]).span.end <= (#[trigger] ts[k]).span.start
}

// ---- the lexer ----------------------------------------------------------

fn lex_error(message: String, start: usize, end: usize) -> (r: Diagnostic)
    ensures
        Err::<(), Diag>(r@) == lex_fail::<()>(message@, start as int, end as int),
        r@ == (Diag { stage: Stage::Lex, message: message@, span: Span { start, end } }),
{
    Diagnostic::new(Stage::Lex, message, Span::new(start, end))
}

fn lex_number(b: &[u8], i: usize) -> (r: Result<(i128, usize), Diagnostic>)
    requires
        i < b.len(),
        is_digit(b[i as int]),
    ensures
        match r {
            Ok((v, j)) => number_at(b@, i as int) == Ok::<(i128, int), Diag>((v, j as int)) && i < j
                <= b.len(),
            Err(d) => number_at(b@, i as int) == Err::<(i128, int), Diag>(d@),
        },
{
    let hex = b[i] == 0x30 && i + 1 < b.len() && (b[i + 1] == 0x78 || b[i + 1] == 0x58);
    let from: usize = if hex {
        i + 2
    } else {
        i
    };
    let mut j: usize = from;
    let mut value: i128 = 0;
    let mut over = false;
    let mut any = false;
    while j < b.len() && (b[j] == 0x5f || (0x30 <= b[j] && b[j] <= 0x39) || (hex && ((0x41 <= b[j]
        && b[j] <= 0x46) || (0x61 <= b[j] && b[j] <= 0x66))))
        invariant
            from <= j <= b.len(),
            i <= from,
            numeral_end(b@, from as int, hex) == numeral_end(b@, j as int, hex),
            over ==> numeral(b@, from as int, j as int, hex) > i128::MAX,
            !over ==> value == numeral(b@, from as int, j as int, hex),
            value >= 0,
            any == has_digit(b@, from as int, j as int),
            forall|k: int|
                from <= k < j ==> is_gap(#[trigger] b@[k]) || is_digit(b@[k]) || (hex && is_hex(
                    b@[k],
                )),
        decreases b.len() - j,
    {
        let c = b[j];
        assert(b@[j as int] == c);
        if c != 0x5f {
            let d: i128 = if c <= 0x39 {
                (c - 0x30) as i128
            } else if c >= 0x61 {
                (c - 0x57) as i128
            } else {
                (c - 0x37) as i128
            };
            let radix: i128 = if hex {
                16
            } else {
                10
            };
            if !over {
                if value > (i128::MAX - d) / radix {
                    over = true;
                } else {
                    value = value * radix + d;
                }
            }
            assert(!is_gap(b@[j as int]));
            any = true;
        }
        j += 1;
        assert(has_digit(b@, from as int, j as int) == any) by {
            if c == 0x5f && has_digit(b@, from as int, j as int) {
                let k = choose|k: int| from <= k < j && !is_gap(#[trigger] b@[k]);
                assert(k < j - 1);
            }
        }
    }
    assert(numeral_end(b@, from as int, hex) == j);
    if hex && j == from {
        return Err(lex_error("hex literal has no digits".to_string(), i, j));
    }
    if !any || over {
        return Err(lex_error("integer literal out of range".to_string(), i, j));
    }
    assert(j > i) by {
        if !hex {
            assert(numeral_end(b@, i as int, hex) == numeral_end(b@, i + 1, hex));
            lemma_numeral_end(b@, i + 1, hex);
        }
    }
    Ok((value, j))
}

proof fn lemma_numeral_end(b: Seq<u8>, i: int, hex: bool)
    ensures
        numeral_end(b, i, hex) >= i,
    decreases b.len() - i,
{
    if 0 <= i < b.len() && (is_gap(b[i]) || is_digit(b[i]) || (hex && is_hex(b[i]))) {
        lemma_numeral_end(b, i + 1, hex);
    }
}

fn keyword_or_ident(word: String) -> (r: Tok)
    ensures
        r@ == word_token(word@),
{
    reveal(Tok::model);
    let w = word.as_str();
    if str_eq(w, "fn") {
        Tok::Fn
    } else if str_eq(w, "struct") {
        Tok::Struct
    } else if str_eq(w, "enum") {
        Tok::Enum
    } else if str_eq(w, "let") {
        Tok::Let
    } else if str_eq(w, "mut") {
        Tok::Mut
    } else if str_eq(w, "if") {
        Tok::If
    } else if str_eq(w, "else") {
        Tok::Else
    } else if str_eq(w, "while") {
        Tok::While
    } else if str_eq(w, "for") {
        Tok::For
    } else if str_eq(w, "in") {
        Tok::In
    } else if str_eq(w, "match") {
        Tok::Match
    } else if str_eq(w, "return") {
        Tok::Return
    } else if str_eq(w, "mod") {
        Tok::Mod
    } else if str_eq(w, "use") {
        Tok::Use
    } else if str_eq(w, "const") {
        Tok::Const
    } else if str_eq(w, "true") {
        Tok::True
    } else if str_eq(w, "false") {
        Tok::False
    } else if str_eq(w, "bool") {
        Tok::Bool
    } else if str_eq(w, "bit") {
        Tok::Bit
    } else if str_eq(w, "i8") {
        Tok::IntTy(true, 8)
    } else if str_eq(w, "i16") {
        Tok::IntTy(true, 16)
    } else if str_eq(w, "i32") {
        Tok::IntTy(true, 32)
    } else if str_eq(w, "i64") {
        Tok::IntTy(true, 64)
    } else if str_eq(w, "u8") {
        Tok::IntTy(false, 8)
    } else if str_eq(w, "u16") {
        Tok::IntTy(false, 16)
    } else if str_eq(w, "u32") {
        Tok::IntTy(false, 32)
    } else if str_eq(w, "u64") {
        Tok::IntTy(false, 64)
    } else {
        Tok::Ident(word)
    }
}

fn pair_operator(c: char, d: char) -> (r: Option<Tok>)
    ensures
        text::option_view(r) == pair_token(c, d),
{
    reveal(Tok::model);
    if c == '-' && d == '>' {
        Some(Tok::Arrow)
    } else if c == '=' && d == '>' {
        Some(Tok::FatArrow)
    } else if c == '=' && d == '=' {
        Some(Tok::EqEq)
    } else if c == '!' && d == '=' {
        Some(Tok::Ne)
    } else if c == '<' && d == '=' {
        Some(Tok::Le)
    } else if c == '>' && d == '=' {
        Some(Tok::Ge)
    } else if c == '&' && d == '&' {
        Some(Tok::AndAnd)
    } else if c == '|' && d == '|' {
        Some(Tok::OrOr)
    } else if c == '<' && d == '<' {
        Some(Tok::Shl)
    } else if c == '>' && d == '>' {
        Some(Tok::Shr)
    } else if c == '.' && d == '.' {
        Some(Tok::DotDot)
    } else if c == ':' && d == ':' {
        Some(Tok::ColonColon)
    } else {
        None
    }
}

fn single_operator(c: char) -> (r: Option<Tok>)
    ensures
        text::option_view(r) == single_token(c),
{
    reveal(Tok::model);
    match c {
        '(' => Some(Tok::LParen),
        ')' => Some(Tok::RParen),
        '{' => Some(Tok::LBrace),
        '}' => Some(Tok::RBrace),
        '[' => Some(Tok::LBracket),
        ']' => Some(Tok::RBracket),
        ',' => Some(Tok::Comma),
        ';' => Some(Tok::Semi),
        ':' => Some(Tok::Colon),
        '.' => Some(Tok::Dot),
        '=' => Some(Tok::Eq),
        '<' => Some(Tok::Lt),
        '>' => Some(Tok::Gt),
        '+' => Some(Tok::Plus),
        '-' => Some(Tok::Minus),
        '*' => Some(Tok::Star),
        '/' => Some(Tok::Slash),
        '%' => Some(Tok::Percent),
        '&' => Some(Tok::Amp),
        '|' => Some(Tok::Pipe),
        '^' => Some(Tok::Caret),
        '!' => Some(Tok::Bang),
        _ => None,
    }
}

/// Match a single operator/punctuation token at position `i`, returning the
/// token and how many bytes it takes. Longest match wins.
fn match_operator(b: &[u8], i: usize) -> (r: Option<(Tok, usize)>)
    requires
        i < b.len(),
    ensures
        match r {
            Some((t, n)) => operator_at(b@, i as int) == Some((t@, n as int)) && 0 < n && i + n
                <= b.len() && !(t@ is Eof),
            None => operator_at(b@, i as int) is None,
        },
{
    proof {
        token::lemma_plain_tokens();
    }
    if b.len() - i > 2 && b[i] as char == '.' && b[i + 1] as char == '.' && b[i + 2] as char == '=' {
        return Some((Tok::DotDotEq, 3));
    }
    if b.len() - i > 1 {
        if let Some(t) = pair_operator(b[i] as char, b[i + 1] as char) {
            return Some((t, 2));
        }
    }
    match single_operator(b[i] as char) {
        Some(t) => Some((t, 1)),
        None => None,
    }
}

fn byte_text(b: &[u8], i: usize, j: usize) -> (r: String)
    requires
        i <= j <= b.len(),
    ensures
        r@ == word_text(b@, i as int, j as int),
{
    let mut out = String::new();
    let mut k: usize = i;
    while k < j
        invariant
            i <= k <= j <= b.len(),
            out@ == word_text(b@, i as int, k as int),
        decreases j - k,
    {
        out.push(b[k] as char);
        k += 1;
        assert(out@ =~= word_text(b@, i as int, k as int));
    }
    assert(out@ =~= word_text(b@, i as int, j as int));
    out
}

proof fn lemma_next_token(ts: Seq<KToken>, t: KToken, i: int, end: int, n: nat)
    requires
        0 <= i <= end <= n <= usize::MAX,
        t.span == Span::make(i, end),
        spans_ordered(ts, n),
        forall|k: int| 0 <= k < ts.len() ==> (#[trigger] ts[k]).span.end <= i,
    ensures
        spans_ordered(ts.push(t), n),
        forall|k: int| 0 <= k < ts.len() + 1 ==> (#[trigger] ts.push(t)[k]).span.end <= end,
{
    let r = ts.push(t);
    assert forall|j: int, k: int| 0 <= j < k < r.len() implies (#[trigger] r[j]).span.end <= (
    #[trigger] r[k]).span.start by {
        assert(r[j] == ts[j]);
        if k < ts.len() {
            assert(r[k] == ts[k]);
        }
    }
    assert forall|k: int| 0 <= k < r.len() implies (#[trigger] r[k]).span.end <= end && r[k].span.start
        <= r[k].span.end && r[k].span.end <= n by {
        if k < ts.len() {
            assert(r[k] == ts[k]);
        }
    }
}

/// Lex `src` into tokens, terminated by a single [`Tok::Eof`].
#[verifier::rlimit(40)]
pub fn lex(src: &str) -> (r: Result<Vec<Token>, Diagnostic>)
    ensures
        match r {
            Ok(ts) => tokens_of_text(src@) == Ok::<Seq<KToken>, Diag>(token::tokens_of(ts@))
                && well_lexed(token::tokens_of(ts@), vstd::utf8::encode_utf8(src@).len()),
            Err(d) => tokens_of_text(src@) == Err::<Seq<KToken>, Diag>(d@),
        },
{
    broadcast use token::group_tokens;

    let b = src.as_bytes();
    let ghost n = b.len() as nat;
    let mut i: usize = 0;
    let mut out: Vec<Token> = Vec::new();
    assert(token::tokens_of(out@) =~= Seq::<KToken>::empty());
    while i < b.len()
        invariant
            i <= b.len(),
            n == b.len(),
            b@ == vstd::utf8::encode_utf8(src@),
            tokens_of_text(src@) == lex_from(b@, i as int, token::tokens_of(out@)),
            spans_ordered(token::tokens_of(out@), n),
            forall|k: int| 0 <= k < out.len() ==> (#[trigger] token::tokens_of(out@)[k]).span.end <= i,
            forall|k: int|
                0 <= k < out.len() ==> !((#[trigger] token::tokens_of(out@)[k]).tok is Eof),
        decreases b.len() - i,
    {
        let c = b[i];
        let ghost ts = token::tokens_of(out@);
        if c == 0x20 || c == 0x09 || c == 0x0a || c == 0x0c || c == 0x0d {
            i += 1;
            continue;
        }
        if c == 0x2f && b.len() - i > 1 && b[i + 1] == 0x2f {
            let mut j: usize = i;
            while j < b.len() && b[j] != 0x0a
                invariant
                    i <= j <= b.len(),
                    comment_end(b@, i as int) == comment_end(b@, j as int),
                decreases b.len() - j,
            {
                j += 1;
            }
            assert(comment_end(b@, i as int) == j);
            assert(j > i) by {
                assert(comment_end(b@, i as int) == comment_end(b@, i + 1));
                lemma_comment_end(b@, i + 1);
            }
            i = j;
            continue;
        }
        if c == 0x2f && b.len() - i > 1 && b[i + 1] == 0x2a {
            let start = i;
            let mut j: usize = i + 2;
            let mut closed = false;
            while !closed && b.len() - j > 1
                invariant
                    start + 2 <= j <= b.len(),
                    if closed {
                        block_end(b@, start + 2) == Some(j as int)
                    } else {
                        block_end(b@, start + 2) == block_end(b@, j as int)
                    },
                decreases b.len() - j,
            {
                if b[j] == 0x2a && b[j + 1] == 0x2f {
                    j += 2;
                    closed = true;
                } else {
                    j += 1;
                }
            }
            if !closed {
                return Err(lex_error("unterminated block comment".to_string(), start, b.len()));
            }
            i = j;
            continue;
        }
        if 0x30 <= c && c <= 0x39 {
            let (value, end) = lex_number(b, i)?;
            out.push(Token { tok: Tok::Int(value), span: Span::new(i, end) });
            proof {
                let t = tok_span(KTok::Int(value), i as int, end as int);
                reveal(Tok::model);
                assert(token::tokens_of(out@) =~= ts.push(t));
                lemma_next_token(ts, t, i as int, end as int, n);
            }
            i = end;
            continue;
        }
        if c == 0x5f || (0x41 <= c && c <= 0x5a) || (0x61 <= c && c <= 0x7a) {
            let mut j: usize = i + 1;
            while j < b.len() && (b[j] == 0x5f || (0x41 <= b[j] && b[j] <= 0x5a) || (0x61 <= b[j]
                && b[j] <= 0x7a) || (0x30 <= b[j] && b[j] <= 0x39))
                invariant
                    i < j <= b.len(),
                    word_end(b@, i + 1) == word_end(b@, j as int),
                decreases b.len() - j,
            {
                j += 1;
            }
            assert(word_end(b@, i + 1) == j);
            let word = byte_text(b, i, j);
            let tok = keyword_or_ident(word);
            out.push(Token { tok, span: Span::new(i, j) });
            proof {
                let t = tok_span(word_token(word_text(b@, i as int, j as int)), i as int, j as int);
                assert(token::tokens_of(out@) =~= ts.push(t));
                lemma_next_token(ts, t, i as int, j as int, n);
                assert(!(t.tok is Eof));
            }
            i = j;
            continue;
        }
        match match_operator(b, i) {
            None => {
                let one = byte_text(b, i, i + 1);
                assert(one@ =~= seq![b@[i as int] as char]);
                let msg = cat3("unexpected character '", one.as_str(), "'");
                return Err(lex_error(msg, i, i + 1));
            },
            Some((tok, len)) => {
                out.push(Token { tok, span: Span::new(i, i + len) });
                proof {
                    let t = tok_span(tok@, i as int, i + len);
                    assert(token::tokens_of(out@) =~= ts.push(t));
                    lemma_next_token(ts, t, i as int, i + len, n);
                }
                i += len;
            },
        }
    }
    let ghost ts = token::tokens_of(out@);
    out.push(Token { tok: Tok::Eof, span: Span::new(b.len(), b.len()) });
    proof {
        let t = tok_span(KTok::Eof, n as int, n as int);
        token::lemma_plain_tokens();
        assert(token::tokens_of(out@) =~= ts.push(t));
        lemma_next_token(ts, t, n as int, n as int, n);
    }
    Ok(out)
}

proof fn lemma_comment_end(b: Seq<u8>, i: int)
    ensures
        comment_end(b, i) >= i,
    decreases b.len() - i,
{
    if !(i < 0 || i >= b.len() || b[i] == 0x0a) {
        lemma_comment_end(b, i + 1);
    }
}

// ---- what tokens are ----------------------------------------------------

/// What every token has: an identifier has a character, and an integer type one of
/// the machine widths.
pub open spec fn spelled(t: KTok) -> bool {
    match t {
        KTok::Ident(n) => n.len() > 0 && n[0] != '/',
        KTok::IntTy(signed, width) => machine_width(width),
        _ => true,
    }
}

pub open spec fn machine_width(w: u32) -> bool {
    w == 8 || w == 16 || w == 32 || w == 64
}

pub open spec fn all_spelled(ts: Seq<KToken>) -> bool {
    forall|k: int| 0 <= k < ts.len() ==> spelled((#[trigger] ts[k]).tok)
}

proof fn lemma_push_spelled(ts: Seq<KToken>, t: KToken)
    requires
        all_spelled(ts),
        spelled(t.tok),
    ensures
        all_spelled(ts.push(t)),
{
    let next = ts.push(t);
    assert forall|k: int| 0 <= k < next.len() implies spelled((#[trigger] next[k]).tok) by {
        if k < ts.len() {
            assert(next[k] == ts[k]);
        }
    }
}

#[verifier::rlimit(40)]
proof fn lemma_lexed(b: Seq<u8>, i: int, acc: Seq<KToken>)
    requires
        all_spelled(acc),
        lex_from(b, i, acc) is Ok,
    ensures
        all_spelled(lex_from(b, i, acc)->Ok_0),
    decreases b.len() - i,
{
    if i < 0 || i >= b.len() {
        lemma_push_spelled(acc, tok_span(KTok::Eof, b.len() as int, b.len() as int));
    } else if is_space(b[i]) {
        lemma_lexed(b, i + 1, acc);
    } else if b[i] == 0x2f && i + 1 < b.len() && b[i + 1] == 0x2f {
        lemma_lexed(b, comment_end(b, i), acc);
    } else if b[i] == 0x2f && i + 1 < b.len() && b[i + 1] == 0x2a {
        lemma_lexed(b, block_end(b, i + 2)->Some_0, acc);
    } else if is_digit(b[i]) {
        let (v, j) = number_at(b, i)->Ok_0;
        let t = tok_span(KTok::Int(v), i, j);
        lemma_push_spelled(acc, t);
        lemma_lexed(b, j, acc.push(t));
    } else if is_gap(b[i]) || is_letter(b[i]) {
        let j = word_end(b, i + 1);
        let t = tok_span(word_token(word_text(b, i, j)), i, j);
        lemma_push_spelled(acc, t);
        lemma_lexed(b, j, acc.push(t));
    } else {
        let (k, n) = operator_at(b, i)->Some_0;
        let t = tok_span(k, i, i + n);
        lemma_push_spelled(acc, t);
        lemma_lexed(b, i + n, acc.push(t));
    }
}

/// Every identifier of a text has a character, the first of which is no slash, and every
/// integer type is of 8, 16, 32 or 64 bits.
pub proof fn law_tokens_are_spelled(src: Text)
    ensures
        tokens_of_text(src) matches Ok(ts) ==> all_spelled(ts),
{
    if tokens_of_text(src) is Ok {
        let none: Seq<KToken> = Seq::empty();
        lemma_lexed(vstd::utf8::encode_utf8(src), 0, none);
    }
}

} // verus!
