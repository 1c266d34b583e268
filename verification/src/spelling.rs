//! How tokens are spelled and where they stand: numbers, words, what is skipped, and lines
//! and columns.

use crate::lexer;
use crate::span::{self, Span};
use crate::text::{self, Text};
use crate::token::{KTok, KToken};
use vstd::arithmetic::power::*;
use vstd::prelude::*;

verus! {

// ---- numbers ------------------------------------------------------------

/// What a digit is worth: its place in `0123456789abcdef`, whatever its case.
pub open spec fn digit_worth(c: char) -> Option<int> {
    if '0' <= c <= '9' {
        Some(c as int - '0' as int)
    } else if 'a' <= c <= 'f' {
        Some(c as int - 'a' as int + 10)
    } else if 'A' <= c <= 'F' {
        Some(c as int - 'A' as int + 10)
    } else {
        None
    }
}

/// What a row of digits is worth: the first counts as often as the base to the power of how
/// many follow it.
pub open spec fn worth(ds: Seq<int>, base: int) -> int
    decreases ds.len(),
{
    if ds.len() == 0 {
        0
    } else {
        ds[0] * pow(base, (ds.len() - 1) as nat) + worth(ds.drop_first(), base)
    }
}

proof fn lemma_worth_push(ds: Seq<int>, d: int, base: int)
    ensures
        worth(ds.push(d), base) == worth(ds, base) * base + d,
    decreases ds.len(),
{
    if ds.len() == 0 {
        let one = ds.push(d);
        assert(one.drop_first() =~= Seq::<int>::empty());
        lemma_pow0(base);
        assert(worth(one.drop_first(), base) == 0);
        assert(worth(one, base) == d * 1 + 0);
    } else {
        let n = ds.len();
        assert(ds.push(d).drop_first() =~= ds.drop_first().push(d));
        lemma_worth_push(ds.drop_first(), d, base);
        reveal(pow);
        assert(pow(base, n as nat) == base * pow(base, (n - 1) as nat));
        let p = pow(base, (n - 1) as nat);
        let w = worth(ds.drop_first(), base);
        assert(ds[0] * (base * p) + (w * base + d) == (ds[0] * p + w) * base + d)
            by (nonlinear_arith);
    }
}

/// The digits between `i` and `j`.
pub open spec fn digits_of(b: Seq<u8>, i: int, j: int) -> Seq<int> {
    Seq::new((j - i) as nat, |k: int| digit_worth(b[i + k] as char)->0)
}

/// A number is worth what its digits are, in base 10 or, behind `0x`, in base 16.
pub proof fn law_numbers_are_worth_their_digits(b: Seq<u8>, i: int, j: int, hex: bool)
    requires
        0 <= i <= j <= b.len(),
        forall|k: int|
            i <= k < j ==> (digit_worth(#[trigger] b[k] as char) matches Some(d) && (hex || d < 10)),
    ensures
        lexer::numeral(b, i, j, hex) == worth(
            digits_of(b, i, j),
            if hex {
                16
            } else {
                10
            },
        ),
    decreases j - i,
{
    let base: int = if hex {
        16
    } else {
        10
    };
    if i < j {
        law_numbers_are_worth_their_digits(b, i, j - 1, hex);
        let d = digit_worth(b[j - 1] as char)->0;
        assert(digits_of(b, i, j) =~= digits_of(b, i, j - 1).push(d));
        lemma_worth_push(digits_of(b, i, j - 1), d, base);
        assert(lexer::digit_of(b[j - 1]) == d);
    } else {
        assert(digits_of(b, i, j).len() == 0);
    }
}

/// An underscore in a number does not count.
pub proof fn law_underscores_do_not_count(b: Seq<u8>, i: int, k: int, j: int, hex: bool)
    requires
        0 <= i <= k < j <= b.len(),
        b[k] as char == '_',
    ensures
        lexer::numeral(b, i, j, hex) == lexer::numeral(b.remove(k), i, j - 1, hex),
    decreases j - k,
{
    if k == j - 1 {
        lemma_same_numeral(b, b.remove(k), i, k, hex);
    } else {
        law_underscores_do_not_count(b, i, k, j - 1, hex);
        assert(b.remove(k)[j - 2] == b[j - 1]);
    }
}

proof fn lemma_same_numeral(a: Seq<u8>, b: Seq<u8>, i: int, j: int, hex: bool)
    requires
        0 <= i <= j <= a.len(),
        j <= b.len(),
        forall|k: int| i <= k < j ==> a[k] == b[k],
    ensures
        lexer::numeral(a, i, j, hex) == lexer::numeral(b, i, j, hex),
    decreases j - i,
{
    if i < j {
        lemma_same_numeral(a, b, i, j - 1, hex);
    }
}

/// Whether the text `x` stands at `i`.
pub open spec fn written(b: Seq<u8>, i: int, x: Text) -> bool {
    0 <= i && i + x.len() <= b.len() && forall|k: int|
        0 <= k < x.len() ==> #[trigger] x[k] == b[i + k] as char
}

proof fn lemma_decimal(b: Seq<u8>, i: int, n: nat)
    requires
        written(b, i, text::dec(n)),
    ensures
        lexer::numeral(b, i, i + text::dec(n).len(), false) == n,
        forall|k: int| 0 <= k < text::dec(n).len() ==> lexer::is_digit(#[trigger] b[i + k]),
        text::dec(n).len() > 0,
        text::dec(n).len() > 1 ==> b[i] != 0x30,
    decreases n,
{
    let x = text::dec(n);
    if n < 10 {
        assert(x[0] == b[i + 0] as char);
        assert(lexer::numeral(b, i, i + 1, false) == lexer::numeral(b, i, i, false) * 10
            + lexer::digit_of(b[i]));
    } else {
        let y = text::dec(n / 10);
        let m = y.len() as int;
        assert(x == y.push(text::digit_char(n % 10)));
        assert forall|k: int| 0 <= k < m implies #[trigger] y[k] == b[i + k] as char by {
            assert(x[k] == y[k]);
        }
        lemma_decimal(b, i, n / 10);
        assert(x[m] == b[i + m] as char);
        assert(lexer::numeral(b, i, i + m + 1, false) == lexer::numeral(b, i, i + m, false) * 10
            + lexer::digit_of(b[i + m]));
        assert forall|k: int| 0 <= k < x.len() implies lexer::is_digit(#[trigger] b[i + k]) by {
            if k < m {
                assert(lexer::is_digit(b[i + k]));
            }
        }
        if m == 1 {
            if n / 10 >= 10 {
                lemma_dec_long(n / 10);
            }
            assert(y == seq![text::digit_char(n / 10)]);
            assert(y[0] == b[i + 0] as char);
            assert(1 <= n / 10 < 10);
            assert(text::digit_char(n / 10) != '0');
            assert(b[i] as char != '0');
        }
    }
}

proof fn lemma_dec_long(n: nat)
    requires
        n >= 10,
    ensures
        text::dec(n).len() >= 2,
{
    lemma_dec_some(n / 10);
}

proof fn lemma_dec_some(n: nat)
    ensures
        text::dec(n).len() >= 1,
    decreases n,
{
    if n >= 10 {
        lemma_dec_some(n / 10);
    }
}

proof fn lemma_numeral_run(b: Seq<u8>, i: int, n: int)
    requires
        0 <= i,
        0 <= n,
        i + n <= b.len(),
        forall|k: int| 0 <= k < n ==> lexer::is_digit(#[trigger] b[i + k]),
        i + n == b.len() || !(lexer::is_digit(b[i + n]) || b[i + n] as char == '_'),
    ensures
        lexer::numeral_end(b, i, false) == i + n,
    decreases n,
{
    if n > 0 {
        assert(lexer::is_digit(b[i + 0]));
        assert forall|k: int| 0 <= k < n - 1 implies lexer::is_digit(#[trigger] b[i + 1 + k]) by {
            assert(lexer::is_digit(b[i + (k + 1)]));
        }
        lemma_numeral_run(b, i + 1, n - 1);
    }
}

/// A number that is written in decimal is read as that number, up to its last digit; one that
/// is too large is refused.
pub proof fn law_decimal_numbers_are_read_back(b: Seq<u8>, i: int, n: nat)
    requires
        written(b, i, text::dec(n)),
        ({
            let j = i + text::dec(n).len();
            j == b.len() || !(lexer::is_digit(b[j]) || b[j] as char == '_' || b[j] as char == 'x'
                || b[j] as char == 'X')
        }),
    ensures
        n <= i128::MAX ==> lexer::number_at(b, i) == Ok::<(i128, int), crate::diagnostic::Diag>(
            (n as i128, i + text::dec(n).len()),
        ),
        n > i128::MAX ==> lexer::number_at(b, i) is Err,
{
    lemma_decimal(b, i, n);
    let m = text::dec(n).len() as int;
    assert(lexer::is_digit(b[i + 0]));
    if m > 1 {
        assert(lexer::is_digit(b[i + 1]));
    }
    lemma_numeral_run(b, i, m);
    assert(!lexer::is_gap(b[i]));
    assert(lexer::has_digit(b, i, i + m));
}

proof fn lemma_hex_run(b: Seq<u8>, i: int, j: int)
    requires
        0 <= i <= j <= b.len(),
        forall|k: int| i <= k < j ==> digit_worth(#[trigger] b[k] as char) is Some,
        j == b.len() || !(digit_worth(b[j] as char) is Some || b[j] as char == '_'),
    ensures
        lexer::numeral_end(b, i, true) == j,
    decreases j - i,
{
    if i < j {
        assert(digit_worth(b[i] as char) is Some);
        lemma_hex_run(b, i + 1, j);
    }
}

/// Behind `0x` or `0X` the digits that follow are read in base 16, up to the last; without a
/// digit there is no number.
pub proof fn law_hex_numbers_are_read(b: Seq<u8>, i: int, j: int)
    requires
        0 <= i,
        i + 2 <= j <= b.len(),
        b[i] as char == '0',
        b[i + 1] as char == 'x' || b[i + 1] as char == 'X',
        forall|k: int| i + 2 <= k < j ==> digit_worth(#[trigger] b[k] as char) is Some,
        j == b.len() || !(digit_worth(b[j] as char) is Some || b[j] as char == '_'),
    ensures
        ({
            let n = worth(digits_of(b, i + 2, j), 16);
            &&& i + 2 < j && n <= i128::MAX ==> lexer::number_at(b, i) == Ok::<
                (i128, int),
                crate::diagnostic::Diag,
            >((n as i128, j))
            &&& i + 2 == j || n > i128::MAX ==> lexer::number_at(b, i) is Err
        }),
{
    lemma_hex_run(b, i + 2, j);
    assert forall|k: int| i + 2 <= k < j implies (digit_worth(#[trigger] b[k] as char) matches Some(
        d,
    ) && (true || d < 10)) by {}
    law_numbers_are_worth_their_digits(b, i + 2, j, true);
    if i + 2 < j {
        assert(digit_worth(b[i + 2] as char) is Some);
        assert(!lexer::is_gap(b[i + 2]));
        assert(lexer::has_digit(b, i + 2, j));
    }
}

// ---- words and what is skipped ------------------------------------------

/// Whether a character can stand in a word.
pub open spec fn in_word(c: char) -> bool {
    'a' <= c <= 'z' || 'A' <= c <= 'Z' || '0' <= c <= '9' || c == '_'
}

proof fn lemma_word_run(b: Seq<u8>, i: int, j: int)
    requires
        0 <= i <= j <= b.len(),
        forall|k: int| i <= k < j ==> in_word(#[trigger] b[k] as char),
        j == b.len() || !in_word(b[j] as char),
    ensures
        lexer::word_end(b, i) == j,
    decreases j - i,
{
    if i < j {
        lemma_word_run(b, i + 1, j);
    }
}

/// A word is as long as it goes on: letters, digits and underscores, of which the first is no
/// digit, up to the first other character are one token.
pub proof fn law_words_are_as_long_as_they_go_on(b: Seq<u8>, i: int, j: int, acc: Seq<KToken>)
    requires
        0 <= i < j <= b.len(),
        !('0' <= b[i] as char <= '9'),
        forall|k: int| i <= k < j ==> in_word(#[trigger] b[k] as char),
        j == b.len() || !in_word(b[j] as char),
    ensures
        lexer::lex_from(b, i, acc) == lexer::lex_from(
            b,
            j,
            acc.push(
                KToken {
                    tok: lexer::word_token(Seq::new((j - i) as nat, |k: int| b[i + k] as char)),
                    span: Span { start: i as usize, end: j as usize },
                },
            ),
        ),
{
    assert(in_word(b[i] as char));
    lemma_word_run(b, i + 1, j);
    assert(lexer::word_text(b, i, j) =~= Seq::new((j - i) as nat, |k: int| b[i + k] as char));
}

/// Blanks, tabs and ends of lines are skipped, and so is a comment: behind `//` up to the end
/// of the line, behind `/*` up to the first `*/`. One that is not closed is an error.
pub proof fn law_blanks_and_comments_are_skipped(b: Seq<u8>, i: int, j: int, acc: Seq<KToken>)
    requires
        0 <= i < b.len(),
    ensures
        b[i] as char == ' ' || b[i] as char == '\t' || b[i] as char == '\n' || b[i] as char == '\r'
            ==> lexer::lex_from(b, i, acc) == lexer::lex_from(b, i + 1, acc),
        i + 2 <= j <= b.len() && b[i] as char == '/' && b[i + 1] as char == '/' && (forall|k: int|
            i <= k < j ==> #[trigger] b[k] as char != '\n') && (j == b.len() || b[j] as char
            == '\n') ==> lexer::lex_from(b, i, acc) == lexer::lex_from(b, j, acc),
        i + 2 <= j <= b.len() - 2 && b[i] as char == '/' && b[i + 1] as char == '*' && b[j] as char
            == '*' && b[j + 1] as char == '/' && (forall|k: int|
            i + 2 <= k < j ==> !(#[trigger] b[k] as char == '*' && b[k + 1] as char == '/'))
            ==> lexer::lex_from(b, i, acc) == lexer::lex_from(b, j + 2, acc),
        i + 2 <= b.len() && b[i] as char == '/' && b[i + 1] as char == '*' && (forall|k: int|
            i + 2 <= k < b.len() - 1 ==> !(#[trigger] b[k] as char == '*' && b[k + 1] as char
                == '/')) ==> lexer::lex_from(b, i, acc) is Err,
{
    if i + 2 <= j <= b.len() && b[i] as char == '/' && b[i + 1] as char == '/' && (forall|k: int|
        i <= k < j ==> #[trigger] b[k] as char != '\n') && (j == b.len() || b[j] as char == '\n') {
        lemma_line(b, i, j);
    }
    if i + 2 <= j <= b.len() - 2 && b[i] as char == '/' && b[i + 1] as char == '*' && b[j] as char
        == '*' && b[j + 1] as char == '/' && (forall|k: int|
        i + 2 <= k < j ==> !(#[trigger] b[k] as char == '*' && b[k + 1] as char == '/')) {
        lemma_closed(b, i + 2, j);
    }
    if i + 2 <= b.len() && b[i] as char == '/' && b[i + 1] as char == '*' && (forall|k: int|
        i + 2 <= k < b.len() - 1 ==> !(#[trigger] b[k] as char == '*' && b[k + 1] as char
            == '/')) {
        lemma_unclosed(b, i + 2);
    }
}

proof fn lemma_line(b: Seq<u8>, i: int, j: int)
    requires
        0 <= i <= j <= b.len(),
        forall|k: int| i <= k < j ==> #[trigger] b[k] as char != '\n',
        j == b.len() || b[j] as char == '\n',
    ensures
        lexer::comment_end(b, i) == j,
    decreases j - i,
{
    if i < j {
        assert(b[i] as char != '\n');
        lemma_line(b, i + 1, j);
    }
}

proof fn lemma_closed(b: Seq<u8>, i: int, j: int)
    requires
        0 <= i <= j <= b.len() - 2,
        b[j] as char == '*' && b[j + 1] as char == '/',
        forall|k: int| i <= k < j ==> !(#[trigger] b[k] as char == '*' && b[k + 1] as char == '/'),
    ensures
        lexer::block_end(b, i) == Some(j + 2),
    decreases j - i,
{
    if i < j {
        assert(!(b[i] as char == '*' && b[i + 1] as char == '/'));
        lemma_closed(b, i + 1, j);
    }
}

proof fn lemma_unclosed(b: Seq<u8>, i: int)
    requires
        0 <= i <= b.len(),
        forall|k: int|
            i <= k < b.len() - 1 ==> !(#[trigger] b[k] as char == '*' && b[k + 1] as char == '/'),
    ensures
        lexer::block_end(b, i) is None,
    decreases b.len() - i,
{
    if i + 1 < b.len() {
        assert(!(b[i] as char == '*' && b[i + 1] as char == '/'));
        lemma_unclosed(b, i + 1);
    }
}

/// The character at `i`, or a blank behind the end.
pub open spec fn sign_at(b: Seq<u8>, i: int) -> char {
    if 0 <= i < b.len() {
        b[i] as char
    } else {
        ' '
    }
}

/// Of the signs that a text could begin with the longest counts: `..=` before `..` before `.`,
/// `::` before `:`, `==` and `=>` before `=`, and `->` before `-`.
pub proof fn law_the_longest_sign_counts(b: Seq<u8>, i: int)
    requires
        0 <= i < b.len(),
    ensures
        ({
            let c = sign_at(b, i);
            let d = sign_at(b, i + 1);
            let e = sign_at(b, i + 2);
            let r = lexer::operator_at(b, i);
            &&& c == '.' && d == '.' && e == '=' ==> r == Some((KTok::DotDotEq, 3int))
            &&& c == '.' && d == '.' && e != '=' ==> r == Some((KTok::DotDot, 2int))
            &&& c == '.' && d != '.' ==> r == Some((KTok::Dot, 1int))
            &&& c == ':' && d == ':' ==> r == Some((KTok::ColonColon, 2int))
            &&& c == ':' && d != ':' ==> r == Some((KTok::Colon, 1int))
            &&& c == '=' && d == '=' ==> r == Some((KTok::EqEq, 2int))
            &&& c == '=' && d == '>' ==> r == Some((KTok::FatArrow, 2int))
            &&& c == '=' && d != '=' && d != '>' ==> r == Some((KTok::Eq, 1int))
            &&& c == '-' && d == '>' ==> r == Some((KTok::Arrow, 2int))
            &&& c == '-' && d != '>' ==> r == Some((KTok::Minus, 1int))
        }),
{
}

/// Brackets, commas and semicolons stand for themselves.
pub proof fn law_brackets_and_stops(b: Seq<u8>, i: int)
    requires
        0 <= i < b.len(),
    ensures
        ({
            let c = b[i] as char;
            let r = lexer::operator_at(b, i);
            &&& c == '(' <==> r == Some((KTok::LParen, 1int))
            &&& c == ')' <==> r == Some((KTok::RParen, 1int))
            &&& c == '{' <==> r == Some((KTok::LBrace, 1int))
            &&& c == '}' <==> r == Some((KTok::RBrace, 1int))
            &&& c == '[' <==> r == Some((KTok::LBracket, 1int))
            &&& c == ']' <==> r == Some((KTok::RBracket, 1int))
            &&& c == ',' <==> r == Some((KTok::Comma, 1int))
            &&& c == ';' <==> r == Some((KTok::Semi, 1int))
        }),
{
}

/// What is neither a letter, a digit, an underscore, white space nor a sign of the language is an
/// error, and so is everything beyond ASCII outside comments.
pub proof fn law_strange_characters_are_errors(b: Seq<u8>, i: int, acc: Seq<KToken>)
    requires
        0 <= i < b.len(),
        b[i] >= 0x80 || b[i] as char == '@' || b[i] as char == '#' || b[i] as char == '$'
            || b[i] as char == '?' || b[i] as char == '~' || b[i] as char == '"' || b[i] as char
            == '`',
    ensures
        lexer::lex_from(b, i, acc) is Err,
{
}

/// The word with its first letter in upper case.
pub open spec fn capital(w: Text) -> Text {
    if w.len() > 0 && 'a' <= w[0] <= 'z' {
        seq![((w[0] as u32 - 32) as u32) as char] + w.subrange(1, w.len() as int)
    } else {
        w
    }
}

/// A word is an identifier of that name, an integer type of which it gives the sign and the
/// width, or the keyword that is called like it.
pub proof fn law_words_are_what_they_say(w: Text)
    ensures
        match lexer::word_token(w) {
            KTok::Ident(n) => n == w,
            KTok::IntTy(signed, width) => w == (if signed {
                "i"@
            } else {
                "u"@
            }) + text::dec(width as nat),
            t => t.name() == capital(w),
        },
{
    reveal(KTok::name);
    match lexer::word_token(w) {
        KTok::Ident(n) => {},
        KTok::IntTy(signed, width) => {
            reveal_strlit("i");
            reveal_strlit("u");
            reveal_strlit("i8");
            reveal_strlit("i16");
            reveal_strlit("i32");
            reveal_strlit("i64");
            reveal_strlit("u8");
            reveal_strlit("u16");
            reveal_strlit("u32");
            reveal_strlit("u64");
            reveal_with_fuel(text::dec, 3);
            assert(text::dec(8) =~= seq!['8']);
            assert(text::dec(16) =~= seq!['1', '6']);
            assert(text::dec(32) =~= seq!['3', '2']);
            assert(text::dec(64) =~= seq!['6', '4']);
            assert(w =~= (if signed {
                "i"@
            } else {
                "u"@
            }) + text::dec(width as nat));
        },
        t => lemma_keyword(w, t),
    }
}

proof fn lemma_keyword(w: Text, t: KTok)
    requires
        t == lexer::word_token(w),
        !(t is Ident),
        !(t is IntTy),
    ensures
        t.name() == capital(w),
{
    reveal(KTok::name);
    reveal_strlit("fn");
    reveal_strlit("Fn");
    reveal_strlit("struct");
    reveal_strlit("Struct");
    reveal_strlit("enum");
    reveal_strlit("Enum");
    reveal_strlit("let");
    reveal_strlit("Let");
    reveal_strlit("mut");
    reveal_strlit("Mut");
    reveal_strlit("if");
    reveal_strlit("If");
    reveal_strlit("else");
    reveal_strlit("Else");
    reveal_strlit("while");
    reveal_strlit("While");
    reveal_strlit("for");
    reveal_strlit("For");
    reveal_strlit("in");
    reveal_strlit("In");
    reveal_strlit("match");
    reveal_strlit("Match");
    reveal_strlit("return");
    reveal_strlit("Return");
    reveal_strlit("mod");
    reveal_strlit("Mod");
    reveal_strlit("use");
    reveal_strlit("Use");
    reveal_strlit("const");
    reveal_strlit("Const");
    reveal_strlit("true");
    reveal_strlit("True");
    reveal_strlit("false");
    reveal_strlit("False");
    reveal_strlit("bool");
    reveal_strlit("Bool");
    reveal_strlit("bit");
    reveal_strlit("Bit");
    assert(t.name() =~= capital(w));
}

// ---- lines and columns --------------------------------------------------

proof fn lemma_first_char(s: Text, i: int, k: int)
    requires
        0 <= i < k <= s.len(),
    ensures
        vstd::utf8::encode_utf8(s.subrange(i, k)).len() == span::char_bytes(s[i])
            + vstd::utf8::encode_utf8(s.subrange(i + 1, k)).len(),
{
    let t = s.subrange(i, k);
    assert(t[0] == s[i]);
    assert(t.drop_first() =~= s.subrange(i + 1, k));
    assert(vstd::utf8::encode_utf8(t) == vstd::utf8::encode_scalar(t[0] as u32)
        + vstd::utf8::encode_utf8(t.drop_first()));
    vstd::utf8::char_is_scalar(s[i]);
    assert(vstd::utf8::encode_scalar(s[i] as u32).len() == span::char_bytes(s[i]));
}

proof fn lemma_walk(s: Text, i: int, k: int, line: nat, col: nat)
    requires
        0 <= i <= k < s.len(),
    ensures
        ({
            let a = span::walk(
                s,
                i,
                vstd::utf8::encode_utf8(s.subrange(i, k)).len() as int,
                line,
                col,
            );
            let b = span::walk(
                s,
                i,
                vstd::utf8::encode_utf8(s.subrange(i, k + 1)).len() as int,
                line,
                col,
            );
            b == if s[k] == '\n' {
                (a.0 + 1, 1nat)
            } else {
                (a.0, a.1 + 1)
            }
        }),
    decreases k - i,
{
    lemma_first_char(s, i, k + 1);
    if i < k {
        lemma_first_char(s, i, k);
        if s[i] == '\n' {
            lemma_walk(s, i + 1, k, line + 1, 1);
        } else {
            lemma_walk(s, i + 1, k, line, col + 1);
        }
    } else {
        assert(s.subrange(i, k) =~= Seq::<char>::empty());
        assert(s.subrange(i + 1, k + 1) =~= Seq::<char>::empty());
        assert(vstd::utf8::encode_utf8(Seq::<char>::empty()).len() == 0);
        assert(span::walk(s, i + 1, 0, line + 1, 1) == (line + 1, 1nat));
        assert(span::walk(s, i + 1, 0, line, col + 1) == (line, col + 1));
    }
}

/// A text begins in line 1, column 1. Behind an end of line the next line begins in column 1,
/// and behind every other character, whatever its length in bytes, the column is one more.
pub proof fn law_lines_and_columns(s: Text, k: int)
    requires
        0 <= k < s.len(),
    ensures
        span::position(s, 0) == (1nat, 1nat),
        ({
            let a = span::position(s, vstd::utf8::encode_utf8(s.subrange(0, k)).len() as int);
            let b = span::position(s, vstd::utf8::encode_utf8(s.subrange(0, k + 1)).len() as int);
            b == if s[k] == '\n' {
                (a.0 + 1, 1nat)
            } else {
                (a.0, a.1 + 1)
            }
        }),
{
    lemma_walk(s, 0, k, 1, 1);
}

/// The span that covers two spans holds both and begins and ends where one of them does.
pub proof fn law_covering_spans(a: Span, b: Span)
    ensures
        ({
            let c = a.cover(b);
            &&& c.start <= a.start && c.start <= b.start && (c.start == a.start || c.start
                == b.start)
            &&& c.end >= a.end && c.end >= b.end && (c.end == a.end || c.end == b.end)
        }),
{
}

} // verus!
