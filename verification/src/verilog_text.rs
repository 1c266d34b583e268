//! What the text of a netlist means: a reader of the expressions of the target language,
//! by their brackets and signs, and that it reads back what was written.

use crate::arith;
use crate::ir::BinOp;
use crate::netlist::{self, NExpr, Wires};
use crate::operators;
use crate::text::{self, Text};
use crate::wires;
use vstd::arithmetic::div_mod::*;
use vstd::arithmetic::power2::*;
use vstd::prelude::*;

verus! {

// ---- the meaning of signs -----------------------------------------------

/// `x` as a word of 128 binary digits.
pub open spec fn word(x: int) -> int {
    x % (pow2(128) as int)
}

pub open spec fn one_if(c: bool) -> int {
    if c {
        1
    } else {
        0
    }
}

/// How a bitwise sign joins two digits.
pub enum Rule {
    Both,
    Either,
    OneAlone,
}

pub open spec fn joined(rule: Rule, p: bool, q: bool) -> bool {
    match rule {
        Rule::Both => p && q,
        Rule::Either => p || q,
        Rule::OneAlone => p != q,
    }
}

/// The number whose digits below `2^n` are those of `a` and `b`, joined by the rule.
pub open spec fn digits(rule: Rule, a: int, b: int, n: nat) -> int
    decreases n,
{
    if n == 0 {
        0
    } else {
        let k = (n - 1) as nat;
        digits(rule, a, b, k) + one_if(
            joined(rule, operators::bit(a, k), operators::bit(b, k)),
        ) * pow2(k)
    }
}

/// What a sign of the target language makes of two words. Dividing by zero gives zero.
pub open spec fn sense(sign: Text, a: int, b: int) -> Option<int> {
    if sign == "+"@ {
        Some(word(a + b))
    } else if sign == "-"@ {
        Some(word(a - b))
    } else if sign == "*"@ {
        Some(word(a * b))
    } else if sign == "/"@ {
        Some(
            if b == 0 {
                0
            } else {
                a / b
            },
        )
    } else if sign == "%"@ {
        Some(
            if b == 0 {
                0
            } else {
                a % b
            },
        )
    } else if sign == "&&"@ {
        Some(one_if(a != 0 && b != 0))
    } else if sign == "||"@ {
        Some(one_if(a != 0 || b != 0))
    } else if sign == "&"@ {
        Some(digits(Rule::Both, a, b, 128))
    } else if sign == "|"@ {
        Some(digits(Rule::Either, a, b, 128))
    } else if sign == "^"@ {
        Some(digits(Rule::OneAlone, a, b, 128))
    } else if sign == "<<"@ {
        Some(word(a * pow2(b as nat)))
    } else if sign == ">>"@ {
        Some(a / (pow2(b as nat) as int))
    } else if sign == "=="@ {
        Some(one_if(a == b))
    } else if sign == "!="@ {
        Some(one_if(a != b))
    } else if sign == "<"@ {
        Some(one_if(a < b))
    } else if sign == "<="@ {
        Some(one_if(a <= b))
    } else if sign == ">"@ {
        Some(one_if(a > b))
    } else if sign == ">="@ {
        Some(one_if(a >= b))
    } else {
        None
    }
}

proof fn lemma_digits_of(a: int, n: nat)
    requires
        a >= 0,
    ensures
        digits(Rule::Both, a, a, n) == a % (pow2(n) as int),
    decreases n,
{
    if n == 0 {
        lemma2_to64();
    } else {
        let k = (n - 1) as nat;
        lemma_digits_of(a, k);
        lemma_pow2_unfold(n);
        lemma_pow2_pos(k);
        let p = pow2(k) as int;
        lemma_mod_breakdown(a, p, 2);
        assert(p * 2 == pow2(n));
        let d = (a / p) % 2;
        assert(d == 0 || d == 1);
        assert(p * d == one_if(operators::bit(a, k)) * p) by (nonlinear_arith)
            requires
                d == one_if(operators::bit(a, k)),
        ;
    }
}

/// A word whose digits are joined by the rule is the number of those digits.
proof fn lemma_joined(rule: Rule, a: int, b: int, c: int, n: nat)
    requires
        forall|k: nat|
            k < n ==> #[trigger] operators::bit(c, k) == joined(
                rule,
                operators::bit(a, k),
                operators::bit(b, k),
            ),
    ensures
        digits(rule, a, b, n) == digits(Rule::Both, c, c, n),
    decreases n,
{
    if n > 0 {
        lemma_joined(rule, a, b, c, (n - 1) as nat);
        assert(operators::bit(c, (n - 1) as nat) == joined(
            rule,
            operators::bit(a, (n - 1) as nat),
            operators::bit(b, (n - 1) as nat),
        ));
    }
}

proof fn lemma_word_digits(rule: Rule, a: u128, b: u128, c: u128)
    requires
        forall|k: nat|
            k < 128 ==> #[trigger] operators::bit(c as int, k) == joined(
                rule,
                operators::bit(a as int, k),
                operators::bit(b as int, k),
            ),
    ensures
        digits(rule, a as int, b as int, 128) == c,
{
    lemma_joined(rule, a as int, b as int, c as int, 128);
    lemma_digits_of(c as int, 128);
    arith::lemma_two128();
    lemma_small_mod(c as nat, pow2(128));
}

/// Whether `b` stands for a shift by 128 places or more: nothing is left.
proof fn lemma_far_shift(a: u128, b: u128)
    requires
        b >= 128,
    ensures
        word(a * pow2(b as nat)) == 0,
        a as int / (pow2(b as nat) as int) == 0,
{
    let d = (b - 128) as nat;
    arith::lemma_two128();
    lemma_pow2_adds(128, d);
    lemma_pow2_pos(d);
    lemma_pow2_pos(b as nat);
    let p = pow2(d) as int;
    let t = pow2(128) as int;
    assert(a * pow2(b as nat) == (a * p) * t) by (nonlinear_arith)
        requires
            pow2(b as nat) == t * p,
    ;
    lemma_mod_multiples_basic(a * p, t);
    assert(a < pow2(b as nat)) by (nonlinear_arith)
        requires
            pow2(b as nat) == t * p,
            p >= 1,
            a < t,
            t >= 1,
    ;
    lemma_basic_div(a as int, pow2(b as nat) as int);
}

/// The sign of every operator is the one that computes it.
pub proof fn law_signs_compute(op: BinOp, a: u128, b: u128)
    ensures
        sense(netlist::binop_text(op), a as int, b as int) == Some(
            netlist::apply(op, a, b) as int,
        ),
{
    lemma_told_apart(op);
    arith::lemma_two128();
    let t = pow2(128) as int;
    match op {
        BinOp::Add => {
            lemma_mod_bound(a + b, t);
            assert((a + b) % t == (a + b) % arith::two128());
        },
        BinOp::Sub => {
            lemma_mod_bound(a - b, t);
        },
        BinOp::Mul => {
            lemma_mod_bound(a * b, t);
        },
        BinOp::Div => {
            if b != 0 {
                lemma_div_is_ordered_by_denominator(a as int, 1, b as int);
                lemma_div_basics(a as int);
                lemma_div_pos_is_pos(a as int, b as int);
            }
        },
        BinOp::Rem => {
            if b != 0 {
                lemma_mod_bound(a as int, b as int);
            }
        },
        BinOp::BitAnd => {
            assert forall|k: nat| k < 128 implies #[trigger] operators::bit((a & b) as int, k)
                == joined(Rule::Both, operators::bit(a as int, k), operators::bit(b as int, k)) by {
                operators::lemma_bits_of_words(a, b, k);
            }
            lemma_word_digits(Rule::Both, a, b, a & b);
        },
        BinOp::BitOr => {
            assert forall|k: nat| k < 128 implies #[trigger] operators::bit((a | b) as int, k)
                == joined(Rule::Either, operators::bit(a as int, k), operators::bit(b as int, k)) by {
                operators::lemma_bits_of_words(a, b, k);
            }
            lemma_word_digits(Rule::Either, a, b, a | b);
        },
        BinOp::BitXor => {
            assert forall|k: nat| k < 128 implies #[trigger] operators::bit((a ^ b) as int, k)
                == joined(
                Rule::OneAlone,
                operators::bit(a as int, k),
                operators::bit(b as int, k),
            ) by {
                operators::lemma_bits_of_words(a, b, k);
            }
            lemma_word_digits(Rule::OneAlone, a, b, a ^ b);
        },
        BinOp::Shl => {
            if b >= 128 {
                lemma_far_shift(a, b);
            } else {
                lemma_mod_bound(a * pow2(b as nat), t);
            }
        },
        BinOp::Shr => {
            if b >= 128 {
                lemma_far_shift(a, b);
            } else {
                lemma_pow2_pos(b as nat);
                lemma_div_is_ordered_by_denominator(a as int, 1, pow2(b as nat) as int);
                lemma_div_basics(a as int);
                lemma_div_pos_is_pos(a as int, pow2(b as nat) as int);
            }
        },
        _ => {},
    }
}

/// Two operators never have one text.
pub proof fn law_signs_differ(a: BinOp, b: BinOp)
    requires
        netlist::binop_text(a) == netlist::binop_text(b),
    ensures
        a == b,
{
    lemma_told_apart(a);
    lemma_told_apart(b);
}

/// Each sign is that of one operator.
proof fn lemma_told_apart(op: BinOp)
    ensures
        netlist::binop_text(op) == "+"@ <==> op is Add,
        netlist::binop_text(op) == "-"@ <==> op is Sub,
        netlist::binop_text(op) == "*"@ <==> op is Mul,
        netlist::binop_text(op) == "/"@ <==> op is Div,
        netlist::binop_text(op) == "%"@ <==> op is Rem,
        netlist::binop_text(op) == "&&"@ <==> op is And,
        netlist::binop_text(op) == "||"@ <==> op is Or,
        netlist::binop_text(op) == "&"@ <==> op is BitAnd,
        netlist::binop_text(op) == "|"@ <==> op is BitOr,
        netlist::binop_text(op) == "^"@ <==> op is BitXor,
        netlist::binop_text(op) == "<<"@ <==> op is Shl,
        netlist::binop_text(op) == ">>"@ <==> op is Shr,
        netlist::binop_text(op) == "=="@ <==> op is Eq,
        netlist::binop_text(op) == "!="@ <==> op is Ne,
        netlist::binop_text(op) == "<"@ <==> op is Lt,
        netlist::binop_text(op) == "<="@ <==> op is Le,
        netlist::binop_text(op) == ">"@ <==> op is Gt,
        netlist::binop_text(op) == ">="@ <==> op is Ge,
{
    reveal_strlit("+");
    reveal_strlit("-");
    reveal_strlit("*");
    reveal_strlit("/");
    reveal_strlit("%");
    reveal_strlit("&&");
    reveal_strlit("||");
    reveal_strlit("&");
    reveal_strlit("|");
    reveal_strlit("^");
    reveal_strlit("<<");
    reveal_strlit(">>");
    reveal_strlit("==");
    reveal_strlit("!=");
    reveal_strlit("<");
    reveal_strlit("<=");
    reveal_strlit(">");
    reveal_strlit(">=");
    let x = netlist::binop_text(op);
    assert(x.len() == 1 || x.len() == 2);
    assert(x == "+"@ ==> x.len() == 1 && x[0] == '+');
    assert(x == "-"@ ==> x.len() == 1 && x[0] == '-');
    assert(x == "*"@ ==> x.len() == 1 && x[0] == '*');
    assert(x == "/"@ ==> x.len() == 1 && x[0] == '/');
    assert(x == "%"@ ==> x.len() == 1 && x[0] == '%');
    assert(x == "&&"@ ==> x.len() == 2 && x[0] == '&' && x[1] == '&');
    assert(x == "||"@ ==> x.len() == 2 && x[0] == '|' && x[1] == '|');
    assert(x == "&"@ ==> x.len() == 1 && x[0] == '&');
    assert(x == "|"@ ==> x.len() == 1 && x[0] == '|');
    assert(x == "^"@ ==> x.len() == 1 && x[0] == '^');
    assert(x == "<<"@ ==> x.len() == 2 && x[0] == '<' && x[1] == '<');
    assert(x == ">>"@ ==> x.len() == 2 && x[0] == '>' && x[1] == '>');
    assert(x == "=="@ ==> x.len() == 2 && x[0] == '=' && x[1] == '=');
    assert(x == "!="@ ==> x.len() == 2 && x[0] == '!' && x[1] == '=');
    assert(x == "<"@ ==> x.len() == 1 && x[0] == '<');
    assert(x == "<="@ ==> x.len() == 2 && x[0] == '<' && x[1] == '=');
    assert(x == ">"@ ==> x.len() == 1 && x[0] == '>');
    assert(x == ">="@ ==> x.len() == 2 && x[0] == '>' && x[1] == '=');
}
// ---- the reader ---------------------------------------------------------

pub open spec fn is_digit(c: char) -> bool {
    '0' <= c <= '9'
}

pub open spec fn in_name(c: char) -> bool {
    is_digit(c) || 'a' <= c <= 'z' || 'A' <= c <= 'Z' || c == '_'
}

/// The end of the digits that continue at `i`.
pub open spec fn digits_end(t: Text, i: int) -> int
    decreases t.len() - i,
{
    if 0 <= i < t.len() && is_digit(t[i]) {
        digits_end(t, i + 1)
    } else {
        i
    }
}

/// The end of the name that continues at `i`.
pub open spec fn name_end(t: Text, i: int) -> int
    decreases t.len() - i,
{
    if 0 <= i < t.len() && in_name(t[i]) {
        name_end(t, i + 1)
    } else {
        i
    }
}

/// The first blank at or behind `i`.
pub open spec fn blank_from(t: Text, i: int) -> int
    decreases t.len() - i,
{
    if 0 <= i < t.len() && t[i] != ' ' {
        blank_from(t, i + 1)
    } else {
        i
    }
}

/// The number that the digits between `i` and `j` write.
pub open spec fn decimal(t: Text, i: int, j: int) -> int
    decreases j - i,
{
    if i >= j {
        0
    } else {
        decimal(t, i, j - 1) * 10 + (t[j - 1] as int - '0' as int)
    }
}

pub open spec fn char_at(t: Text, i: int) -> char {
    if 0 <= i < t.len() {
        t[i]
    } else {
        '\n'
    }
}

/// The value of the expression that is written at `i`, and where it ends: a name, a
/// sized number, or in brackets a sign and an operand, two operands with a sign between
/// them, or a choice.
pub open spec fn read(t: Text, i: int, w: Wires) -> Option<(int, int)>
    decreases t.len() - i,
{
    if i < 0 || i >= t.len() {
        None
    } else if t[i] == '(' {
        if char_at(t, i + 1) == '-' || char_at(t, i + 1) == '~' {
            match read(t, i + 2, w) {
                Some((v, j)) => if char_at(t, j) == ')' {
                    Some(
                        (
                            if char_at(t, i + 1) == '-' {
                                word(-v)
                            } else {
                                word(-v - 1)
                            },
                            j + 1,
                        ),
                    )
                } else {
                    None
                },
                None => None,
            }
        } else {
            match read(t, i + 1, w) {
                Some((a, j)) => {
                    let k = blank_from(t, j + 1);
                    if i < j && j < k && char_at(t, j) == ' ' && char_at(t, k) == ' ' {
                        match read(t, k + 1, w) {
                            Some((b, l)) => if t.subrange(j + 1, k) == "?"@ {
                                if k < l && char_at(t, l) == ' ' && char_at(t, l + 1) == ':'
                                    && char_at(t, l + 2) == ' ' {
                                    match read(t, l + 3, w) {
                                        Some((c, n)) => if char_at(t, n) == ')' {
                                            Some(
                                                (
                                                    if a != 0 {
                                                        b
                                                    } else {
                                                        c
                                                    },
                                                    n + 1,
                                                ),
                                            )
                                        } else {
                                            None
                                        },
                                        None => None,
                                    }
                                } else {
                                    None
                                }
                            } else if char_at(t, l) == ')' {
                                match sense(t.subrange(j + 1, k), a, b) {
                                    Some(v) => Some((v, l + 1)),
                                    None => None,
                                }
                            } else {
                                None
                            },
                            None => None,
                        }
                    } else {
                        None
                    }
                },
                None => None,
            }
        }
    } else if is_digit(t[i]) {
        let j = digits_end(t, i);
        let k = digits_end(t, j + 2);
        if char_at(t, j) == '\'' && char_at(t, j + 1) == 'd' && j + 2 < k {
            Some((decimal(t, j + 2, k) % (pow2(decimal(t, i, j) as nat) as int), k))
        } else {
            None
        }
    } else {
        let j = name_end(t, i);
        if i < j {
            Some((netlist::on_wire(w, t.subrange(i, j)) as int, j))
        } else {
            None
        }
    }
}

/// Whether `n` can be a name: letters, digits and underscores, of which the first is no
/// digit.
pub open spec fn is_name(n: Text) -> bool {
    &&& n.len() > 0
    &&& !is_digit(n[0])
    &&& forall|i: int| 0 <= i < n.len() ==> in_name(#[trigger] n[i])
}

/// Whether the wires of an expression have names, and its numbers a width.
pub open spec fn readable(e: NExpr) -> bool
    decreases e,
{
    match e {
        NExpr::Const { value, width } => width > 0,
        NExpr::Ref(n) => is_name(n),
        NExpr::Bin { op, l, r } => readable(*l) && readable(*r),
        NExpr::Un { op, e } => readable(*e),
        NExpr::Ternary { c, t, e } => readable(*c) && readable(*t) && readable(*e),
    }
}

// ---- reading back -------------------------------------------------------

/// Whether `t` has the text `x` at `i`.
pub open spec fn has(t: Text, i: int, x: Text) -> bool {
    0 <= i && i + x.len() <= t.len() && forall|k: int|
        0 <= k < x.len() ==> #[trigger] x[k] == t[i + k]
}

pub proof fn lemma_has_parts(t: Text, i: int, x: Text, y: Text)
    requires
        has(t, i, x + y),
    ensures
        has(t, i, x),
        has(t, i + x.len(), y),
{
    assert forall|k: int| 0 <= k < x.len() implies #[trigger] x[k] == t[i + k] by {
        assert((x + y)[k] == x[k]);
    }
    assert forall|k: int| 0 <= k < y.len() implies #[trigger] y[k] == t[i + x.len() + k] by {
        assert((x + y)[x.len() + k] == y[k]);
    }
}

pub proof fn lemma_digits_run(t: Text, i: int, n: int)
    requires
        0 <= i,
        0 <= n,
        i + n <= t.len(),
        forall|k: int| 0 <= k < n ==> is_digit(#[trigger] t[i + k]),
        !is_digit(char_at(t, i + n)),
    ensures
        digits_end(t, i) == i + n,
    decreases n,
{
    if n > 0 {
        assert(is_digit(t[i + 0]));
        assert forall|k: int| 0 <= k < n - 1 implies is_digit(#[trigger] t[i + 1 + k]) by {
            assert(is_digit(t[i + (k + 1)]));
        }
        lemma_digits_run(t, i + 1, n - 1);
    }
}

pub proof fn lemma_name_run(t: Text, i: int, n: int)
    requires
        0 <= i,
        0 <= n,
        i + n <= t.len(),
        forall|k: int| 0 <= k < n ==> in_name(#[trigger] t[i + k]),
        !in_name(char_at(t, i + n)),
    ensures
        name_end(t, i) == i + n,
    decreases n,
{
    if n > 0 {
        assert(in_name(t[i + 0]));
        assert forall|k: int| 0 <= k < n - 1 implies in_name(#[trigger] t[i + 1 + k]) by {
            assert(in_name(t[i + (k + 1)]));
        }
        lemma_name_run(t, i + 1, n - 1);
    }
}

/// The digits of a number write that number.
pub proof fn lemma_decimal(t: Text, i: int, n: nat)
    requires
        has(t, i, text::dec(n)),
    ensures
        decimal(t, i, i + text::dec(n).len()) == n,
        forall|k: int| 0 <= k < text::dec(n).len() ==> is_digit(#[trigger] t[i + k]),
        text::dec(n).len() > 0,
    decreases n,
{
    let x = text::dec(n);
    if n < 10 {
        assert(x[0] == t[i + 0]);
        assert(decimal(t, i, i + 1) == decimal(t, i, i) * 10 + (t[i] as int - '0' as int));
    } else {
        let y = text::dec(n / 10);
        let m = y.len() as int;
        assert(x == y.push(text::digit_char(n % 10)));
        assert forall|k: int| 0 <= k < m implies #[trigger] y[k] == t[i + k] by {
            assert(x[k] == y[k]);
        }
        lemma_decimal(t, i, n / 10);
        assert(x[m] == t[i + m]);
        assert(decimal(t, i, i + m + 1) == decimal(t, i, i + m) * 10 + (t[i + m] as int
            - '0' as int));
        assert forall|k: int| 0 <= k < x.len() implies is_digit(#[trigger] t[i + k]) by {
            if k < m {
                assert(is_digit(t[i + k]));
            }
        }
    }
}

proof fn lemma_read_const(t: Text, i: int, w: Wires, value: u128, width: u32)
    requires
        width > 0,
        has(t, i, NExpr::Const { value, width }.show()),
        !is_digit(char_at(t, i + NExpr::Const { value, width }.show().len())),
    ensures
        read(t, i, w) == Some(
            (
                netlist::truncated(value, width) as int,
                i + NExpr::Const { value, width }.show().len(),
            ),
        ),
{
    reveal_strlit("'d");
    let a = text::dec(width as nat);
    let b = text::dec(value as nat);
    assert(NExpr::Const { value, width }.show() == a + "'d"@ + b);
    lemma_has_parts(t, i, a + "'d"@, b);
    lemma_has_parts(t, i, a, "'d"@);
    lemma_decimal(t, i, width as nat);
    let j = i + a.len();
    let k = j + 2;
    assert("'d"@[0] == t[j + 0] && "'d"@[1] == t[j + 1]);
    lemma_digits_run(t, i, a.len() as int);
    lemma_decimal(t, k, value as nat);
    lemma_digits_run(t, k, b.len() as int);
    assert(is_digit(t[i + 0]));
    arith::lemma_two128();
    arith::law_wrap_range(value as int, width);
    if width > 128 {
        lemma_pow2_strictly_increases(128, width as nat);
        lemma_small_mod(value as nat, pow2(width as nat));
        lemma_small_mod(value as nat, pow2(128));
    }
}

/// Nothing that is written begins like a sign before an operand.
proof fn lemma_first(e: NExpr)
    requires
        readable(e),
    ensures
        e.show().len() > 0,
        e.show()[0] == '(' || in_name(e.show()[0]),
{
    reveal_strlit("(");
    match e {
        NExpr::Const { value, width } => {
            let a = text::dec(width as nat);
            wires::lemma_dec(width as nat);
            assert(e.show()[0] == a[0]);
            assert(wires::is_digit(a[0]));
        },
        NExpr::Ref(n) => {
            assert(in_name(n[0]));
        },
        NExpr::Bin { op, l, r } => {
            assert(e.show()[0] == "("@[0]);
        },
        NExpr::Un { op, e: x } => {
            assert(e.show()[0] == "("@[0]);
        },
        NExpr::Ternary { c, t, e: x } => {
            assert(e.show()[0] == "("@[0]);
        },
    }
}

/// A sign between blanks ends at the second one.
proof fn lemma_sign_run(t: Text, i: int, x: Text)
    requires
        has(t, i, x),
        char_at(t, i + x.len()) == ' ',
        forall|k: int| 0 <= k < x.len() ==> #[trigger] x[k] != ' ',
    ensures
        blank_from(t, i) == i + x.len(),
        t.subrange(i, i + x.len()) == x,
    decreases x.len(),
{
    assert(t.subrange(i, i + x.len()) =~= x);
    if x.len() > 0 {
        let y = x.subrange(1, x.len() as int);
        assert(x[0] == t[i + 0]);
        assert forall|k: int| 0 <= k < y.len() implies #[trigger] y[k] == t[i + 1 + k] && y[k]
            != ' ' by {
            assert(x[k + 1] == t[i + (k + 1)]);
        }
        lemma_sign_run(t, i + 1, y);
    }
}

proof fn lemma_sign_plain(op: BinOp)
    ensures
        netlist::binop_text(op).len() > 0,
        forall|k: int| 0 <= k < netlist::binop_text(op).len() ==> #[trigger] netlist::binop_text(
            op,
        )[k] != ' ',
        netlist::binop_text(op) != "?"@,
{
    reveal_strlit("+");
    reveal_strlit("-");
    reveal_strlit("*");
    reveal_strlit("/");
    reveal_strlit("%");
    reveal_strlit("&&");
    reveal_strlit("||");
    reveal_strlit("&");
    reveal_strlit("|");
    reveal_strlit("^");
    reveal_strlit("<<");
    reveal_strlit(">>");
    reveal_strlit("==");
    reveal_strlit("!=");
    reveal_strlit("<");
    reveal_strlit("<=");
    reveal_strlit(">");
    reveal_strlit(">=");
    reveal_strlit("?");
    let x = netlist::binop_text(op);
    assert(x[0] != '?');
    assert("?"@[0] == '?');
}

/// Reading the text of an expression gives its value.
pub proof fn lemma_read(t: Text, i: int, w: Wires, e: NExpr)
    requires
        readable(e),
        has(t, i, e.show()),
        !in_name(char_at(t, i + e.show().len())),
    ensures
        read(t, i, w) == Some((e.value(w) as int, i + e.show().len())),
    decreases e,
{
    lemma_first(e);
    assert(e.show()[0] == t[i + 0]);
    match e {
        NExpr::Const { value, width } => lemma_read_const(t, i, w, value, width),
        NExpr::Ref(n) => {
            assert forall|k: int| 0 <= k < n.len() implies in_name(#[trigger] t[i + k]) by {
                assert(n[k] == t[i + k]);
            }
            lemma_name_run(t, i, n.len() as int);
            assert(t.subrange(i, i + n.len()) =~= n);
        },
        NExpr::Bin { op, l, r } => {
            reveal_strlit("(");
            reveal_strlit(" ");
            reveal_strlit(")");
            let x = l.show();
            let s = netlist::binop_text(op);
            let y = r.show();
            lemma_sign_plain(op);
            assert(e.show() == "("@ + x + " "@ + s + " "@ + y + ")"@);
            lemma_has_parts(t, i, "("@ + x + " "@ + s + " "@ + y, ")"@);
            lemma_has_parts(t, i, "("@ + x + " "@ + s + " "@, y);
            lemma_has_parts(t, i, "("@ + x + " "@ + s, " "@);
            lemma_has_parts(t, i, "("@ + x + " "@, s);
            lemma_has_parts(t, i, "("@ + x, " "@);
            lemma_has_parts(t, i, "("@, x);
            let j = i + 1 + x.len();
            let k = j + 1 + s.len();
            let n = k + 1 + y.len();
            assert(" "@[0] == t[j + 0]);
            assert(" "@[0] == t[k + 0]);
            assert(")"@[0] == t[n + 0]);
            assert("("@[0] == t[i + 0]);
            lemma_first(*l);
            assert(x[0] == t[i + 1 + 0]);
            lemma_read(t, i + 1, w, *l);
            lemma_sign_run(t, j + 1, s);
            lemma_read(t, k + 1, w, *r);
            law_signs_compute(op, l.value(w), r.value(w));
        },
        NExpr::Un { op, e: x } => {
            reveal_strlit("(");
            reveal_strlit("-");
            reveal_strlit("~");
            reveal_strlit(")");
            let s = netlist::unop_text(op);
            let y = x.show();
            assert(e.show() == "("@ + s + y + ")"@);
            lemma_has_parts(t, i, "("@ + s + y, ")"@);
            lemma_has_parts(t, i, "("@ + s, y);
            lemma_has_parts(t, i, "("@, s);
            assert("("@[0] == t[i + 0]);
            assert(s[0] == t[i + 1 + 0]);
            assert(")"@[0] == t[i + 2 + y.len() + 0]);
            lemma_read(t, i + 2, w, *x);
            let v = x.value(w);
            arith::lemma_two128();
            lemma_mod_bound(-(v as int), pow2(128) as int);
            arith::lemma_word(-(v as int) - 1, (arith::two128() - 1 - v) as u128);
        },
        NExpr::Ternary { c, t: p, e: q } => {
            reveal_strlit("(");
            reveal_strlit(" ? ");
            reveal_strlit(" : ");
            reveal_strlit("?");
            reveal_strlit(")");
            let x = c.show();
            let y = p.show();
            let z = q.show();
            assert(e.show() == "("@ + x + " ? "@ + y + " : "@ + z + ")"@);
            lemma_has_parts(t, i, "("@ + x + " ? "@ + y + " : "@ + z, ")"@);
            lemma_has_parts(t, i, "("@ + x + " ? "@ + y + " : "@, z);
            lemma_has_parts(t, i, "("@ + x + " ? "@ + y, " : "@);
            lemma_has_parts(t, i, "("@ + x + " ? "@, y);
            lemma_has_parts(t, i, "("@ + x, " ? "@);
            lemma_has_parts(t, i, "("@, x);
            let j = i + 1 + x.len();
            let k = j + 3;
            let l = k + y.len();
            let n = l + 3 + z.len();
            assert("("@[0] == t[i + 0]);
            assert(" ? "@[0] == t[j + 0] && " ? "@[1] == t[j + 1] && " ? "@[2] == t[j + 2]);
            assert(" : "@[0] == t[l + 0] && " : "@[1] == t[l + 1] && " : "@[2] == t[l + 2]);
            assert(")"@[0] == t[n + 0]);
            lemma_first(*c);
            assert(x[0] == t[i + 1 + 0]);
            lemma_read(t, i + 1, w, *c);
            assert(has(t, j + 1, "?"@)) by {
                assert("?"@[0] == t[j + 1 + 0]);
            }
            lemma_sign_run(t, j + 1, "?"@);
            lemma_read(t, k, w, *p);
            lemma_read(t, l + 3, w, *q);
        },
    }
}

/// The text of an expression means what the expression means: read as an expression of
/// the target language, by its brackets and signs, it has the same value, whatever the
/// wires carry, and nothing is left of it.
pub proof fn law_text_of_expressions_is_read_back(e: NExpr, w: Wires)
    requires
        readable(e),
    ensures
        read(e.show(), 0, w) == Some((e.value(w) as int, e.show().len() as int)),
{
    lemma_read(e.show(), 0, w, e);
}

} // verus!
