//! What operators compute: from the characters that write an operator in a source text
//! to the number that comes out.

use crate::arith;
use crate::ast::AExpr;
use crate::diagnostic::Diag;
use crate::grammar;
use crate::ir::{self, BinOp, IntTy, TExpr, TKind, TModule, TType};
use crate::lexer;
use crate::semantics::{self, Flow, Mem};
use crate::span::Span;
use crate::token::KToken;
use crate::typing;
use crate::value::VVal;
use vstd::arithmetic::div_mod::*;
use vstd::arithmetic::mul::*;
use vstd::arithmetic::power2::*;
use vstd::prelude::*;

verus! {

// ---- binary digits ------------------------------------------------------

/// The binary digit of `x` that counts `2^k`; negative numbers in two's complement.
pub open spec fn bit(x: int, k: nat) -> bool {
    (x / (pow2(k) as int)) % 2 == 1
}

/// The digits below `2^e` are those of the remainder by `2^e`.
pub proof fn lemma_bit_mod(x: int, e: nat, k: nat)
    requires
        k < e,
    ensures
        bit(x, k) == bit(x % (pow2(e) as int), k),
{
    let p = pow2(k) as int;
    let h = pow2((e - k - 1) as nat) as int;
    let m = pow2(e) as int;
    lemma_pow2_pos(k);
    lemma_pow2_pos((e - k - 1) as nat);
    lemma_pow2_pos(e);
    lemma_pow2_adds(k, (e - k) as nat);
    lemma_pow2_unfold((e - k) as nat);
    assert(m == p * (2 * h));
    let r = x % m;
    let t = x / m;
    lemma_fundamental_div_mod(x, m);
    lemma_fundamental_div_mod(r, p);
    lemma_mod_bound(r, p);
    let a = r / p;
    let b = r % p;
    assert(x == (2 * h * t + a) * p + b) by (nonlinear_arith)
        requires
            x == m * t + r,
            r == p * a + b,
            m == p * (2 * h),
    ;
    lemma_fundamental_div_mod_converse(x, p, 2 * h * t + a, b);
    assert((2 * h * t + a) % 2 == a % 2) by {
        lemma_mod_multiples_vanish(h * t, a, 2);
        assert(2 * (h * t) == 2 * h * t) by (nonlinear_arith);
    }
}

proof fn lemma_shr(a: u128, k: u128)
    requires
        k < 128,
    ensures
        (a >> k) as int == a as int / (pow2(k as nat) as int),
    decreases k,
{
    if k == 0 {
        lemma2_to64();
        assert(a >> 0u128 == a) by (bit_vector);
        assert(pow2(0) == 1);
        lemma_div_basics(a as int);
    } else {
        let j = (k - 1) as u128;
        lemma_shr(a, j);
        lemma_pow2_unfold(k as nat);
        lemma_pow2_pos(j as nat);
        lemma_div_denominator(a as int, pow2(j as nat) as int, 2);
        assert(pow2(j as nat) as int * 2 == pow2(k as nat));
        assert(a >> k == (a >> j) / 2) by (bit_vector)
            requires
                0 < k < 128,
                j == k - 1,
        ;
    }
}

proof fn lemma_bit_word(a: u128, k: nat)
    requires
        k < 128,
    ensures
        bit(a as int, k) <==> (a >> (k as u128)) & 1 == 1,
{
    let j = k as u128;
    let s = a >> j;
    lemma_shr(a, j);
    assert((s & 1 == 1) == (s % 2 == 1)) by (bit_vector);
}

/// The digits of a bitwise result.
pub proof fn lemma_bits_of_words(a: u128, b: u128, k: nat)
    requires
        k < 128,
    ensures
        bit((a & b) as int, k) <==> bit(a as int, k) && bit(b as int, k),
        bit((a | b) as int, k) <==> bit(a as int, k) || bit(b as int, k),
        bit((a ^ b) as int, k) <==> bit(a as int, k) != bit(b as int, k),
{
    let j = k as u128;
    lemma_bit_word(a, k);
    lemma_bit_word(b, k);
    lemma_bit_word(a & b, k);
    lemma_bit_word(a | b, k);
    lemma_bit_word(a ^ b, k);
    assert(((a & b) >> j) & 1 == 1 <==> (a >> j) & 1 == 1 && (b >> j) & 1 == 1) by (bit_vector);
    assert(((a | b) >> j) & 1 == 1 <==> (a >> j) & 1 == 1 || (b >> j) & 1 == 1) by (bit_vector);
    assert(((a ^ b) >> j) & 1 == 1 <==> ((a >> j) & 1 == 1) != ((b >> j) & 1 == 1))
        by (bit_vector);
}

proof fn lemma_cast(a: i128)
    ensures
        (a as u128) as int == a as int % arith::two128(),
{
    let r = a as u128;
    assert(r == (if a < 0 {
        a + 0x1_0000_0000_0000_0000_0000_0000_0000_0000int
    } else {
        a as int
    })) by (bit_vector)
        requires
            r == a as u128,
    ;
    arith::lemma_word(a as int, r);
}

proof fn lemma_bit_signed(a: i128, k: nat)
    requires
        k < 128,
    ensures
        bit(a as int, k) == bit((a as u128) as int, k),
{
    lemma_cast(a);
    arith::lemma_two128();
    lemma_bit_mod(a as int, 128, k);
}

proof fn lemma_bits_of_integers(a: i128, b: i128, k: nat)
    requires
        k < 128,
    ensures
        bit((a & b) as int, k) <==> bit(a as int, k) && bit(b as int, k),
        bit((a | b) as int, k) <==> bit(a as int, k) || bit(b as int, k),
        bit((a ^ b) as int, k) <==> bit(a as int, k) != bit(b as int, k),
{
    let x = a as u128;
    let y = b as u128;
    lemma_bit_signed(a, k);
    lemma_bit_signed(b, k);
    lemma_bit_signed(a & b, k);
    lemma_bit_signed(a | b, k);
    lemma_bit_signed(a ^ b, k);
    lemma_bits_of_words(x, y, k);
    assert((a & b) as u128 == (a as u128) & (b as u128)) by (bit_vector);
    assert((a | b) as u128 == (a as u128) | (b as u128)) by (bit_vector);
    assert((a ^ b) as u128 == (a as u128) ^ (b as u128)) by (bit_vector);
}

// ---- signs --------------------------------------------------------------

/// The character at `i`; a blank behind the end.
pub open spec fn at(b: Seq<u8>, i: int) -> char {
    if 0 <= i < b.len() {
        b[i] as char
    } else {
        ' '
    }
}

/// The operator that is read at `i`.
pub open spec fn stands(b: Seq<u8>, i: int) -> Option<BinOp> {
    match lexer::operator_at(b, i) {
        Some((t, _)) => match grammar::infix_op(t) {
            Some(op) => Some(typing::lower_op(op)),
            None => None,
        },
        None => None,
    }
}

/// What the operator that is read at `i` makes of two values.
pub open spec fn outcome(b: Seq<u8>, i: int, l: VVal, r: VVal) -> Result<VVal, Flow> {
    semantics::binary(stands(b, i)->0, l, r)
}

/// Whether `v` is a number of the type `it`.
pub open spec fn holds(v: int, it: IntTy) -> bool {
    if it.signed {
        -pow2((it.width - 1) as nat) <= v < pow2((it.width - 1) as nat)
    } else {
        0 <= v < pow2(it.width as nat)
    }
}

/// Whether the outcome is the number of the type `it` that differs from `exact` by a
/// multiple of `2^w`.
pub open spec fn gives(o: Result<VVal, Flow>, it: IntTy, exact: int) -> bool {
    o matches Ok(VVal::Int(v, t)) && t == it && holds(v as int, it) && (v - exact) % (pow2(
        it.width as nat,
    ) as int) == 0
}

/// Whether the outcome is the `bit<w>` value that differs from `exact` by a multiple of
/// `2^w`.
pub open spec fn gives_bits(o: Result<VVal, Flow>, w: u32, exact: int) -> bool {
    o matches Ok(VVal::Bit(v, t)) && t == w && v < pow2(w as nat) && (v - exact) % (pow2(
        w as nat,
    ) as int) == 0
}

proof fn lemma_gives(x: int, it: IntTy)
    requires
        1 <= it.width < 128,
    ensures
        gives(semantics::int_result(Ok(x), it), it, x),
{
    arith::law_norm_range(x, it);
    arith::lemma_two128();
    lemma_pow2_pos(it.width as nat);
    let v = arith::norm(x, it);
    assert(v == v as i128);
    lemma_mod_equivalence(v, x, pow2(it.width as nat) as int);
}

proof fn lemma_gives_bits(x: int, w: u32)
    requires
        1 <= w <= 128,
    ensures
        gives_bits(semantics::bit_result(Ok(x), w), w, x),
{
    arith::law_wrap_range(x, w);
    arith::lemma_two128();
    lemma_pow2_pos(w as nat);
    let v = arith::wrap(x, w);
    assert(v == v as u128);
    lemma_mod_equivalence(v, x, pow2(w as nat) as int);
}

proof fn lemma_divides(x: int, y: int, q: int, r: int)
    requires
        y != 0,
        x == q * y + r,
        if y < 0 {
            y < r < -y
        } else {
            -y < r < y
        },
        r == 0 || (r < 0 <==> x < 0),
    ensures
        arith::quotient(x, y) == q,
        arith::remainder(x, y) == r,
{
    let a = arith::magnitude(x);
    let c = arith::magnitude(y);
    let n = if (x < 0) == (y < 0) {
        q
    } else {
        -q
    };
    let m = if x < 0 {
        -r
    } else {
        r
    };
    assert(a == n * c + m) by (nonlinear_arith)
        requires
            x == q * y + r,
            a == (if x < 0 {
                -x
            } else {
                x
            }),
            c == (if y < 0 {
                -y
            } else {
                y
            }),
            n == (if (x < 0) == (y < 0) {
                q
            } else {
                -q
            }),
            m == (if x < 0 {
                -r
            } else {
                r
            }),
    ;
    lemma_fundamental_div_mod_converse(a, c, n, m);
}

/// The arithmetic operators on machine integers, as they are written: each gives the
/// number of the type that differs from the sum, the difference, the product, the
/// quotient or the remainder by a multiple of `2^w`. A quotient is rounded towards zero;
/// dividing by zero gives none.
pub proof fn law_integer_signs(b: Seq<u8>, i: int, x: i128, y: i128, it: IntTy, q: int, r: int)
    requires
        0 <= i < b.len(),
        1 <= it.width < 128,
        y != 0 ==> x == q * y + r && (r == 0 || (r < 0 <==> x < 0)) && if y < 0 {
            y < r < -y
        } else {
            -y < r < y
        },
    ensures
        ({
            let c = at(b, i);
            let d = at(b, i + 1);
            let o = outcome(b, i, VVal::Int(x, it), VVal::Int(y, it));
            &&& c == '+' ==> stands(b, i) is Some && gives(o, it, x + y)
            &&& c == '-' && d != '>' ==> stands(b, i) is Some && gives(o, it, x - y)
            &&& c == '*' ==> stands(b, i) is Some && gives(o, it, x * y)
            &&& c == '/' ==> stands(b, i) is Some && if y == 0 {
                o is Err
            } else {
                gives(o, it, q)
            }
            &&& c == '%' ==> stands(b, i) is Some && if y == 0 {
                o is Err
            } else {
                gives(o, it, r)
            }
        }),
{
    lemma_gives(x + y, it);
    lemma_gives(x - y, it);
    lemma_gives(x * y, it);
    if y != 0 {
        lemma_divides(x as int, y as int, q, r);
        lemma_gives(q, it);
        lemma_gives(r, it);
    }
}

/// The arithmetic operators on `bit<w>` values, as they are written.
pub proof fn law_bit_signs(b: Seq<u8>, i: int, x: u128, y: u128, w: u32, q: int, r: int)
    requires
        0 <= i < b.len(),
        1 <= w <= 128,
        y != 0 ==> x == q * y + r && 0 <= r < y,
    ensures
        ({
            let c = at(b, i);
            let d = at(b, i + 1);
            let o = outcome(b, i, VVal::Bit(x, w), VVal::Bit(y, w));
            &&& c == '+' ==> stands(b, i) is Some && gives_bits(o, w, x + y)
            &&& c == '-' && d != '>' ==> stands(b, i) is Some && gives_bits(o, w, x - y)
            &&& c == '*' ==> stands(b, i) is Some && gives_bits(o, w, x * y)
            &&& c == '/' ==> stands(b, i) is Some && if y == 0 {
                o is Err
            } else {
                gives_bits(o, w, q)
            }
            &&& c == '%' ==> stands(b, i) is Some && if y == 0 {
                o is Err
            } else {
                gives_bits(o, w, r)
            }
        }),
{
    lemma_gives_bits(x + y, w);
    lemma_gives_bits(x - y, w);
    lemma_gives_bits(x * y, w);
    if y != 0 {
        lemma_fundamental_div_mod_converse(x as int, y as int, q, r);
        lemma_gives_bits(q, w);
        lemma_gives_bits(r, w);
    }
}

/// The bitwise operators on machine integers, as they are written: a digit of `x & y` is
/// set if it is set in both, of `x | y` if in one or both, and of `x ^ y` if in one alone.
pub proof fn law_integer_digits(b: Seq<u8>, i: int, x: i128, y: i128, it: IntTy, k: nat)
    requires
        0 <= i < b.len(),
        1 <= it.width < 128,
        k < it.width,
    ensures
        ({
            let c = at(b, i);
            let d = at(b, i + 1);
            let o = outcome(b, i, VVal::Int(x, it), VVal::Int(y, it));
            let p = bit(x as int, k);
            let q = bit(y as int, k);
            &&& c == '&' && d != '&' ==> stands(b, i) is Some && (o matches Ok(VVal::Int(v, t))
                && t == it && holds(v as int, it) && (bit(v as int, k) <==> p && q))
            &&& c == '|' && d != '|' ==> stands(b, i) is Some && (o matches Ok(VVal::Int(v, t))
                && t == it && holds(v as int, it) && (bit(v as int, k) <==> p || q))
            &&& c == '^' ==> stands(b, i) is Some && (o matches Ok(VVal::Int(v, t)) && t == it
                && holds(v as int, it) && (bit(v as int, k) <==> p != q))
        }),
{
    lemma_bits_of_integers(x, y, k);
    lemma_digit_kept((x & y) as int, it, k);
    lemma_digit_kept((x | y) as int, it, k);
    lemma_digit_kept((x ^ y) as int, it, k);
}

proof fn lemma_digit_kept(x: int, it: IntTy, k: nat)
    requires
        1 <= it.width < 128,
        k < it.width,
    ensures
        semantics::int_result(Ok(x), it) matches Ok(VVal::Int(v, t)) && t == it && holds(
            v as int,
            it,
        ) && bit(v as int, k) == bit(x, k),
{
    arith::law_norm_range(x, it);
    arith::lemma_two128();
    let v = arith::norm(x, it);
    assert(v == v as i128);
    lemma_bit_mod(x, it.width as nat, k);
    lemma_bit_mod(v, it.width as nat, k);
}

proof fn lemma_bit_digit_kept(x: int, w: u32, k: nat)
    requires
        1 <= w <= 128,
        k < w,
    ensures
        semantics::bit_result(Ok(x), w) matches Ok(VVal::Bit(v, t)) && t == w && v < pow2(w as nat)
            && bit(v as int, k) == bit(x, k),
{
    arith::law_wrap_range(x, w);
    arith::lemma_two128();
    let v = arith::wrap(x, w);
    assert(v == v as u128);
    lemma_bit_mod(x, w as nat, k);
    lemma_bit_mod(v, w as nat, k);
}

/// The bitwise operators on `bit<w>` values, as they are written.
pub proof fn law_bit_digits(b: Seq<u8>, i: int, x: u128, y: u128, w: u32, k: nat)
    requires
        0 <= i < b.len(),
        1 <= w <= 128,
        k < w,
    ensures
        ({
            let c = at(b, i);
            let d = at(b, i + 1);
            let o = outcome(b, i, VVal::Bit(x, w), VVal::Bit(y, w));
            let p = bit(x as int, k);
            let q = bit(y as int, k);
            &&& c == '&' && d != '&' ==> stands(b, i) is Some && (o matches Ok(VVal::Bit(v, t))
                && t == w && v < pow2(w as nat) && (bit(v as int, k) <==> p && q))
            &&& c == '|' && d != '|' ==> stands(b, i) is Some && (o matches Ok(VVal::Bit(v, t))
                && t == w && v < pow2(w as nat) && (bit(v as int, k) <==> p || q))
            &&& c == '^' ==> stands(b, i) is Some && (o matches Ok(VVal::Bit(v, t)) && t == w && v
                < pow2(w as nat) && (bit(v as int, k) <==> p != q))
        }),
{
    lemma_bits_of_words(x, y, k);
    lemma_bit_digit_kept((x & y) as int, w, k);
    lemma_bit_digit_kept((x | y) as int, w, k);
    lemma_bit_digit_kept((x ^ y) as int, w, k);
}

/// The number that an integer or a bit-vector stands for.
pub open spec fn number(v: VVal) -> int {
    match v {
        VVal::Int(n, _) => n as int,
        VVal::Bit(n, _) => n as int,
        _ => 0,
    }
}

/// Shifts of machine integers, as they are written: by `n` places, `n` the amount modulo
/// the width, to the left is times `2^n`, and to the right is divided by `2^n`, rounded
/// down, so that the sign is kept.
pub proof fn law_integer_shifts(b: Seq<u8>, i: int, x: i128, r: VVal, it: IntTy, n: nat)
    requires
        0 <= i < b.len(),
        1 <= it.width < 128,
        holds(x as int, it),
        r is Int || r is Bit,
        0 <= number(r),
        n == number(r) % (it.width as int),
    ensures
        ({
            let o = outcome(b, i, VVal::Int(x, it), r);
            &&& at(b, i) == '<' && at(b, i + 1) == '<' ==> stands(b, i) is Some && gives(
                o,
                it,
                x * pow2(n),
            )
            &&& at(b, i) == '>' && at(b, i + 1) == '>' ==> stands(b, i) is Some && o == Ok::<
                VVal,
                Flow,
            >(VVal::Int((x as int / (pow2(n) as int)) as i128, it)) && i128::MIN <= x as int / (
            pow2(n) as int) <= i128::MAX
        }),
{
    let y = number(r);
    let p = pow2(n) as int;
    arith::lemma_two128();
    arith::lemma_signed_pattern(y);
    lemma_small_mod(y as nat, arith::two128() as nat);
    lemma_gives(x * pow2(n), it);
    lemma_pow2_pos(n);
    lemma_pow2_pos((it.width - 1) as nat);
    lemma_pow2_pos(it.width as nat);
    lemma_fundamental_div_mod(x as int, p);
    lemma_mod_bound(x as int, p);
    let v = x as int / p;
    assert(x >= 0 ==> 0 <= v <= x) by (nonlinear_arith)
        requires
            x == p * v + x as int % p,
            0 <= x as int % p < p,
            p >= 1,
    ;
    assert(x < 0 ==> x <= v < 0) by (nonlinear_arith)
        requires
            x == p * v + x as int % p,
            0 <= x as int % p < p,
            p >= 1,
    ;
    arith::law_norm_range(v, it);
    if !it.signed {
        lemma_small_mod(x as nat, arith::two128() as nat);
    }
}

/// Shifts of `bit<w>` values, as they are written: by `n` places, `n` the amount modulo
/// the width, to the left is times `2^n`, and to the right is divided by `2^n`, rounded
/// down.
pub proof fn law_bit_shifts(b: Seq<u8>, i: int, x: u128, r: VVal, w: u32, n: nat)
    requires
        0 <= i < b.len(),
        1 <= w <= 128,
        x < pow2(w as nat),
        r is Int || r is Bit,
        0 <= number(r),
        n == number(r) % (w as int),
    ensures
        ({
            let o = outcome(b, i, VVal::Bit(x, w), r);
            &&& at(b, i) == '<' && at(b, i + 1) == '<' ==> stands(b, i) is Some && gives_bits(
                o,
                w,
                x * pow2(n),
            )
            &&& at(b, i) == '>' && at(b, i + 1) == '>' ==> stands(b, i) is Some && o == Ok::<
                VVal,
                Flow,
            >(VVal::Bit((x as int / (pow2(n) as int)) as u128, w)) && 0 <= x as int / (pow2(
                n,
            ) as int) <= x
        }),
{
    let y = number(r);
    let p = pow2(n) as int;
    arith::lemma_two128();
    lemma_small_mod(y as nat, arith::two128() as nat);
    lemma_gives_bits(x * pow2(n), w);
    lemma_pow2_pos(n);
    lemma_fundamental_div_mod(x as int, p);
    lemma_mod_bound(x as int, p);
    let v = x as int / p;
    assert(0 <= v <= x) by (nonlinear_arith)
        requires
            x == p * v + x as int % p,
            0 <= x as int % p < p,
            p >= 1,
            x >= 0,
    ;
    lemma_small_mod(v as nat, pow2(w as nat));
}

/// The comparisons, as they are written: of integers and bit-vectors by their numbers,
/// and of truth values whether they are the same.
pub proof fn law_comparison_signs(b: Seq<u8>, i: int, l: VVal, r: VVal)
    requires
        0 <= i < b.len(),
        (l is Int && r is Int) || (l is Bit && r is Bit),
    ensures
        ({
            let c = at(b, i);
            let d = at(b, i + 1);
            let x = number(l);
            let y = number(r);
            let o = outcome(b, i, l, r);
            &&& c == '=' && d == '=' ==> stands(b, i) is Some && o == Ok::<VVal, Flow>(
                VVal::Bool(x == y),
            )
            &&& c == '!' && d == '=' ==> stands(b, i) is Some && o == Ok::<VVal, Flow>(
                VVal::Bool(x != y),
            )
            &&& c == '<' && d == '=' ==> stands(b, i) is Some && o == Ok::<VVal, Flow>(
                VVal::Bool(x <= y),
            )
            &&& c == '>' && d == '=' ==> stands(b, i) is Some && o == Ok::<VVal, Flow>(
                VVal::Bool(x >= y),
            )
            &&& c == '<' && d != '=' && d != '<' ==> stands(b, i) is Some && o == Ok::<VVal, Flow>(
                VVal::Bool(x < y),
            )
            &&& c == '>' && d != '=' && d != '>' ==> stands(b, i) is Some && o == Ok::<VVal, Flow>(
                VVal::Bool(x > y),
            )
        }),
{
}

/// Truth values are compared for being the same.
pub proof fn law_truth_value_signs(b: Seq<u8>, i: int, p: bool, q: bool)
    requires
        0 <= i < b.len(),
        at(b, i + 1) == '=',
    ensures
        at(b, i) == '=' ==> stands(b, i) is Some && outcome(b, i, VVal::Bool(p), VVal::Bool(q))
            == Ok::<VVal, Flow>(VVal::Bool(p == q)),
        at(b, i) == '!' ==> stands(b, i) is Some && outcome(b, i, VVal::Bool(p), VVal::Bool(q))
            == Ok::<VVal, Flow>(VVal::Bool(p != q)),
{
}

/// `&&` and `||`, as they are written: the left operand decides where it can, and the
/// right one is not evaluated then; else the right one decides.
pub proof fn law_logical_signs(
    b: Seq<u8>,
    i: int,
    m: TModule,
    fuel: nat,
    lhs: TExpr,
    rhs: TExpr,
    ty: TType,
    s: Mem,
    p: bool,
)
    requires
        0 <= i < b.len(),
        fuel > 0,
        at(b, i + 1) == at(b, i),
        semantics::eval_expr(m, (fuel - 1) as nat, lhs, s).0 == Ok::<VVal, Flow>(VVal::Bool(p)),
    ensures
        ({
            let f = (fuel - 1) as nat;
            let e = TExpr {
                kind: TKind::Binary {
                    op: stands(b, i)->0,
                    lhs: Box::new(lhs),
                    rhs: Box::new(rhs),
                },
                ty,
            };
            let s1 = semantics::eval_expr(m, f, lhs, s).1;
            let r = semantics::eval_expr(m, fuel, e, s);
            let second = semantics::eval_expr(m, f, rhs, s1);
            &&& at(b, i) == '&' ==> stands(b, i) is Some && if p {
                second.0 matches Ok(VVal::Bool(q)) ==> r == (
                    Ok::<VVal, Flow>(VVal::Bool(q)),
                    second.1,
                )
            } else {
                r == (Ok::<VVal, Flow>(VVal::Bool(false)), s1)
            }
            &&& at(b, i) == '|' ==> stands(b, i) is Some && if p {
                r == (Ok::<VVal, Flow>(VVal::Bool(true)), s1)
            } else {
                second.0 matches Ok(VVal::Bool(q)) ==> r == (
                    Ok::<VVal, Flow>(VVal::Bool(q)),
                    second.1,
                )
            }
        }),
{
}

/// `-` and `!` before an operand, as they are written: `-` gives the number of the type
/// that adds up to zero with the operand, and `!` turns every digit, or a truth value,
/// round.
pub proof fn law_prefix_signs(
    b: Seq<u8>,
    i: int,
    ts: Seq<KToken>,
    p: int,
    allow: bool,
    inner: TExpr,
    sp: Span,
)
    requires
        0 <= i < b.len(),
        lexer::operator_at(b, i) matches Some((t, n)) && n == 1 && t == grammar::tok_at(ts, p),
        at(b, i) == '-' || at(b, i) == '!',
        grammar::prefix(ts, p + 1, allow) is Ok,
        inner.ty matches TType::Int(it) ==> it.signed || at(b, i) == '!',
        inner.ty is Int || inner.ty is Bit || (inner.ty is Bool && at(b, i) == '!'),
    ensures
        grammar::prefix(ts, p, allow) matches Ok((AExpr::Unary { op, expr, span }, q)) && Ok::<
            (AExpr, int),
            Diag,
        >((*expr, q)) == grammar::prefix(ts, p + 1, allow) && (typing::unary_rule(op, inner, sp)
            matches Ok(e) && e.ty == inner.ty && (e.kind matches TKind::Unary { op: o, expr: x }
            && *x == inner && turns(at(b, i), o))),
{
    reveal(typing::unary_rule);
    assert(turns(at(b, i), if at(b, i) == '-' {
        ir::UnOp::Neg
    } else {
        ir::UnOp::Not
    })) by {
        lemma_turns(at(b, i));
    }
}

/// Whether `o` does what the sign says, to every value.
pub open spec fn turns(sign: char, o: ir::UnOp) -> bool {
    &&& forall|n: i128, it: IntTy|
        1 <= it.width < 128 ==> if sign == '-' {
            gives(#[trigger] semantics::unary(o, VVal::Int(n, it)), it, -n)
        } else {
            flips(semantics::unary(o, VVal::Int(n, it)), VVal::Int(n, it), it.width)
        }
    &&& forall|n: u128, w: u32|
        1 <= w <= 128 ==> if sign == '-' {
            gives_bits(#[trigger] semantics::unary(o, VVal::Bit(n, w)), w, -n)
        } else {
            flips(semantics::unary(o, VVal::Bit(n, w)), VVal::Bit(n, w), w)
        }
    &&& sign == '!' ==> forall|p: bool| #[trigger]
        semantics::unary(o, VVal::Bool(p)) == Ok::<VVal, Flow>(VVal::Bool(!p))
}

/// Whether the outcome is of the kind of `v` and differs from it in every digit.
pub open spec fn flips(o: Result<VVal, Flow>, v: VVal, w: u32) -> bool {
    o matches Ok(r) && (match (v, r) {
        (VVal::Int(_, it), VVal::Int(x, t)) => t == it && holds(x as int, it),
        (VVal::Bit(_, a), VVal::Bit(x, t)) => t == a && x < pow2(a as nat),
        _ => false,
    }) && forall|k: nat| k < w ==> #[trigger] bit(number(r), k) != bit(number(v), k)
}

/// The digits of `-x - 1` are those of `x` turned round.
proof fn lemma_flip(x: int, k: nat)
    ensures
        bit(-x - 1, k) != bit(x, k),
{
    let p = pow2(k) as int;
    lemma_pow2_pos(k);
    lemma_fundamental_div_mod(x, p);
    lemma_mod_bound(x, p);
    let q = x / p;
    let r = x % p;
    assert(-x - 1 == (-q - 1) * p + (p - 1 - r)) by (nonlinear_arith)
        requires
            x == p * q + r,
    ;
    lemma_fundamental_div_mod_converse(-x - 1, p, -q - 1, p - 1 - r);
}

proof fn lemma_turns(sign: char)
    requires
        sign == '-' || sign == '!',
    ensures
        turns(sign, if sign == '-' {
            ir::UnOp::Neg
        } else {
            ir::UnOp::Not
        }),
{
    let o = if sign == '-' {
        ir::UnOp::Neg
    } else {
        ir::UnOp::Not
    };
    assert forall|n: i128, it: IntTy| 1 <= it.width < 128 implies if sign == '-' {
        gives(#[trigger] semantics::unary(o, VVal::Int(n, it)), it, -n)
    } else {
        flips(semantics::unary(o, VVal::Int(n, it)), VVal::Int(n, it), it.width)
    } by {
        let r = semantics::unary(o, VVal::Int(n, it));
        if sign == '-' {
            lemma_gives(-(n as int), it);
        } else {
            let x = -(n as int) - 1;
            lemma_gives(x, it);
            assert forall|k: nat| k < it.width implies #[trigger] bit(number(r->Ok_0), k) != bit(
                number(VVal::Int(n, it)),
                k,
            ) by {
                lemma_digit_kept(x, it, k);
                lemma_flip(n as int, k);
            }
        }
    }
    assert forall|n: u128, w: u32| 1 <= w <= 128 implies if sign == '-' {
        gives_bits(#[trigger] semantics::unary(o, VVal::Bit(n, w)), w, -n)
    } else {
        flips(semantics::unary(o, VVal::Bit(n, w)), VVal::Bit(n, w), w)
    } by {
        let r = semantics::unary(o, VVal::Bit(n, w));
        if sign == '-' {
            lemma_gives_bits(-(n as int), w);
        } else {
            let x = -(n as int) - 1;
            lemma_gives_bits(x, w);
            assert forall|k: nat| k < w implies #[trigger] bit(number(r->Ok_0), k) != bit(
                number(VVal::Bit(n, w)),
                k,
            ) by {
                lemma_bit_digit_kept(x, w, k);
                lemma_flip(n as int, k);
            }
        }
    }
}

} // verus!
