//! The facts behind the lowering rules: what wires carry, that numbered names do
//! not collide, that operators on wires agree with operators on values, and that
//! lowering only adds items.

use crate::arith;
use crate::ir::{BinOp, TArm, TBlock, TExpr, TKind, TModule, TParam, TStmt, TType, UnOp};
use crate::lowering::{self, Lo, Nets, Scalar, TNet};
use crate::netlist::{self, NExpr, NItem, Wires};
use crate::semantics;
use crate::text::{self, Text};
use crate::value::VVal;
use vstd::arithmetic::div_mod::*;
use vstd::arithmetic::power2::*;
use vstd::prelude::*;

verus! {

// ---- values and wires ---------------------------------------------------

/// Whether `v` is a value of the scalar type, within its range.
pub open spec fn typed(v: VVal, kind: Scalar) -> bool {
    match v {
        VVal::Bool(_) => kind == Scalar::Bool,
        VVal::Bit(x, w) => kind == Scalar::Bit(w) && x < pow2(arith::bits_of_width(w)),
        _ => false,
    }
}

/// The bits of a scalar value.
pub open spec fn bits(v: VVal) -> u128 {
    match v {
        VVal::Bit(x, _) => x,
        VVal::Bool(b) => netlist::bit_of(b),
        _ => 0,
    }
}

/// Whether `x` fits on a wire for values of the scalar type.
pub open spec fn in_kind(x: u128, kind: Scalar) -> bool {
    x < pow2(arith::bits_of_width(kind.width()))
}

/// Whether the value of a net is settled: a literal, or a wire that is driven.
pub open spec fn steady(n: TNet, w: Wires) -> bool {
    &&& in_kind(n.expr.value(w), n.kind)
    &&& match n.expr {
        NExpr::Const { value, width } => true,
        NExpr::Ref(x) => semantics::slot(w, x) is Some,
        _ => false,
    }
}

/// Whether a net carries the value `v`.
pub open spec fn carries(v: VVal, n: TNet, w: Wires) -> bool {
    steady(n, w) && typed(v, n.kind) && n.expr.value(w) == bits(v)
}

/// Whether every wire of `a` is one of `b`, with the same value.
pub open spec fn extends(a: Wires, b: Wires) -> bool {
    forall|x: Text| #[trigger]
        semantics::slot(a, x) is Some ==> semantics::slot(b, x) is Some && netlist::on_wire(b, x)
            == netlist::on_wire(a, x)
}

pub proof fn lemma_extends_trans(a: Wires, b: Wires, c: Wires)
    requires
        extends(a, b),
        extends(b, c),
    ensures
        extends(a, c),
{
    assert forall|x: Text| #[trigger] semantics::slot(a, x) is Some implies semantics::slot(c, x) is Some
        && netlist::on_wire(c, x) == netlist::on_wire(a, x) by {
        assert(semantics::slot(b, x) is Some);
    }
}

pub proof fn lemma_steady(n: TNet, a: Wires, b: Wires)
    requires
        steady(n, a),
        extends(a, b),
    ensures
        steady(n, b),
        n.expr.value(b) == n.expr.value(a),
{
    match n.expr {
        NExpr::Ref(x) => {
            assert(semantics::slot(a, x) is Some);
        },
        _ => {},
    }
}

pub proof fn lemma_slot_bound<T>(env: Seq<(Text, T)>, x: Text, i: int)
    requires
        semantics::slot_before(env, x, i) is Some,
    ensures
        0 <= semantics::slot_before(env, x, i)->Some_0 < i <= env.len(),
        env[semantics::slot_before(env, x, i)->Some_0].0 == x,
    decreases i,
{
    if env[i - 1].0 != x {
        lemma_slot_bound(env, x, i - 1);
    }
}

pub proof fn lemma_slot_before_push<T>(env: Seq<(Text, T)>, e: (Text, T), x: Text, i: int)
    requires
        0 <= i <= env.len(),
    ensures
        semantics::slot_before(env.push(e), x, i) == semantics::slot_before(env, x, i),
    decreases i,
{
    if i > 0 {
        assert(env.push(e)[i - 1] == env[i - 1]);
        lemma_slot_before_push(env, e, x, i - 1);
    }
}

/// What is found once another entry stands behind.
pub proof fn lemma_slot_push<T>(env: Seq<(Text, T)>, e: (Text, T), x: Text)
    ensures
        semantics::slot(env.push(e), x) == if x == e.0 {
            Some(env.len() as int)
        } else {
            semantics::slot(env, x)
        },
{
    lemma_slot_before_push(env, e, x, env.len() as int);
}

/// The same names are found at the same places.
pub proof fn lemma_slot_same<A, B>(a: Seq<(Text, A)>, b: Seq<(Text, B)>, x: Text, i: int)
    requires
        a.len() == b.len(),
        forall|j: int| 0 <= j < a.len() ==> (#[trigger] a[j]).0 == b[j].0,
        0 <= i <= a.len(),
    ensures
        semantics::slot_before(a, x, i) == semantics::slot_before(b, x, i),
    decreases i,
{
    if i > 0 {
        assert(a[i - 1].0 == b[i - 1].0);
        lemma_slot_same(a, b, x, i - 1);
    }
}

/// Where the names are distinct, each is found at its own place.
pub proof fn lemma_slot_distinct<T>(a: Seq<(Text, T)>, k: int, i: int)
    requires
        0 <= k < i <= a.len(),
        forall|x: int, y: int| 0 <= x < y < a.len() ==> (#[trigger] a[x]).0 != (#[trigger] a[y]).0,
    ensures
        semantics::slot_before(a, a[k].0, i) == Some(k),
    decreases i,
{
    if k < i - 1 {
        assert(a[k].0 != a[i - 1].0);
        lemma_slot_distinct(a, k, i - 1);
    }
}

// ---- numbered names -----------------------------------------------------

pub open spec fn is_digit(c: char) -> bool {
    '0' <= c && c <= '9'
}

/// Whether names made of `p` and a number can be told apart by the number.
pub open spec fn is_stem(p: Text) -> bool {
    p.len() > 0 && !is_digit(p.last())
}

pub proof fn lemma_digit(n: nat)
    requires
        n < 10,
    ensures
        is_digit(text::digit_char(n)),
        forall|k: nat| k < 10 && text::digit_char(k) == text::digit_char(n) ==> k == n,
{
}

pub proof fn lemma_dec(n: nat)
    ensures
        text::dec(n).len() > 0,
        forall|i: int| 0 <= i < text::dec(n).len() ==> is_digit(#[trigger] text::dec(n)[i]),
        n >= 10 ==> text::dec(n).len() > 1,
    decreases n,
{
    if n < 10 {
        lemma_digit(n);
    } else {
        lemma_dec(n / 10);
        lemma_digit(n % 10);
        let d = text::dec(n / 10);
        assert forall|i: int| 0 <= i < text::dec(n).len() implies is_digit(
            #[trigger] text::dec(n)[i],
        ) by {
            if i < d.len() {
                assert(text::dec(n)[i] == d[i]);
            }
        }
    }
}

pub proof fn lemma_dec_injective(a: nat, b: nat)
    requires
        text::dec(a) == text::dec(b),
    ensures
        a == b,
    decreases a,
{
    lemma_dec(a);
    lemma_dec(b);
    if a < 10 && b < 10 {
        lemma_digit(a);
        assert(text::dec(a)[0] == text::digit_char(a));
        assert(text::dec(b)[0] == text::digit_char(b));
    } else if a >= 10 && b >= 10 {
        let x = text::dec(a / 10);
        let y = text::dec(b / 10);
        assert(text::dec(a).drop_last() =~= x);
        assert(text::dec(b).drop_last() =~= y);
        assert(text::dec(a).last() == text::digit_char(a % 10));
        assert(text::dec(b).last() == text::digit_char(b % 10));
        lemma_dec_injective(a / 10, b / 10);
        lemma_digit(a % 10);
    }
}

/// Numbered names with different numbers differ.
pub proof fn lemma_number_unique(p: Text, a: nat, q: Text, b: nat)
    requires
        is_stem(p),
        is_stem(q),
        lowering::fresh(p, a) == lowering::fresh(q, b),
    ensures
        a == b,
{
    let x = text::dec(a);
    let y = text::dec(b);
    let s = lowering::fresh(p, a);
    lemma_dec(a);
    lemma_dec(b);
    assert(s.len() == p.len() + x.len() && s.len() == q.len() + y.len());
    if x.len() < y.len() {
        assert(s[p.len() - 1] == p.last());
        assert(s[p.len() - 1] == y[p.len() - 1 - q.len()]);
    } else if y.len() < x.len() {
        assert(s[q.len() - 1] == q.last());
        assert(s[q.len() - 1] == x[q.len() - 1 - p.len()]);
    } else {
        assert(x =~= y) by {
            assert forall|i: int| 0 <= i < x.len() implies x[i] == y[i] by {
                assert(s[p.len() + i] == x[i]);
                assert(s[q.len() + i] == y[i]);
            }
        }
        lemma_dec_injective(a, b);
    }
}

pub proof fn lemma_stem(p: Text, n: nat)
    requires
        is_stem(p),
    ensures
        is_stem(p + lowering::underscores(n)),
{
    if n > 0 {
        assert((p + lowering::underscores(n)).last() == '_');
    } else {
        assert(p + lowering::underscores(n) =~= p);
    }
}

pub proof fn lemma_stems()
    ensures
        is_stem("w"@),
        is_stem("call"@),
        forall|n: Text| is_stem(#[trigger] lowering::variable_prefix(n)),
{
    reveal_strlit("w");
    reveal_strlit("call");
    reveal_strlit("_");
    assert forall|n: Text| is_stem(#[trigger] lowering::variable_prefix(n)) by {
        let p = lowering::variable_prefix(n);
        assert(p.last() == '_');
    }
}

/// Whether a name is that of a parameter or a numbered one below `t`.
pub open spec fn known(x: Text, t: nat, ps: Seq<TParam>) -> bool {
    (exists|j: int| 0 <= j < ps.len() && (#[trigger] ps[j]).name == x) || exists|p: Text, k: nat|
        k < t && is_stem(p) && x == #[trigger] lowering::fresh(p, k)
}

/// Whether all wires are parameters or have a number below `t`.
pub open spec fn grounded(w: Wires, t: nat, ps: Seq<TParam>) -> bool {
    forall|i: int| 0 <= i < w.len() ==> known((#[trigger] w[i]).0, t, ps)
}

pub proof fn lemma_grounded_more(w: Wires, t: nat, u: nat, ps: Seq<TParam>)
    requires
        grounded(w, t, ps),
        t <= u,
    ensures
        grounded(w, u, ps),
{
    assert forall|i: int| 0 <= i < w.len() implies known((#[trigger] w[i]).0, u, ps) by {
        let x = w[i].0;
        assert(known(x, t, ps));
        if !(exists|j: int| 0 <= j < ps.len() && (#[trigger] ps[j]).name == x) {
            let (p, k) = choose|p: Text, k: nat|
                k < t && is_stem(p) && x == #[trigger] lowering::fresh(p, k);
            assert(k < u && x == lowering::fresh(p, k));
        }
    }
}

/// A new numbered wire leaves the others as they are.
pub proof fn lemma_new_wire(w: Wires, p: Text, t: nat, v: u128, ps: Seq<TParam>)
    requires
        grounded(w, t, ps),
        is_stem(p),
        forall|j: int| 0 <= j < ps.len() ==> (#[trigger] ps[j]).name != lowering::fresh(p, t),
    ensures
        extends(w, w.push((lowering::fresh(p, t), v))),
        grounded(w.push((lowering::fresh(p, t), v)), t + 1, ps),
        semantics::slot(w.push((lowering::fresh(p, t), v)), lowering::fresh(p, t)) == Some(
            w.len() as int,
        ),
        netlist::on_wire(w.push((lowering::fresh(p, t), v)), lowering::fresh(p, t)) == v,
{
    let x = lowering::fresh(p, t);
    let e = (x, v);
    let w1 = w.push(e);
    assert forall|y: Text| #[trigger] semantics::slot(w, y) is Some implies semantics::slot(w1, y) is Some
        && netlist::on_wire(w1, y) == netlist::on_wire(w, y) by {
        lemma_slot_bound(w, y, w.len() as int);
        lemma_slot_push(w, e, y);
        let i = semantics::slot(w, y)->Some_0;
        if y == x {
            assert(known(w[i].0, t, ps));
            let (q, k) = choose|q: Text, k: nat|
                k < t && is_stem(q) && x == #[trigger] lowering::fresh(q, k);
            lemma_number_unique(p, t, q, k);
        }
    }
    lemma_slot_push(w, e, x);
    lemma_grounded_more(w, t, t + 1, ps);
    assert forall|i: int| 0 <= i < w1.len() implies known((#[trigger] w1[i]).0, t + 1, ps) by {
        if i < w.len() {
            assert(w1[i] == w[i]);
        } else {
            assert(w1[i].0 == lowering::fresh(p, t));
        }
    }
}

// ---- operators ----------------------------------------------------------

pub proof fn lemma_masks(b: u128)
    ensures
        b & 0 == b % 1,
        b & 1 == b % 2,
        b & 3 == b % 4,
        b & 7 == b % 8,
        b & 15 == b % 16,
        b & 31 == b % 32,
        b & 63 == b % 64,
        b & 127 == b % 128,
{
    assert(b & 0 == b % 1) by (bit_vector);
    assert(b & 1 == b % 2) by (bit_vector);
    assert(b & 3 == b % 4) by (bit_vector);
    assert(b & 7 == b % 8) by (bit_vector);
    assert(b & 15 == b % 16) by (bit_vector);
    assert(b & 31 == b % 32) by (bit_vector);
    assert(b & 63 == b % 64) by (bit_vector);
    assert(b & 127 == b % 128) by (bit_vector);
}

/// Masking with `2^j - 1` is reducing modulo `2^j`.
pub proof fn lemma_mask(b: u128, j: nat)
    requires
        j <= 7,
    ensures
        b & ((pow2(j) - 1) as u128) == b as int % (pow2(j) as int),
{
    lemma2_to64();
    lemma_masks(b);
}

/// The bits of a value fit on a wire for its type.
pub proof fn lemma_kind(v: VVal, kind: Scalar)
    requires
        typed(v, kind),
    ensures
        in_kind(bits(v), kind),
{
    lemma2_to64();
}

/// A value that fits is not changed by a wire.
pub proof fn lemma_truncated(x: u128, kind: Scalar)
    requires
        in_kind(x, kind),
    ensures
        netlist::truncated(x, kind.width()) == x,
{
    lemma_small_mod(x as nat, pow2(arith::bits_of_width(kind.width())));
}

/// What a wire carries fits.
pub proof fn lemma_truncated_fits(x: u128, width: u32)
    ensures
        netlist::truncated(x, width) < pow2(arith::bits_of_width(width)),
        netlist::truncated(x, width) == arith::wrap(x as int, width),
{
    arith::law_wrap_range(x as int, width);
}

/// `2^k` is one of the powers up to `2^7` where it is at most 128.
pub proof fn lemma_small_power(w: nat) -> (k: nat)
    requires
        lowering::is_power_of_two(w),
        w <= 128,
    ensures
        w == pow2(k),
        k <= 7,
{
    let k = choose|k: nat| w == pow2(k);
    lemma2_to64();
    if k > 7 {
        lemma_pow2_strictly_increases(7, k);
    }
    k
}

/// The amount of a shift of a value of `width` bits.
pub open spec fn amount_of(b: u128, width: u32) -> nat {
    arith::shift_amount(b as int, width)
}

/// The reduced amount of a shift is the amount that the interpreter shifts by.
pub proof fn lemma_mask_amount(b: u128, aw: u32, w: nat)
    requires
        b < pow2(arith::bits_of_width(aw)),
        lowering::is_power_of_two(w),
        w <= 128,
    ensures
        ({
            let m = netlist::truncated((w - 1) as u128, aw);
            netlist::truncated(b & m, aw) == b as int % (w as int)
        }),
{
    let k = lemma_small_power(w);
    let e = arith::bits_of_width(aw);
    let m = netlist::truncated((w - 1) as u128, aw);
    lemma_pow2_pos(k);
    lemma_pow2_pos(e);
    lemma_truncated_fits((w - 1) as u128, aw);
    if k <= e {
        if k < e {
            lemma_pow2_strictly_increases(k, e);
        }
        lemma_small_mod((w - 1) as nat, pow2(e));
        lemma_mask(b, k);
        lemma_mod_bound(b as int, w as int);
        assert((b & m) == b as int % (w as int));
        lemma_small_mod((b & m) as nat, pow2(e));
    } else {
        lemma_pow2_strictly_increases(e, k);
        lemma_pow2_adds(e, (k - e) as nat);
        let q = pow2((k - e) as nat);
        lemma_pow2_pos((k - e) as nat);
        assert((w - 1) % (pow2(e) as int) == pow2(e) - 1) by {
            assert(w - 1 == (q - 1) * pow2(e) + (pow2(e) - 1)) by (nonlinear_arith)
                requires
                    w == pow2(e) * q,
            ;
            lemma_mod_multiples_vanish(q - 1, pow2(e) - 1, pow2(e) as int);
            assert((q - 1) * pow2(e) == pow2(e) * (q - 1)) by (nonlinear_arith);
            lemma_small_mod((pow2(e) - 1) as nat, pow2(e));
        }
        lemma_mask(b, e);
        lemma_small_mod(b as nat, pow2(e));
        lemma_small_mod(b as nat, w);
    }
}

/// The value that the reduced amount of a shift has.
pub proof fn lemma_reduced_value(b: u128, kind: Scalar, width: u32)
    requires
        in_kind(b, kind),
    ensures
        ({
            let w = arith::bits_of_width(width);
            let aw = kind.width();
            let r = if lowering::is_power_of_two(w) {
                netlist::truncated(b & netlist::truncated((w - 1) as u128, aw), aw)
            } else if w < pow2(arith::bits_of_width(aw)) {
                netlist::truncated(
                    netlist::apply(BinOp::Rem, b, netlist::truncated(w as u128, aw)),
                    aw,
                )
            } else {
                b
            };
            r == amount_of(b, width) || w == 0
        }),
{
    let w = arith::bits_of_width(width);
    let aw = kind.width();
    let e = arith::bits_of_width(aw);
    arith::lemma_two128();
    lemma_small_mod(b as nat, arith::two128() as nat);
    if w > 0 {
        lemma_mod_bound(b as int, w as int);
        if lowering::is_power_of_two(w) {
            lemma_mask_amount(b, aw, w);
        } else if w < pow2(e) {
            lemma_small_mod(w, pow2(e));
            lemma_small_mod((b as int % w as int) as nat, pow2(e));
        } else {
            lemma_small_mod(b as nat, w);
        }
    }
}

/// An operator on wires agrees with the operator on values.
pub proof fn lemma_bit_op(op: BinOp, a: u128, b: u128, w: u32)
    requires
        !op.comparing(),
        !op.logical(),
        !(op is Shl || op is Shr),
        arith::bit_op(op, a, b, w) is Ok,
    ensures
        netlist::truncated(netlist::apply(op, a, b), w) == arith::wrap(
            arith::bit_op(op, a, b, w)->Ok_0,
            w,
        ),
{
    let x = arith::bit_op(op, a, b, w)->Ok_0;
    match op {
        BinOp::Add => {
            arith::lemma_wrap_128(a + b, w);
            lemma_mod_bound(a + b, arith::two128());
        },
        BinOp::Sub => {
            arith::lemma_wrap_128(a - b, w);
            lemma_mod_bound(a - b, arith::two128());
        },
        BinOp::Mul => {
            arith::lemma_wrap_128(a * b, w);
            lemma_mod_bound(a * b, arith::two128());
        },
        _ => {},
    }
    lemma_truncated_fits(netlist::apply(op, a, b), w);
}

/// A shift on wires agrees with the shift of values.
pub proof fn lemma_shift(op: BinOp, a: u128, s: u128, w: u32)
    requires
        op is Shl || op is Shr,
        s < 128,
    ensures
        netlist::truncated(netlist::apply(op, a, s), w) == arith::wrap(
            if op is Shl {
                a * pow2(s as nat)
            } else {
                a as int / (pow2(s as nat) as int)
            },
            w,
        ),
{
    lemma_pow2_pos(s as nat);
    if op is Shl {
        arith::lemma_wrap_128(a * pow2(s as nat), w);
        lemma_mod_bound(a * pow2(s as nat), arith::two128());
    }
    lemma_truncated_fits(netlist::apply(op, a, s), w);
}

/// Unary operators on wires agree with those on values.
pub proof fn lemma_unary(op: UnOp, v: VVal, kind: Scalar)
    requires
        typed(v, kind),
        semantics::unary(op, v) is Ok,
    ensures
        typed(semantics::unary(op, v)->Ok_0, kind),
        netlist::truncated(netlist::apply_un(op, bits(v)), kind.width()) == bits(
            semantics::unary(op, v)->Ok_0,
        ),
{
    let a = bits(v);
    let w = kind.width();
    let x = netlist::apply_un(op, a);
    lemma_truncated_fits(x, w);
    arith::lemma_two128();
    match op {
        UnOp::Neg => {
            lemma_mod_bound(-(a as int), arith::two128());
            arith::lemma_wrap_128(-(a as int), w);
            arith::law_wrap_range(-(a as int), w);
        },
        UnOp::Not => {
            arith::lemma_pattern_shift(-(a as int) - 1, 1);
            arith::lemma_same_pattern(x as int, -(a as int) - 1, w);
            arith::law_wrap_range(-(a as int) - 1, w);
            if kind == Scalar::Bool {
                lemma2_to64();
                assert(arith::bits_of_width(1) == 1);
                assert(a == 0 ==> x as int % 2 == 1);
                assert(a == 1 ==> x as int % 2 == 0);
            }
        },
    }
}

/// A comparison on wires agrees with the comparison of values.
pub proof fn lemma_compare(op: BinOp, l: VVal, r: VVal, kind: Scalar)
    requires
        op.comparing(),
        typed(l, kind),
        typed(r, kind),
        semantics::binary(op, l, r) is Ok,
    ensures
        typed(semantics::binary(op, l, r)->Ok_0, Scalar::Bool),
        netlist::truncated(netlist::apply(op, bits(l), bits(r)), 1) == bits(
            semantics::binary(op, l, r)->Ok_0,
        ),
{
    lemma2_to64();
    lemma_small_mod(0, 2);
    lemma_small_mod(1, 2);
}

/// The amount that the interpreter takes of a shift operand.
pub proof fn lemma_amount(r: VVal, kind: Scalar)
    requires
        typed(r, kind),
    ensures
        (semantics::int_of(r) % arith::two128()) as u128 == bits(r),
{
    match r {
        VVal::Bit(b, _) => {
            lemma_small_mod(b as nat, arith::two128() as nat);
        },
        _ => {
            lemma_small_mod(0, arith::two128() as nat);
            lemma_small_mod(1, arith::two128() as nat);
        },
    }
}

// ---- growth -------------------------------------------------------------

/// Whether lowering went from `a` to `b` by adding items and taking numbers.
pub open spec fn grown(a: Lo, b: Lo) -> bool {
    &&& a.items.len() <= b.items.len()
    &&& a.temp <= b.temp
    &&& a.pad == b.pad
    &&& forall|i: int| 0 <= i < a.items.len() ==> #[trigger] b.items[i] == a.items[i]
    &&& forall|i: int|
        a.items.len() <= i < b.items.len() ==> #[trigger] outgrows(b.items[i], a.pad)
}

/// Whether every name that an item gives is longer than `pad`.
pub open spec fn outgrows(item: NItem, pad: Text) -> bool {
    forall|x: Text| #[trigger] lowering::takes(item, x) ==> x.len() > pad.len()
}

proof fn lemma_numbers_show()
    ensures
        forall|n: nat| #[trigger] text::dec(n).len() > 0,
{
    assert forall|n: nat| #[trigger] text::dec(n).len() > 0 by {
        lemma_dec(n);
    }
}

pub proof fn grow_expr(m: TModule, env: Nets, lo: Lo, e: TExpr)
    requires
        lowering::lower_expr(m, env, lo, e) is Ok,
    ensures
        grown(lo, lowering::state_of(lowering::lower_expr(m, env, lo, e))),
    decreases e, 0int,
{
    lemma_numbers_show();
    reveal(lowering::literal);
    reveal(lowering::local);
    reveal(lowering::unary_net);
    reveal(lowering::binary_flow);
    reveal(lowering::binary_net);
    reveal(lowering::call_flow);
    reveal(lowering::if_flow);
    reveal(lowering::then_flow);
    reveal(lowering::scalar_flow);
    reveal(lowering::refused);
    match e.kind {
        TKind::Unary { op, expr } => grow_expr(m, env, lo, *expr),
        TKind::Binary { op, lhs, rhs } => {
            grow_expr(m, env, lo, *lhs);
            let l = lowering::lower_expr(m, env, lo, *lhs);
            grow_expr(m, env, lowering::state_of(l), *rhs);
        },
        TKind::Call { func, args } => {
            let t = lowering::call_target(m, func, args.len(), e.ty);
            grow_args(m, env, lo, args, lowering::target_params(t), 0, Seq::empty());
        },
        TKind::If { cond, then_branch, else_branch } => {
            grow_expr(m, env, lo, *cond);
            let c = lowering::lower_expr(m, env, lo, *cond);
            grow_block(m, env, lowering::state_of(c), then_branch, 0);
            let t = lowering::lower_block(m, env, lowering::state_of(c), then_branch, 0);
            grow_block(m, env, lowering::state_of(t), else_branch, 0);
        },
        TKind::Match { scrutinee, arms } => {
            grow_expr(m, env, lo, *scrutinee);
            let s = lowering::lower_expr(m, env, lo, *scrutinee);
            grow_arms(
                m,
                env,
                lowering::state_of(s),
                arms,
                arms.len() - 1,
                lowering::net_of(s),
                lowering::kind_of(e.ty),
                None,
            );
        },
        TKind::Block(b) => grow_block(m, env, lo, b, 0),
        _ => {},
    }
}

pub proof fn grow_binary(op: BinOp, ty: TType, l: TNet, r: TNet, lo: Lo)
    requires
        lowering::binary_net(op, ty, l, r, lo) is Ok,
    ensures
        grown(lo, lowering::state_of(lowering::binary_net(op, ty, l, r, lo))),
{
    reveal(lowering::binary_net);
}

pub proof fn grow_args(
    m: TModule,
    env: Nets,
    lo: Lo,
    args: Seq<TExpr>,
    params: Seq<TParam>,
    i: int,
    acc: Seq<(Text, NExpr)>,
)
    requires
        lowering::lower_args(m, env, lo, args, params, i, acc) is Ok,
    ensures
        grown(lo, lowering::lower_args(m, env, lo, args, params, i, acc)->Ok_0.1),
    decreases args, args.len() - i,
{
    lemma_numbers_show();
    reveal(lowering::arg_flow);
    if 0 <= i < args.len() && i < params.len() {
        grow_expr(m, env, lo, args[i]);
        match lowering::arg_flow(params[i], lowering::lower_expr(m, env, lo, args[i]), acc) {
            Ok((acc1, lo1)) => grow_args(m, env, lo1, args, params, i + 1, acc1),
            Err(_) => {},
        }
    }
}

pub proof fn grow_arms(
    m: TModule,
    env: Nets,
    lo: Lo,
    arms: Seq<TArm>,
    i: int,
    scrut: TNet,
    kind: Scalar,
    acc: Option<TNet>,
)
    requires
        lowering::lower_arms(m, env, lo, arms, i, scrut, kind, acc) is Ok,
    ensures
        grown(
            lo,
            lowering::state_of(lowering::lower_arms(m, env, lo, arms, i, scrut, kind, acc)),
        ),
    decreases arms, i + 1,
{
    lemma_numbers_show();
    reveal(lowering::match_result);
    if 0 <= i < arms.len() {
        grow_arm(m, env, lo, arms[i], scrut, kind, acc);
        match lowering::lower_arm(m, env, lo, arms[i], scrut, kind, acc) {
            Ok((n, lo1)) => grow_arms(m, env, lo1, arms, i - 1, scrut, kind, Some(n)),
            Err(_) => {},
        }
    }
}

pub proof fn grow_arm(
    m: TModule,
    env: Nets,
    lo: Lo,
    arm: TArm,
    scrut: TNet,
    kind: Scalar,
    rest: Option<TNet>,
)
    requires
        lowering::lower_arm(m, env, lo, arm, scrut, kind, rest) is Ok,
    ensures
        grown(lo, lowering::state_of(lowering::lower_arm(m, env, lo, arm, scrut, kind, rest))),
    decreases arm, 0int,
{
    lemma_numbers_show();
    reveal(lowering::arm_flow);
    grow_expr(m, lowering::arm_env(env, arm.pattern, scrut), lo, arm.body);
}

pub proof fn grow_block(m: TModule, env: Nets, lo: Lo, b: TBlock, i: int)
    requires
        lowering::lower_block(m, env, lo, b, i) is Ok,
    ensures
        grown(lo, lowering::state_of(lowering::lower_block(m, env, lo, b, i))),
    decreases b, b.stmts.len() - i,
{
    lemma_numbers_show();
    reveal(lowering::then_flow);
    if i < 0 || i >= b.stmts.len() {
        match b.tail {
            Some(e) => grow_expr(m, env, lo, *e),
            None => {},
        }
    } else {
        match b.stmts[i] {
            TStmt::Let { name, mutable, ty, init } => {
                let v = lowering::lower_expr(m, env, lo, init);
                let (n, lo1) = lowering::bound(name, v);
                grow_expr(m, env, lo, init);
                grow_block(m, env.push((name, n)), lo1, b, i + 1);
            },
            TStmt::Expr(e) => grow_block(m, env, lo, b, i + 1),
            _ => {},
        }
    }
}

} // verus!
