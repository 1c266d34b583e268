//! Patterns on values of their type: what they bind, and that arms which cover a
//! type match each of its values.

use crate::ir::{TArm, TPattern, TType};
use crate::name_map;
use crate::semantics::{self, Locals};
use crate::text::Text;
use crate::typing::{self, Defs, Var, Vars};
use crate::value::VVal;
use crate::welltyped;
use crate::wires;
use vstd::prelude::*;

verus! {

/// The names and types of variables, innermost last.
pub type Shape = Seq<(Text, TType)>;

/// Whether the variables have the names and types of the shape.
pub open spec fn typed_env(d: Defs, env: Locals, sh: Shape) -> bool {
    &&& env.len() == sh.len()
    &&& forall|i: int|
        0 <= i < env.len() ==> (#[trigger] env[i]).0 == sh[i].0 && welltyped::has_type(
            d,
            env[i].1,
            sh[i].1,
        )
}

/// Whether `sh` has every variable of `vars`, with its type.
pub open spec fn fitting(vars: Vars, sh: Shape) -> bool {
    forall|n: Text| #[trigger]
        semantics::slot(vars, n) is Some ==> semantics::slot(sh, n) is Some
            && sh[semantics::slot(sh, n)->Some_0].1 == vars[semantics::slot(vars, n)->Some_0].1.ty
}

/// Whether `sh` has exactly the variables of `vars`, with their types.
pub open spec fn agree(vars: Vars, sh: Shape) -> bool {
    fitting(vars, sh) && forall|n: Text| #[trigger]
        semantics::slot(sh, n) is Some ==> semantics::slot(vars, n) is Some
}

pub proof fn lemma_slot_add<T>(a: Seq<(Text, T)>, b: Seq<(Text, T)>, n: Text)
    ensures
        semantics::slot(a + b, n) == match semantics::slot(b, n) {
            Some(q) => Some(a.len() + q),
            None => semantics::slot(a, n),
        },
    decreases b.len(),
{
    if b.len() == 0 {
        assert(a + b =~= a);
    } else {
        let c = b.drop_last();
        assert(b =~= c.push(b.last()));
        assert(a + b =~= (a + c).push(b.last()));
        wires::lemma_slot_push(c, b.last(), n);
        wires::lemma_slot_push(a + c, b.last(), n);
        lemma_slot_add(a, c, n);
    }
}

/// What is found is in range.
pub proof fn lemma_slot_in<T>(a: Seq<(Text, T)>, n: Text)
    ensures
        semantics::slot(a, n) matches Some(p) ==> 0 <= p < a.len() && a[p].0 == n,
{
    if semantics::slot(a, n) is Some {
        wires::lemma_slot_bound(a, n, a.len() as int);
    }
}

pub proof fn lemma_fitting_add(vars: Vars, sh: Shape, more: Vars, extra: Shape)
    requires
        fitting(vars, sh),
        agree(more, extra),
    ensures
        fitting(vars + more, sh + extra),
        agree(vars, sh) ==> agree(vars + more, sh + extra),
{
    assert forall|n: Text| #[trigger] semantics::slot(vars + more, n) is Some implies semantics::slot(
        sh + extra,
        n,
    ) is Some && (sh + extra)[semantics::slot(sh + extra, n)->Some_0].1 == (vars
        + more)[semantics::slot(vars + more, n)->Some_0].1.ty by {
        lemma_slot_add(vars, more, n);
        lemma_slot_add(sh, extra, n);
        lemma_slot_in(vars, n);
        lemma_slot_in(more, n);
        lemma_slot_in(sh, n);
        lemma_slot_in(extra, n);
        assert(semantics::slot(more, n) is Some || semantics::slot(vars, n) is Some);
        if semantics::slot(more, n) is None {
            assert(semantics::slot(extra, n) is None);
        }
    }
    if agree(vars, sh) {
        assert forall|n: Text| #[trigger] semantics::slot(sh + extra, n) is Some implies semantics::slot(
            vars + more,
            n,
        ) is Some by {
            lemma_slot_add(vars, more, n);
            lemma_slot_add(sh, extra, n);
            assert(semantics::slot(extra, n) is Some || semantics::slot(sh, n) is Some);
        }
    }
}

pub proof fn lemma_typed_add(d: Defs, a: Locals, sa: Shape, b: Locals, sb: Shape)
    requires
        typed_env(d, a, sa),
        typed_env(d, b, sb),
    ensures
        typed_env(d, a + b, sa + sb),
{
    let e = a + b;
    let s = sa + sb;
    assert forall|i: int| 0 <= i < e.len() implies (#[trigger] e[i]).0 == s[i].0
        && welltyped::has_type(d, e[i].1, s[i].1) by {
        if i < a.len() {
            assert(e[i] == a[i]);
        } else {
            assert(e[i] == b[i - a.len()]);
        }
    }
}

pub proof fn lemma_agree_one(name: Text, ty: TType)
    ensures
        agree(seq![(name, Var { ty, mutable: false })], seq![(name, ty)]),
        agree(Seq::empty(), Seq::empty()),
{
    let a: Vars = Seq::empty();
    let b: Shape = Seq::empty();
    let x = (name, Var { ty, mutable: false });
    let y = (name, ty);
    assert(seq![x] =~= a.push(x));
    assert(seq![y] =~= b.push(y));
    assert forall|n: Text| #[trigger] semantics::slot(seq![x], n) == if n == name {
        Some(0int)
    } else {
        None
    } by {
        wires::lemma_slot_push(a, x, n);
    }
    assert forall|n: Text| #[trigger] semantics::slot(seq![y], n) == if n == name {
        Some(0int)
    } else {
        None
    } by {
        wires::lemma_slot_push(b, y, n);
    }
}

/// A variable more, with its type.
pub proof fn lemma_fitting_push(vars: Vars, sh: Shape, name: Text, v: Var)
    requires
        fitting(vars, sh),
    ensures
        fitting(vars.push((name, v)), sh.push((name, v.ty))),
{
    let a = vars.push((name, v));
    let b = sh.push((name, v.ty));
    assert forall|n: Text| #[trigger] semantics::slot(a, n) is Some implies semantics::slot(b, n) is Some
        && b[semantics::slot(b, n)->Some_0].1 == a[semantics::slot(a, n)->Some_0].1.ty by {
        wires::lemma_slot_push(vars, (name, v), n);
        wires::lemma_slot_push(sh, (name, v.ty), n);
        lemma_slot_in(vars, n);
        lemma_slot_in(sh, n);
        if n != name {
            assert(semantics::slot(vars, n) is Some);
        }
    }
}

/// The same variables in another order.
proof fn lemma_agree_same(a: Vars, b: Vars, sh: Shape)
    requires
        typing::binds_within(a, b),
        typing::binds_within(b, a),
        agree(b, sh),
    ensures
        agree(a, sh),
{
    assert forall|n: Text| #[trigger] semantics::slot(a, n) is Some implies semantics::slot(sh, n) is Some
        && sh[semantics::slot(sh, n)->Some_0].1 == a[semantics::slot(a, n)->Some_0].1.ty by {
        lemma_slot_in(a, n);
        let p = semantics::slot(a, n)->Some_0;
        assert(a[p].0 == n);
        assert(semantics::slot(b, n) is Some);
    }
    assert forall|n: Text| #[trigger] semantics::slot(sh, n) is Some implies semantics::slot(a, n) is Some by {
        assert(semantics::slot(b, n) is Some);
        lemma_slot_in(b, n);
        let p = semantics::slot(b, n)->Some_0;
        assert(b[p].0 == n);
    }
}

pub proof fn lemma_all_at(d: Defs, xs: Seq<VVal>, ts: Seq<TType>, i: int, k: int)
    requires
        welltyped::all_typed(d, xs, ts, i),
        0 <= i <= k < xs.len(),
    ensures
        k < ts.len(),
        welltyped::has_type(d, xs[k], ts[k]),
        welltyped::all_typed(d, xs, ts, k),
    decreases k - i,
{
    if i < k {
        lemma_all_at(d, xs, ts, i + 1, k);
    }
}

pub proof fn lemma_all_of(d: Defs, xs: Seq<VVal>, ts: Seq<TType>, i: int)
    requires
        0 <= i,
        xs.len() <= ts.len(),
        forall|k: int| i <= k < xs.len() ==> welltyped::has_type(d, #[trigger] xs[k], ts[k]),
    ensures
        welltyped::all_typed(d, xs, ts, i),
    decreases xs.len() - i,
{
    if i < xs.len() {
        lemma_all_of(d, xs, ts, i + 1);
    }
}

pub proof fn lemma_each_at(d: Defs, xs: Seq<VVal>, t: TType, i: int, k: int)
    requires
        welltyped::each_typed(d, xs, t, i),
        0 <= i <= k < xs.len(),
    ensures
        welltyped::has_type(d, xs[k], t),
    decreases k - i,
{
    if i < k {
        lemma_each_at(d, xs, t, i + 1, k);
    }
}

pub proof fn lemma_each_of(d: Defs, xs: Seq<VVal>, t: TType, i: int)
    requires
        0 <= i,
        forall|k: int| i <= k < xs.len() ==> welltyped::has_type(d, #[trigger] xs[k], t),
    ensures
        welltyped::each_typed(d, xs, t, i),
    decreases xs.len() - i,
{
    if i < xs.len() {
        lemma_each_of(d, xs, t, i + 1);
    }
}

// ---- what a match binds -------------------------------------------------

pub proof fn lemma_matched(d: Defs, p: TPattern, t: TType, v: VVal) -> (sh: Shape)
    requires
        welltyped::pattern_ok(d, p, t),
        welltyped::has_type(d, v, t),
        semantics::matched(p, v) is Some,
    ensures
        typed_env(d, semantics::matched(p, v)->Some_0, sh),
        agree(welltyped::pattern_vars(p), sh),
    decreases p, 0int,
{
    lemma_agree_one(Seq::empty(), TType::Unit);
    match p {
        TPattern::Binding { name, ty } => {
            lemma_agree_one(name, ty);
            seq![(name, ty)]
        },
        TPattern::Variant { enum_name, tag, subpatterns } => match v {
            VVal::Enum(n, vtag, args) => {
                let ed = name_map::find(d.enums, enum_name)->Some_0;
                lemma_matched_all(d, subpatterns, ed.variants[tag as int].fields, args, 0)
            },
            _ => Seq::empty(),
        },
        TPattern::Tuple(ps) => match v {
            VVal::Tuple(xs) => lemma_matched_all(d, ps, t->Tuple_0, xs, 0),
            _ => Seq::empty(),
        },
        TPattern::Or(ps) => lemma_matched_any(d, ps, t, v, 0),
        _ => Seq::empty(),
    }
}

proof fn lemma_matched_all(d: Defs, ps: Seq<TPattern>, ts: Seq<TType>, vs: Seq<VVal>, i: int) -> (sh:
    Shape)
    requires
        0 <= i <= ps.len(),
        ps.len() == ts.len(),
        vs.len() == ps.len(),
        welltyped::patterns_ok(d, ps, ts, i),
        welltyped::all_typed(d, vs, ts, i),
        semantics::matched_all(ps, vs, i) is Some,
    ensures
        typed_env(d, semantics::matched_all(ps, vs, i)->Some_0, sh),
        agree(welltyped::patterns_vars(ps, i), sh),
    decreases ps, ps.len() - i,
{
    lemma_agree_one(Seq::empty(), TType::Unit);
    if i < ps.len() {
        let a = lemma_matched(d, ps[i], ts[i], vs[i]);
        let b = lemma_matched_all(d, ps, ts, vs, i + 1);
        let x = semantics::matched(ps[i], vs[i])->Some_0;
        let y = semantics::matched_all(ps, vs, i + 1)->Some_0;
        lemma_typed_add(d, x, a, y, b);
        lemma_fitting_add(
            welltyped::pattern_vars(ps[i]),
            a,
            welltyped::patterns_vars(ps, i + 1),
            b,
        );
        a + b
    } else {
        Seq::empty()
    }
}

proof fn lemma_matched_any(d: Defs, ps: Seq<TPattern>, t: TType, v: VVal, i: int) -> (sh: Shape)
    requires
        0 <= i <= ps.len(),
        welltyped::alternatives_ok(d, ps, t, i),
        welltyped::has_type(d, v, t),
        semantics::matched_any(ps, v, i) is Some,
    ensures
        typed_env(d, semantics::matched_any(ps, v, i)->Some_0, sh),
        agree(welltyped::pattern_vars(ps[0]), sh),
    decreases ps, ps.len() - i,
{
    if i < ps.len() {
        if semantics::matched(ps[i], v) is Some {
            let sh = lemma_matched(d, ps[i], t, v);
            lemma_agree_same(
                welltyped::pattern_vars(ps[0]),
                welltyped::pattern_vars(ps[i]),
                sh,
            );
            sh
        } else {
            lemma_matched_any(d, ps, t, v, i + 1)
        }
    } else {
        Seq::empty()
    }
}

// ---- patterns that match ------------------------------------------------

proof fn lemma_irrefutable(d: Defs, p: TPattern, t: TType, v: VVal)
    requires
        welltyped::pattern_ok(d, p, t),
        welltyped::has_type(d, v, t),
        typing::irrefutable(d.enums, p),
    ensures
        semantics::matched(p, v) is Some,
    decreases p, 0int,
{
    match p {
        TPattern::Tuple(ps) => {
            lemma_each_irrefutable(d, ps, t->Tuple_0, v->Tuple_0, 0);
        },
        TPattern::Or(ps) => {
            lemma_some_irrefutable(d, ps, t, v, 0);
        },
        TPattern::Variant { enum_name, tag, subpatterns } => {
            let ed = name_map::find(d.enums, enum_name)->Some_0;
            lemma_each_irrefutable(
                d,
                subpatterns,
                ed.variants[tag as int].fields,
                v->Enum_2,
                0,
            );
        },
        _ => {},
    }
}

proof fn lemma_each_irrefutable(d: Defs, ps: Seq<TPattern>, ts: Seq<TType>, vs: Seq<VVal>, i: int)
    requires
        0 <= i <= ps.len(),
        ps.len() == ts.len(),
        vs.len() == ps.len(),
        welltyped::patterns_ok(d, ps, ts, i),
        welltyped::all_typed(d, vs, ts, i),
        typing::each_irrefutable(d.enums, ps, i),
    ensures
        semantics::matched_all(ps, vs, i) is Some,
    decreases ps, ps.len() - i,
{
    if i < ps.len() {
        lemma_irrefutable(d, ps[i], ts[i], vs[i]);
        lemma_each_irrefutable(d, ps, ts, vs, i + 1);
    }
}

proof fn lemma_some_irrefutable(d: Defs, ps: Seq<TPattern>, t: TType, v: VVal, i: int)
    requires
        0 <= i <= ps.len(),
        welltyped::alternatives_ok(d, ps, t, i),
        welltyped::has_type(d, v, t),
        typing::some_irrefutable(d.enums, ps, i),
    ensures
        semantics::matched_any(ps, v, i) is Some,
    decreases ps, ps.len() - i,
{
    if i < ps.len() {
        if typing::irrefutable(d.enums, ps[i]) {
            lemma_irrefutable(d, ps[i], t, v);
        } else {
            lemma_some_irrefutable(d, ps, t, v, i + 1);
        }
    }
}

proof fn lemma_covers_tag(d: Defs, p: TPattern, t: TType, v: VVal)
    requires
        welltyped::pattern_ok(d, p, t),
        welltyped::has_type(d, v, t),
        t is Enum,
        typing::covers_tag(d.enums, p, v->Enum_1 as int),
    ensures
        semantics::matched(p, v) is Some,
    decreases p, 0int,
{
    match p {
        TPattern::Variant { enum_name, tag, subpatterns } => {
            let ed = name_map::find(d.enums, enum_name)->Some_0;
            lemma_each_irrefutable(
                d,
                subpatterns,
                ed.variants[tag as int].fields,
                v->Enum_2,
                0,
            );
        },
        TPattern::Or(ps) => {
            lemma_some_covers_tag(d, ps, t, v, 0);
        },
        _ => {},
    }
}

proof fn lemma_some_covers_tag(d: Defs, ps: Seq<TPattern>, t: TType, v: VVal, i: int)
    requires
        0 <= i <= ps.len(),
        welltyped::alternatives_ok(d, ps, t, i),
        welltyped::has_type(d, v, t),
        t is Enum,
        typing::some_covers_tag(d.enums, ps, v->Enum_1 as int, i),
    ensures
        semantics::matched_any(ps, v, i) is Some,
    decreases ps, ps.len() - i,
{
    if i < ps.len() {
        if typing::covers_tag(d.enums, ps[i], v->Enum_1 as int) {
            lemma_covers_tag(d, ps[i], t, v);
        } else {
            lemma_some_covers_tag(d, ps, t, v, i + 1);
        }
    }
}

proof fn lemma_covers_bool(p: TPattern, b: bool)
    requires
        typing::covers_bool(p, b),
    ensures
        semantics::matched(p, VVal::Bool(b)) is Some,
    decreases p, 0int,
{
    match p {
        TPattern::Or(ps) => {
            lemma_some_covers_bool(ps, b, 0);
        },
        _ => {},
    }
}

proof fn lemma_some_covers_bool(ps: Seq<TPattern>, b: bool, i: int)
    requires
        0 <= i <= ps.len(),
        typing::some_covers_bool(ps, b, i),
    ensures
        semantics::matched_any(ps, VVal::Bool(b), i) is Some,
    decreases ps, ps.len() - i,
{
    if i < ps.len() {
        if typing::covers_bool(ps[i], b) {
            lemma_covers_bool(ps[i], b);
        } else {
            lemma_some_covers_bool(ps, b, i + 1);
        }
    }
}

/// Whether the arm at position `k` matches `v`, whatever its guard would say.
pub open spec fn takes(arms: Seq<TArm>, k: int, v: VVal) -> bool {
    arms[k].guard is None && semantics::matched(arms[k].pattern, v) is Some
}

/// Arms that cover a type match every value of it: a `match` that was checked
/// never falls through.
pub proof fn law_covered_match_is_total(d: Defs, t: TType, arms: Seq<TArm>, v: VVal) -> (k: int)
    requires
        welltyped::covered(d, t, arms),
        welltyped::has_type(d, v, t),
        forall|k: int|
            0 <= k < arms.len() ==> welltyped::pattern_ok(d, (#[trigger] arms[k]).pattern, t),
    ensures
        0 <= k < arms.len(),
        takes(arms, k, v),
{
    if typing::catch_all(d.enums, arms) {
        let k = choose|k: int|
            0 <= k < arms.len() && (#[trigger] arms[k]).guard is None && typing::irrefutable(
                d.enums,
                arms[k].pattern,
            );
        lemma_irrefutable(d, arms[k].pattern, t, v);
        k
    } else if t is Enum {
        let tag = v->Enum_1 as int;
        assert(typing::tag_covered(d.enums, arms, tag));
        let k = choose|k: int|
            0 <= k < arms.len() && (#[trigger] arms[k]).guard is None && typing::covers_tag(
                d.enums,
                arms[k].pattern,
                tag,
            );
        lemma_covers_tag(d, arms[k].pattern, t, v);
        k
    } else {
        let b = v->Bool_0;
        assert(typing::bool_covered(arms, b));
        let k = choose|k: int|
            0 <= k < arms.len() && (#[trigger] arms[k]).guard is None && typing::covers_bool(
                arms[k].pattern,
                b,
            );
        lemma_covers_bool(arms[k].pattern, b);
        k
    }
}

} // verus!
