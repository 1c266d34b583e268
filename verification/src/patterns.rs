//! Which patterns, `match` expressions and literals of several parts are accepted.

use crate::acceptance;
use crate::ast::{AExpr, AMatchArm, APattern};
use crate::diagnostic::Diag;
use crate::ir::{self, TArm, TExpr, TField, TKind, TPattern, TType};
use crate::name_map;
use crate::span::Span;
use crate::text::Text;
use crate::typing::{self, Defs, Site, Var, Vars};
use vstd::arithmetic::power2::*;
use vstd::prelude::*;

verus! {

/// Whether a type has the number `v`.
pub open spec fn has_number(t: TType, v: int) -> bool {
    match t {
        TType::Int(it) => if it.signed {
            -pow2((it.width - 1) as nat) <= v < pow2((it.width - 1) as nat)
        } else {
            0 <= v < pow2(it.width as nat)
        },
        TType::Bit(w) => 0 <= v < pow2(w as nat),
        _ => false,
    }
}

/// Whether the width of a number type is one that can be written.
pub open spec fn sized(t: TType) -> bool {
    match t {
        TType::Int(it) => 1 <= it.width <= 64,
        TType::Bit(w) => 1 <= w <= 128,
        _ => true,
    }
}

// ---- patterns -----------------------------------------------------------

/// A number and a range are accepted as a pattern exactly for a number type that has them,
/// `true` and `false` exactly for `bool`, a name and `_` for every type. A name introduces a
/// variable of the type, which cannot be assigned to; the others introduce none.
pub proof fn law_plain_patterns_are_accepted(
    s: Site,
    ty: TType,
    vars: Vars,
    span: Span,
    a: i128,
    b: i128,
    inclusive: bool,
    v: bool,
    name: Text,
)
    requires
        sized(ty),
    ensures
        ({
            let r = typing::check_pattern(s, APattern::Int { value: a, span }, ty, vars);
            &&& r is Ok <==> has_number(ty, a as int)
            &&& r matches Ok(x) ==> x == (TPattern::Int(a), vars)
        }),
        ({
            let r = typing::check_pattern(
                s,
                APattern::Range { lo: a, hi: b, inclusive, span },
                ty,
                vars,
            );
            &&& r is Ok <==> has_number(ty, a as int) && has_number(ty, b as int)
            &&& r matches Ok(x) ==> x == (TPattern::Range { lo: a, hi: b, inclusive }, vars)
        }),
        ({
            let r = typing::check_pattern(s, APattern::Bool { value: v, span }, ty, vars);
            &&& r is Ok <==> ty is Bool
            &&& r matches Ok(x) ==> x == (TPattern::Bool(v), vars)
        }),
        typing::check_pattern(s, APattern::Wildcard { span }, ty, vars) == Ok::<
            (TPattern, Vars),
            Diag,
        >((TPattern::Wildcard, vars)),
        typing::check_pattern(s, APattern::Binding { name, span }, ty, vars) == Ok::<
            (TPattern, Vars),
            Diag,
        >(
            (
                TPattern::Binding { name, ty },
                vars.push((name, Var { ty, mutable: false })),
            ),
        ),
{
    reveal(typing::int_pattern);
}

/// The pattern of a variant is accepted exactly for the enum that has it, with as many
/// patterns inside as it has values, each accepted for its type.
pub proof fn law_variant_patterns_are_accepted(
    s: Site,
    path: Seq<Text>,
    ps: Seq<APattern>,
    ty: TType,
    vars: Vars,
    span: Span,
)
    ensures
        ({
            let r = typing::check_pattern(
                s,
                APattern::Variant { path, subpatterns: ps, span },
                ty,
                vars,
            );
            let v = typing::find_variant(s.defs, s.module, path);
            let (en, tag, tys) = v->0;
            let inner = typing::check_patterns(s, ps, tys, 0, Seq::empty(), vars);
            &&& r is Ok <==> v is Some && ty == TType::Enum(en) && ps.len() == tys.len()
                && inner is Ok
            &&& r matches Ok((x, v1)) ==> x == (TPattern::Variant {
                enum_name: en,
                tag,
                subpatterns: inner->Ok_0.0,
            }) && v1 == inner->Ok_0.1
        }),
{
    reveal(typing::variant_pattern);
}

/// The pattern of a tuple of two or more is accepted exactly for a tuple of as many, each
/// pattern for its type.
pub proof fn law_tuple_patterns_are_accepted(
    s: Site,
    ps: Seq<APattern>,
    ty: TType,
    vars: Vars,
    span: Span,
)
    requires
        ps.len() >= 2,
    ensures
        ({
            let r = typing::check_pattern(s, APattern::Tuple { elems: ps, span }, ty, vars);
            &&& !(ty is Tuple) ==> r is Err
            &&& ty matches TType::Tuple(ts) ==> {
                let inner = typing::check_patterns(s, ps, ts, 0, Seq::empty(), vars);
                &&& r is Ok <==> ps.len() == ts.len() && inner is Ok
                &&& r matches Ok((x, v1)) ==> x == TPattern::Tuple(inner->Ok_0.0) && v1
                    == inner->Ok_0.1
            }
        }),
{
    reveal(typing::tuple_pattern);
}

/// Patterns side by side are checked one by one, each with the variables of those before it
/// in scope.
pub proof fn law_patterns_side_by_side(
    s: Site,
    ps: Seq<APattern>,
    ts: Seq<TType>,
    vars: Vars,
)
    requires
        ps.len() == ts.len(),
    ensures
        ps.len() == 0 ==> typing::check_patterns(s, ps, ts, 0, Seq::empty(), vars) == Ok::<
            (Seq<TPattern>, Vars),
            Diag,
        >((Seq::empty(), vars)),
        ps.len() == 1 ==> (typing::check_pattern(s, ps[0], ts[0], vars) matches Ok((p, v))
            ==> typing::check_patterns(s, ps, ts, 0, Seq::empty(), vars) == Ok::<
            (Seq<TPattern>, Vars),
            Diag,
        >((seq![p], v))),
        ps.len() == 2 ==> (typing::check_pattern(s, ps[0], ts[0], vars) matches Ok((p, v)) ==> (
        typing::check_pattern(s, ps[1], ts[1], v) matches Ok((q, w)) ==> typing::check_patterns(
            s,
            ps,
            ts,
            0,
            Seq::empty(),
            vars,
        ) == Ok::<(Seq<TPattern>, Vars), Diag>((seq![p, q], w)))),
        typing::check_patterns(s, ps, ts, 0, Seq::empty(), vars) is Ok ==> ps.len() == 0
            || typing::check_pattern(s, ps[0], ts[0], vars) is Ok,
{
    reveal_with_fuel(typing::check_patterns, 4);
    if ps.len() == 1 {
        if let Ok((p, v)) = typing::check_pattern(s, ps[0], ts[0], vars) {
            assert(Seq::<TPattern>::empty().push(p) =~= seq![p]);
        }
    }
    if ps.len() == 2 {
        if let Ok((p, v)) = typing::check_pattern(s, ps[0], ts[0], vars) {
            if let Ok((q, w)) = typing::check_pattern(s, ps[1], ts[1], v) {
                assert(Seq::<TPattern>::empty().push(p).push(q) =~= seq![p, q]);
            }
        }
    }
}

// ---- matches ------------------------------------------------------------

/// Whether a pattern is a name or `_`.
pub open spec fn open_pattern(p: TPattern) -> bool {
    p is Wildcard || p is Binding
}

/// The arms of a `match` are enough where one without a guard is a name or `_`, and on `bool`
/// where `true` and `false` have an arm without a guard.
pub proof fn law_enough_arms(defs: Defs, ty: TType, arms: Seq<TArm>, span: Span)
    ensures
        (exists|i: int|
            0 <= i < arms.len() && (#[trigger] arms[i]).guard is None && open_pattern(
                arms[i].pattern,
            )) ==> typing::exhaustive(defs, ty, arms, span) is Ok,
        ty is Bool && takes_boolean(arms, true) && takes_boolean(arms, false)
            ==> typing::exhaustive(defs, ty, arms, span) is Ok,
{
    reveal(typing::exhaustive);
    if exists|i: int|
        0 <= i < arms.len() && (#[trigger] arms[i]).guard is None && open_pattern(
            arms[i].pattern,
        ) {
        let i = choose|i: int|
            0 <= i < arms.len() && (#[trigger] arms[i]).guard is None && open_pattern(
                arms[i].pattern,
            );
        assert(typing::irrefutable(defs.enums, arms[i].pattern));
        assert(typing::catch_all(defs.enums, arms));
    }
    if takes_boolean(arms, true) && takes_boolean(arms, false) {
        lemma_boolean(arms, true);
        lemma_boolean(arms, false);
    }
}

/// Whether a pattern takes every value of its type: a name, `_`, a tuple of such patterns,
/// alternatives of which one is such, or the only variant of an enum with such patterns inside.
pub open spec fn takes_everything(enums: name_map::Table<ir::TEnum>, p: TPattern) -> bool
    decreases p,
{
    match p {
        TPattern::Wildcard => true,
        TPattern::Binding { name, ty } => true,
        TPattern::Tuple(ps) => forall|i: int|
            0 <= i < ps.len() ==> takes_everything(enums, #[trigger] ps[i]),
        TPattern::Or(ps) => exists|i: int|
            0 <= i < ps.len() && takes_everything(enums, #[trigger] ps[i]),
        TPattern::Variant { enum_name, tag, subpatterns } => {
            &&& name_map::find(enums, enum_name) matches Some(d) && d.variants.len() == 1
            &&& forall|i: int|
                0 <= i < subpatterns.len() ==> takes_everything(enums, #[trigger] subpatterns[i])
        },
        _ => false,
    }
}

proof fn lemma_everything(enums: name_map::Table<ir::TEnum>, p: TPattern)
    ensures
        typing::irrefutable(enums, p) <==> takes_everything(enums, p),
    decreases p, 0int,
{
    match p {
        TPattern::Tuple(ps) => lemma_each_everything(enums, ps, 0),
        TPattern::Or(ps) => lemma_some_everything(enums, ps, 0),
        TPattern::Variant { enum_name, tag, subpatterns } => lemma_each_everything(
            enums,
            subpatterns,
            0,
        ),
        _ => {},
    }
}

proof fn lemma_each_everything(enums: name_map::Table<ir::TEnum>, ps: Seq<TPattern>, i: int)
    requires
        0 <= i <= ps.len(),
    ensures
        typing::each_irrefutable(enums, ps, i) <==> forall|k: int|
            i <= k < ps.len() ==> takes_everything(enums, #[trigger] ps[k]),
    decreases ps, ps.len() - i,
{
    if i < ps.len() {
        lemma_everything(enums, ps[i]);
        lemma_each_everything(enums, ps, i + 1);
    }
}

proof fn lemma_some_everything(enums: name_map::Table<ir::TEnum>, ps: Seq<TPattern>, i: int)
    requires
        0 <= i <= ps.len(),
    ensures
        typing::some_irrefutable(enums, ps, i) <==> exists|k: int|
            i <= k < ps.len() && takes_everything(enums, #[trigger] ps[k]),
    decreases ps, ps.len() - i,
{
    if i < ps.len() {
        lemma_everything(enums, ps[i]);
        lemma_some_everything(enums, ps, i + 1);
    }
}

/// One arm without a guard is enough where its pattern takes everything; for a type that is
/// neither an enum nor `bool` there must be such an arm.
pub proof fn law_one_arm_is_enough(defs: Defs, ty: TType, arms: Seq<TArm>, span: Span)
    ensures
        (exists|i: int|
            0 <= i < arms.len() && (#[trigger] arms[i]).guard is None && takes_everything(
                defs.enums,
                arms[i].pattern,
            )) ==> typing::exhaustive(defs, ty, arms, span) is Ok,
        !(ty is Enum || ty is Bool) && typing::exhaustive(defs, ty, arms, span) is Ok ==> exists|
            i: int,
        |
            0 <= i < arms.len() && (#[trigger] arms[i]).guard is None && takes_everything(
                defs.enums,
                arms[i].pattern,
            ),
{
    reveal(typing::exhaustive);
    assert forall|i: int| 0 <= i < arms.len() implies (typing::irrefutable(
        defs.enums,
        (#[trigger] arms[i]).pattern,
    ) <==> takes_everything(defs.enums, arms[i].pattern)) by {
        lemma_everything(defs.enums, arms[i].pattern);
    }
}

/// Alternatives count like arms of their own: one that takes all of a variant, or a boolean,
/// takes it for the whole pattern.
pub proof fn law_alternatives_count(
    enums: name_map::Table<ir::TEnum>,
    ps: Seq<TPattern>,
    tag: int,
    b: bool,
)
    ensures
        typing::covers_tag(enums, TPattern::Or(ps), tag) <==> exists|i: int|
            0 <= i < ps.len() && typing::covers_tag(enums, #[trigger] ps[i], tag),
        typing::covers_bool(TPattern::Or(ps), b) <==> exists|i: int|
            0 <= i < ps.len() && typing::covers_bool(#[trigger] ps[i], b),
        forall|n: Text, t: usize, subs: Seq<TPattern>|
            #[trigger] typing::covers_tag(
                enums,
                TPattern::Variant { enum_name: n, tag: t, subpatterns: subs },
                tag,
            ) <==> t == tag && forall|i: int|
                0 <= i < subs.len() ==> takes_everything(enums, #[trigger] subs[i]),
{
    lemma_some_tag(enums, ps, tag, 0);
    lemma_some_boolean(ps, b, 0);
    assert forall|n: Text, t: usize, subs: Seq<TPattern>|
        #[trigger] typing::covers_tag(
            enums,
            TPattern::Variant { enum_name: n, tag: t, subpatterns: subs },
            tag,
        ) <==> t == tag && forall|i: int|
            0 <= i < subs.len() ==> takes_everything(enums, #[trigger] subs[i]) by {
        lemma_each_everything(enums, subs, 0);
    }
}

proof fn lemma_some_tag(enums: name_map::Table<ir::TEnum>, ps: Seq<TPattern>, tag: int, i: int)
    requires
        0 <= i <= ps.len(),
    ensures
        typing::some_covers_tag(enums, ps, tag, i) <==> exists|k: int|
            i <= k < ps.len() && typing::covers_tag(enums, #[trigger] ps[k], tag),
    decreases ps.len() - i,
{
    if i < ps.len() {
        lemma_some_tag(enums, ps, tag, i + 1);
    }
}

proof fn lemma_some_boolean(ps: Seq<TPattern>, b: bool, i: int)
    requires
        0 <= i <= ps.len(),
    ensures
        typing::some_covers_bool(ps, b, i) <==> exists|k: int|
            i <= k < ps.len() && typing::covers_bool(#[trigger] ps[k], b),
    decreases ps.len() - i,
{
    if i < ps.len() {
        lemma_some_boolean(ps, b, i + 1);
    }
}

/// The arms of a `match` on an enum are enough where each variant has an arm without a guard
/// that takes all its values.
pub proof fn law_enough_variants(
    defs: Defs,
    n: Text,
    d: ir::TEnum,
    arms: Seq<TArm>,
    span: Span,
)
    requires
        name_map::find(defs.enums, n) == Some(d),
        forall|tag: int| 0 <= tag < d.variants.len() ==> #[trigger] takes_variant(arms, tag),
    ensures
        typing::exhaustive(defs, TType::Enum(n), arms, span) is Ok,
{
    reveal(typing::exhaustive);
    lemma_covered(defs, arms, d.variants, 0);
}

/// Whether an arm without a guard takes every value of the variant.
pub open spec fn takes_variant(arms: Seq<TArm>, tag: int) -> bool {
    exists|i: int| 0 <= i < arms.len() && takes_all(#[trigger] arms[i], tag)
}

pub open spec fn takes_all(a: TArm, tag: int) -> bool {
    &&& a.guard is None
    &&& a.pattern matches TPattern::Variant { enum_name, tag: t, subpatterns } && t == tag
        && forall|k: int| 0 <= k < subpatterns.len() ==> open_pattern(#[trigger] subpatterns[k])
}

/// Whether an arm without a guard is `true`, or `false`.
pub open spec fn takes_boolean(arms: Seq<TArm>, b: bool) -> bool {
    exists|i: int|
        0 <= i < arms.len() && (#[trigger] arms[i]).guard is None && arms[i].pattern
            == TPattern::Bool(b)
}

proof fn lemma_boolean(arms: Seq<TArm>, b: bool)
    requires
        takes_boolean(arms, b),
    ensures
        typing::bool_covered(arms, b),
{
    let i = choose|i: int|
        0 <= i < arms.len() && (#[trigger] arms[i]).guard is None && arms[i].pattern
            == TPattern::Bool(b);
    assert(typing::covers_bool(arms[i].pattern, b));
}

proof fn lemma_open(defs: Defs, ps: Seq<TPattern>, i: int)
    requires
        0 <= i,
        forall|k: int| 0 <= k < ps.len() ==> open_pattern(#[trigger] ps[k]),
    ensures
        typing::each_irrefutable(defs.enums, ps, i),
    decreases ps.len() - i,
{
    if i < ps.len() {
        assert(open_pattern(ps[i]));
        assert(typing::irrefutable(defs.enums, ps[i]));
        lemma_open(defs, ps, i + 1);
    }
}

proof fn lemma_covered(defs: Defs, arms: Seq<TArm>, vs: Seq<ir::TVariant>, i: int)
    requires
        0 <= i,
        forall|tag: int| 0 <= tag < vs.len() ==> #[trigger] takes_variant(arms, tag),
    ensures
        typing::uncovered(defs.enums, arms, vs, i, Seq::empty()).len() == 0,
    decreases vs.len() - i,
{
    if i < vs.len() {
        assert(takes_variant(arms, i));
        let k = choose|k: int| 0 <= k < arms.len() && takes_all(#[trigger] arms[k], i);
        match arms[k].pattern {
            TPattern::Variant { enum_name, tag, subpatterns } => lemma_open(defs, subpatterns, 0),
            _ => {},
        }
        assert(typing::covers_tag(defs.enums, arms[k].pattern, i));
        assert(typing::tag_covered(defs.enums, arms, i));
        lemma_covered(defs, arms, vs, i + 1);
    }
}

/// A `match` is accepted exactly if it has arms, what it matches is accepted, its arms are
/// accepted and of one type, and they are enough. It is of that type.
pub proof fn law_match_is_accepted(
    s: Site,
    vars: Vars,
    scrutinee: AExpr,
    arms: Seq<AMatchArm>,
    span: Span,
    t: Option<TType>,
)
    ensures
        ({
            let r = typing::check_expr(
                s,
                vars,
                AExpr::Match { scrutinee: Box::new(scrutinee), arms, span },
                t,
            );
            let v = typing::check_expr(s, vars, scrutinee, None);
            let a = typing::check_arms(s, vars, arms, v->Ok_0.ty, 0, Seq::empty(), t);
            &&& r is Ok <==> arms.len() > 0 && v is Ok && a is Ok && typing::exhaustive(
                s.defs,
                v->Ok_0.ty,
                a->Ok_0.0,
                span,
            ) is Ok
            &&& r matches Ok(e) ==> {
                &&& e.kind matches TKind::Match { scrutinee: x, arms: ys } && *x == v->Ok_0 && ys
                    == a->Ok_0.0
                &&& a->Ok_0.0.len() == arms.len()
                &&& forall|i: int| 0 <= i < arms.len() ==> (#[trigger] a->Ok_0.0[i]).body.ty == e.ty
            }
        }),
{
    reveal(typing::match_flow);
    let v = typing::check_expr(s, vars, scrutinee, None);
    if v is Ok {
        lemma_arms_alike(s, vars, arms, v->Ok_0.ty, 0, Seq::empty(), t);
    }
}

proof fn lemma_arms_alike(
    s: Site,
    vars: Vars,
    arms: Seq<AMatchArm>,
    sty: TType,
    i: int,
    acc: Seq<TArm>,
    t: Option<TType>,
)
    requires
        0 <= i <= arms.len(),
        acc.len() == i,
        i > 0 ==> t is Some && forall|k: int| 0 <= k < i ==> (#[trigger] acc[k]).body.ty == t->0,
    ensures
        typing::check_arms(s, vars, arms, sty, i, acc, t) matches Ok((ys, ty)) ==> {
            &&& ys.len() == arms.len()
            &&& arms.len() > 0 ==> ty is Some
            &&& forall|k: int| 0 <= k < arms.len() ==> (#[trigger] ys[k]).body.ty == ty->0
        },
    decreases arms.len() - i,
{
    if i < arms.len() {
        match typing::check_arm(s, vars, arms[i], sty, t) {
            Ok(a) => {
                if t is None || t->0 == a.body.ty {
                    lemma_arms_alike(s, vars, arms, sty, i + 1, acc.push(a), Some(a.body.ty));
                }
            },
            Err(_) => {},
        }
    }
}

// ---- literals of several parts ------------------------------------------

/// The elements of an accepted array literal are of one type, and the array has as many as
/// are written.
pub proof fn law_arrays_are_of_one_type(
    s: Site,
    vars: Vars,
    elems: Seq<AExpr>,
    span: Span,
    t: Option<TType>,
)
    requires
        0 < elems.len() <= u64::MAX,
    ensures
        typing::check_expr(s, vars, AExpr::Array { elems, span }, t) matches Ok(e) ==> {
            &&& e.kind matches TKind::Array(vs) && e.ty matches TType::Array(x, n) && n
                == elems.len() && vs.len() == elems.len() && forall|i: int|
                0 <= i < vs.len() ==> (#[trigger] vs[i]).ty == *x
        },
{
    reveal(typing::array_flow);
    reveal(typing::empty_array);
    lemma_elements_alike(s, vars, elems, 0, Seq::empty(), typing::array_context(t));
}

proof fn lemma_elements_alike(
    s: Site,
    vars: Vars,
    elems: Seq<AExpr>,
    i: int,
    acc: Seq<TExpr>,
    t: Option<TType>,
)
    requires
        0 <= i <= elems.len(),
        acc.len() == i,
        i > 0 ==> t is Some && forall|k: int| 0 <= k < i ==> (#[trigger] acc[k]).ty == t->0,
    ensures
        typing::check_elems(s, vars, elems, i, acc, t) matches Ok((vs, ty)) ==> {
            &&& vs.len() == elems.len()
            &&& elems.len() > 0 ==> ty is Some
            &&& forall|k: int| 0 <= k < elems.len() ==> (#[trigger] vs[k]).ty == ty->0
        },
    decreases elems.len() - i,
{
    if i < elems.len() {
        match typing::check_expr(s, vars, elems[i], t) {
            Ok(e) => {
                if t is None || t->0 == e.ty {
                    lemma_elements_alike(s, vars, elems, i + 1, acc.push(e), Some(e.ty));
                }
            },
            Err(_) => {},
        }
    }
}

/// An accepted tuple literal of two or more has the types of its parts, in order.
pub proof fn law_tuples_have_the_types_of_their_parts(
    s: Site,
    vars: Vars,
    elems: Seq<AExpr>,
    span: Span,
    t: Option<TType>,
)
    requires
        elems.len() >= 2,
    ensures
        typing::check_expr(s, vars, AExpr::Tuple { elems, span }, t) matches Ok(e) ==> {
            e.kind matches TKind::MakeTuple(vs) && e.ty matches TType::Tuple(ts) && vs.len()
                == elems.len() && ts.len() == elems.len() && forall|i: int|
                0 <= i < vs.len() ==> (#[trigger] vs[i]).ty == ts[i]
        },
{
    reveal(typing::tuple_flow);
    reveal(typing::tuple_expr);
    lemma_parts(s, vars, elems, t, 0, Seq::empty());
}

proof fn lemma_parts(
    s: Site,
    vars: Vars,
    elems: Seq<AExpr>,
    t: Option<TType>,
    i: int,
    acc: Seq<TExpr>,
)
    requires
        0 <= i <= elems.len(),
        acc.len() == i,
    ensures
        typing::check_parts(s, vars, elems, t, i, acc) matches Ok(vs) ==> vs.len() == elems.len(),
    decreases elems.len() - i,
{
    if i < elems.len() {
        match typing::check_expr(s, vars, elems[i], typing::tuple_context(t, i, elems.len())) {
            Ok(e) => lemma_parts(s, vars, elems, t, i + 1, acc.push(e)),
            Err(_) => {},
        }
    }
}

/// Where a tuple or an array is expected, each part of a literal is checked against the type that
/// is expected of it.
pub proof fn law_parts_take_the_expected_types(
    s: Site,
    vars: Vars,
    elems: Seq<AExpr>,
    span: Span,
    ts: Seq<TType>,
    x: TType,
    n: u64,
)
    ensures
        ts.len() == elems.len() && elems.len() >= 2 ==> (typing::check_expr(
            s,
            vars,
            AExpr::Tuple { elems, span },
            Some(TType::Tuple(ts)),
        ) matches Ok(e) ==> (e.kind matches TKind::MakeTuple(vs) && vs.len() == elems.len()
            && forall|i: int|
            0 <= i < elems.len() ==> typing::check_expr(s, vars, #[trigger] elems[i], Some(ts[i]))
                == Ok::<TExpr, Diag>(vs[i]))),
        elems.len() >= 1 ==> (typing::check_expr(
            s,
            vars,
            AExpr::Array { elems, span },
            Some(TType::Array(Box::new(x), n)),
        ) matches Ok(e) ==> (e.kind matches TKind::Array(vs) && vs.len() == elems.len() && forall|
            i: int,
        |
            0 <= i < elems.len() ==> typing::check_expr(s, vars, #[trigger] elems[i], Some(x)) == Ok::<
                TExpr,
                Diag,
            >(vs[i]))),
{
    reveal(typing::tuple_flow);
    reveal(typing::tuple_expr);
    reveal(typing::array_flow);
    reveal(typing::empty_array);
    if ts.len() == elems.len() {
        lemma_expected_parts(s, vars, elems, ts, 0, Seq::empty());
    }
    lemma_expected_elements(s, vars, elems, x, 0, Seq::empty());
}

proof fn lemma_expected_parts(
    s: Site,
    vars: Vars,
    elems: Seq<AExpr>,
    ts: Seq<TType>,
    i: int,
    acc: Seq<TExpr>,
)
    requires
        elems.len() == ts.len(),
        0 <= i <= elems.len(),
        acc.len() == i,
        forall|k: int|
            0 <= k < i && elems.len() != 1 ==> typing::check_expr(
                s,
                vars,
                #[trigger] elems[k],
                Some(ts[k]),
            ) == Ok::<TExpr, Diag>(acc[k]),
    ensures
        typing::check_parts(s, vars, elems, Some(TType::Tuple(ts)), i, acc) matches Ok(vs)
            ==> vs.len() == elems.len() && forall|k: int|
            0 <= k < elems.len() && elems.len() != 1 ==> typing::check_expr(
                s,
                vars,
                #[trigger] elems[k],
                Some(ts[k]),
            ) == Ok::<TExpr, Diag>(vs[k]),
    decreases elems.len() - i,
{
    if i < elems.len() {
        let c = typing::tuple_context(Some(TType::Tuple(ts)), i, elems.len());
        match typing::check_expr(s, vars, elems[i], c) {
            Ok(e) => lemma_expected_parts(s, vars, elems, ts, i + 1, acc.push(e)),
            Err(_) => {},
        }
    }
}

proof fn lemma_expected_elements(
    s: Site,
    vars: Vars,
    elems: Seq<AExpr>,
    x: TType,
    i: int,
    acc: Seq<TExpr>,
)
    requires
        0 <= i <= elems.len(),
        acc.len() == i,
        forall|k: int|
            0 <= k < i ==> typing::check_expr(s, vars, #[trigger] elems[k], Some(x)) == Ok::<
                TExpr,
                Diag,
            >(acc[k]),
    ensures
        typing::check_elems(s, vars, elems, i, acc, Some(x)) matches Ok((vs, ty)) ==> ty is Some
            && vs.len() == elems.len() && forall|k: int|
            0 <= k < elems.len() ==> typing::check_expr(s, vars, #[trigger] elems[k], Some(x))
                == Ok::<TExpr, Diag>(vs[k]),
    decreases elems.len() - i,
{
    if i < elems.len() {
        match typing::check_expr(s, vars, elems[i], Some(x)) {
            Ok(e) => {
                if e.ty == x {
                    lemma_expected_elements(s, vars, elems, x, i + 1, acc.push(e));
                }
            },
            Err(_) => {},
        }
    }
}

/// Whether the literal gives the field, at `k`, a value of its type.
pub open spec fn gives_field(
    s: Site,
    vars: Vars,
    fields: Seq<(Text, AExpr)>,
    k: int,
    f: TField,
) -> bool {
    &&& 0 <= k < fields.len()
    &&& fields[k].0 == f.name
    &&& acceptance::accepted(
        typing::check_expr(s, vars, fields[k].1, Some(f.ty)),
        |x: TType| x == f.ty,
    )
}

/// Whether the literal gives the field a value of its type.
pub open spec fn is_given(s: Site, vars: Vars, fields: Seq<(Text, AExpr)>, f: TField) -> bool {
    exists|k: int| #[trigger] gives_field(s, vars, fields, k, f)
}

/// A struct literal is accepted exactly if it gives each field of the struct a value of its
/// type, none of them twice, and nothing else. The values are then those of the fields, in
/// the order in which the struct has them.
pub proof fn law_struct_literals_are_accepted(
    s: Site,
    vars: Vars,
    path: Seq<Text>,
    fields: Seq<(Text, AExpr)>,
    span: Span,
    t: Option<TType>,
    full: Text,
    d: ir::TStruct,
)
    requires
        typing::look_up(s.defs.structs, s.defs.imports, s.module, path) == Some((full, d)),
    ensures
        ({
            let r = typing::check_expr(s, vars, AExpr::StructLit { path, fields, span }, t);
            let once = forall|k: int, l: int|
                0 <= k < l < fields.len() ==> (#[trigger] fields[k]).0 != (#[trigger] fields[l]).0;
            let known = forall|k: int|
                0 <= k < fields.len() ==> exists|j: int|
                    0 <= j < d.fields.len() && (#[trigger] d.fields[j]).name == (
                    #[trigger] fields[k]).0;
            let given = forall|j: int|
                0 <= j < d.fields.len() ==> is_given(
                    s,
                    vars,
                    fields,
                    #[trigger] d.fields[j],
                );
            &&& r is Ok <==> once && known && given
            &&& r matches Ok(e) ==> {
                &&& e.ty == TType::Struct(full)
                &&& e.kind matches TKind::MakeStruct { name, fields: vs } && name == full
                    && vs.len() == d.fields.len() && forall|j: int, k: int|
                    0 <= j < vs.len() && #[trigger] gives_field(
                        s,
                        vars,
                        fields,
                        k,
                        d.fields[j],
                    ) ==> typing::check_expr(s, vars, fields[k].1, Some(d.fields[j].ty)) == Ok::<
                        TExpr,
                        Diag,
                    >(#[trigger] vs[j])
            }
        }),
{
    reveal(typing::struct_of);
    reveal(typing::struct_flow);
    reveal(typing::struct_rule);
    let sd = d.fields;
    lemma_once(fields, 0);
    if typing::repeated_field(fields, 0) is None {
        lemma_known(fields, sd, 0);
        lemma_inits(s, vars, fields, sd, typing::path_text(path), span, 0, Seq::empty());
    }
}

proof fn lemma_once(fields: Seq<(Text, AExpr)>, i: int)
    requires
        0 <= i <= fields.len(),
    ensures
        typing::repeated_field(fields, i) is None <==> forall|k: int, l: int|
            0 <= k < l < fields.len() && i <= l ==> (#[trigger] fields[k]).0 != (
            #[trigger] fields[l]).0,
    decreases fields.len() - i,
{
    if i < fields.len() {
        lemma_once(fields, i + 1);
        if typing::given_before(fields, fields[i].0, i) {
            let k = choose|k: int|
                0 <= k < i && k < fields.len() && (#[trigger] fields[k]).0 == fields[i].0;
            assert(fields[k].0 == fields[i].0);
        } else {
            assert forall|k: int| 0 <= k < i implies (#[trigger] fields[k]).0 != fields[i].0 by {}
        }
    }
}

proof fn lemma_found(sd: Seq<TField>, n: Text, i: int)
    requires
        0 <= i <= sd.len(),
    ensures
        ir::field_from(sd, n, i) is Some <==> exists|j: int|
            i <= j < sd.len() && (#[trigger] sd[j]).name == n,
    decreases sd.len() - i,
{
    if i < sd.len() {
        lemma_found(sd, n, i + 1);
    }
}

proof fn lemma_known(fields: Seq<(Text, AExpr)>, sd: Seq<TField>, i: int)
    requires
        0 <= i <= fields.len(),
    ensures
        typing::extra_field(fields, sd, i) is None <==> forall|k: int|
            i <= k < fields.len() ==> exists|j: int|
                0 <= j < sd.len() && (#[trigger] sd[j]).name == (#[trigger] fields[k]).0,
    decreases fields.len() - i,
{
    if i < fields.len() {
        lemma_found(sd, fields[i].0, 0);
        lemma_known(fields, sd, i + 1);
    }
}

proof fn lemma_init(fields: Seq<(Text, AExpr)>, n: Text, i: int)
    requires
        0 <= i <= fields.len(),
        typing::repeated_field(fields, 0) is None,
    ensures
        forall|k: int|
            i <= k < fields.len() && (#[trigger] fields[k]).0 == n ==> typing::init_of(fields, n, i)
                == Some(k),
        typing::init_of(fields, n, i) matches Some(k) ==> i <= k < fields.len() && fields[k].0 == n,
    decreases fields.len() - i,
{
    lemma_once(fields, 0);
    if i < fields.len() {
        lemma_init(fields, n, i + 1);
    }
}

proof fn lemma_inits(
    s: Site,
    vars: Vars,
    fields: Seq<(Text, AExpr)>,
    sd: Seq<TField>,
    name: Text,
    span: Span,
    i: int,
    acc: Seq<TExpr>,
)
    requires
        0 <= i <= sd.len(),
        acc.len() == i,
        typing::repeated_field(fields, 0) is None,
        forall|j: int, k: int|
            0 <= j < i && #[trigger] gives_field(s, vars, fields, k, sd[j]) ==> typing::check_expr(
                s,
                vars,
                fields[k].1,
                Some(sd[j].ty),
            ) == Ok::<TExpr, Diag>(#[trigger] acc[j]),
    ensures
        ({
            let r = typing::check_inits(s, vars, fields, sd, name, span, i, acc);
            &&& r is Ok <==> forall|j: int|
                i <= j < sd.len() ==> is_given(s, vars, fields, #[trigger] sd[j])
            &&& r matches Ok(vs) ==> vs.len() == sd.len() && forall|j: int, k: int|
                0 <= j < sd.len() && #[trigger] gives_field(s, vars, fields, k, sd[j])
                    ==> typing::check_expr(s, vars, fields[k].1, Some(sd[j].ty)) == Ok::<
                    TExpr,
                    Diag,
                >(#[trigger] vs[j])
        }),
    decreases sd.len() - i,
{
    reveal(typing::field_rule);
    if i < sd.len() {
        let f = sd[i];
        lemma_init(fields, f.name, 0);
        match typing::init_of(fields, f.name, 0) {
            None => {
                assert forall|k: int| !(#[trigger] gives_field(s, vars, fields, k, f)) by {}
                assert(!is_given(s, vars, fields, sd[i]));
            },
            Some(k) => {
                let r = typing::check_expr(s, vars, fields[k].1, Some(f.ty));
                assert forall|l: int| #[trigger] gives_field(s, vars, fields, l, f) implies l
                    == k by {}
                if r is Ok && r->Ok_0.ty == f.ty {
                    let acc1 = acc.push(r->Ok_0);
                    assert(gives_field(s, vars, fields, k, f));
                    assert forall|j: int, l: int|
                        0 <= j < i + 1 && #[trigger] gives_field(
                            s,
                            vars,
                            fields,
                            l,
                            sd[j],
                        ) implies typing::check_expr(s, vars, fields[l].1, Some(sd[j].ty)) == Ok::<
                        TExpr,
                        Diag,
                    >(#[trigger] acc1[j]) by {
                        if j < i {
                            assert(acc1[j] == acc[j]);
                        }
                    }
                    lemma_inits(s, vars, fields, sd, name, span, i + 1, acc1);
                    assert(is_given(s, vars, fields, sd[i]));
                    assert(typing::check_inits(s, vars, fields, sd, name, span, i, acc)
                        == typing::check_inits(s, vars, fields, sd, name, span, i + 1, acc1));
                } else {
                    assert(!gives_field(s, vars, fields, k, f));
                    assert forall|l: int| !(#[trigger] gives_field(s, vars, fields, l, f)) by {}
                    assert(!is_given(s, vars, fields, sd[i]));
                }
            },
        }
    }
}

} // verus!
