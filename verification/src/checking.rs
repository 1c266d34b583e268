//! What the checker accepts is well-typed: by induction over the syntax tree, every
//! typed construct that the typing rules give is one that `welltyped` admits.

use crate::ast::{ABlock, AElseBranch, AExpr, AMatchArm, APattern, AStmt};
use crate::ir::{self, TArm, TExpr, TField, TPattern, TStmt, TType, TVariant};
use crate::name_map;
use crate::semantics;
use crate::span::Span;
use crate::text::Text;
use crate::typing::{self, Defs, Site, Var, Vars};
use crate::welltyped;
use vstd::prelude::*;

verus! {

// ---- patterns -----------------------------------------------------------

proof fn lemma_slot_of<T>(a: Seq<(Text, T)>, k: int, i: int)
    requires
        0 <= k < i <= a.len(),
    ensures
        semantics::slot_before(a, a[k].0, i) is Some,
    decreases i,
{
    if a[i - 1].0 != a[k].0 {
        lemma_slot_of(a, k, i - 1);
    }
}

proof fn lemma_binds_itself(a: Vars)
    ensures
        typing::binds_within(a, a),
{
    assert forall|i: int| 0 <= i < a.len() implies ({
        let n = (#[trigger] a[i]).0;
        semantics::slot(a, n) matches Some(p) && semantics::slot(a, n) matches Some(q)
            && a[p].1.ty == a[q].1.ty
    }) by {
        lemma_slot_of(a, i, a.len() as int);
    }
}

proof fn lemma_patterns_ok(d: Defs, ps: Seq<TPattern>, ts: Seq<TType>, i: int)
    requires
        0 <= i,
        ps.len() == ts.len(),
        forall|k: int| i <= k < ps.len() ==> welltyped::pattern_ok(d, #[trigger] ps[k], ts[k]),
    ensures
        welltyped::patterns_ok(d, ps, ts, i),
    decreases ps.len() - i,
{
    if i < ps.len() {
        lemma_patterns_ok(d, ps, ts, i + 1);
    }
}

pub open spec fn alternative_ok(d: Defs, ps: Seq<TPattern>, t: TType, k: int) -> bool {
    welltyped::pattern_ok(d, ps[k], t) && typing::binds_within(
        welltyped::pattern_vars(ps[0]),
        welltyped::pattern_vars(ps[k]),
    ) && typing::binds_within(welltyped::pattern_vars(ps[k]), welltyped::pattern_vars(ps[0]))
}

proof fn lemma_alternatives_ok(d: Defs, ps: Seq<TPattern>, t: TType, i: int)
    requires
        0 <= i,
        forall|k: int| i <= k < ps.len() ==> #[trigger] alternative_ok(d, ps, t, k),
    ensures
        welltyped::alternatives_ok(d, ps, t, i),
    decreases ps.len() - i,
{
    if i < ps.len() {
        assert(alternative_ok(d, ps, t, i));
        lemma_alternatives_ok(d, ps, t, i + 1);
    }
}

proof fn ok_pattern(s: Site, p: APattern, ty: TType, vars: Vars)
    requires
        typing::check_pattern(s, p, ty, vars) is Ok,
    ensures
        ({
            let (t, vars1) = typing::check_pattern(s, p, ty, vars)->Ok_0;
            welltyped::pattern_ok(s.defs, t, ty) && vars1 == vars + welltyped::pattern_vars(t)
        }),
    decreases p, 0int,
{
    let (t, vars1) = typing::check_pattern(s, p, ty, vars)->Ok_0;
    assert(vars + Seq::<(Text, Var)>::empty() =~= vars);
    match p {
        APattern::Binding { name, span } => {
            let x = (name, Var { ty, mutable: false });
            assert(vars.push(x) =~= vars + seq![x]);
        },
        APattern::Int { value, span } => {
            reveal(typing::int_pattern);
        },
        APattern::Range { lo, hi, inclusive, span } => {
            reveal(typing::int_pattern);
        },
        APattern::Variant { path, subpatterns, span } => {
            reveal(typing::variant_pattern);
            let (en, tag, fields) = typing::variant_pattern(
                s,
                path,
                ty,
                subpatterns.len(),
                span,
            )->Ok_0;
            ok_patterns(s, subpatterns, fields, 0, Seq::empty(), vars);
            let (subs, _) = typing::check_patterns(
                s,
                subpatterns,
                fields,
                0,
                Seq::empty(),
                vars,
            )->Ok_0;
            lemma_patterns_ok(s.defs, subs, fields, 0);
        },
        APattern::Tuple { elems, span } => {
            if elems.len() == 0 && ty == TType::Unit {
            } else if elems.len() == 1 {
                ok_pattern(s, elems[0], ty, vars);
            } else {
                reveal(typing::tuple_pattern);
                let ts = typing::tuple_pattern(ty, elems.len(), span)->Ok_0;
                ok_patterns(s, elems, ts, 0, Seq::empty(), vars);
                let (subs, _) = typing::check_patterns(s, elems, ts, 0, Seq::empty(), vars)->Ok_0;
                lemma_patterns_ok(s.defs, subs, ts, 0);
            }
        },
        APattern::Or { alts, span } => {
            ok_pattern(s, alts[0], ty, vars);
            let (first, vars0) = typing::check_pattern(s, alts[0], ty, vars)->Ok_0;
            let bound = vars0.subrange(vars.len() as int, vars0.len() as int);
            assert(bound =~= welltyped::pattern_vars(first));
            lemma_binds_itself(bound);
            ok_alts(s, alts, ty, 1, seq![first], vars, bound, span);
            let ps = typing::check_alts(s, alts, ty, 1, seq![first], vars, bound, span)->Ok_0;
            assert(ps[0] == first);
            assert forall|k: int| 0 <= k < ps.len() implies #[trigger] alternative_ok(
                s.defs,
                ps,
                ty,
                k,
            ) by {
                if k > 0 {
                    assert(matches_bound(s.defs, ps[k], ty, bound));
                }
            }
            lemma_alternatives_ok(s.defs, ps, ty, 0);
        },
        _ => {},
    }
}

proof fn ok_patterns(
    s: Site,
    ps: Seq<APattern>,
    tys: Seq<TType>,
    i: int,
    acc: Seq<TPattern>,
    vars: Vars,
)
    requires
        0 <= i <= ps.len(),
        ps.len() == tys.len(),
        acc.len() == i,
        typing::check_patterns(s, ps, tys, i, acc, vars) is Ok,
    ensures
        ({
            let (ts, vars1) = typing::check_patterns(s, ps, tys, i, acc, vars)->Ok_0;
            &&& ts.len() == ps.len()
            &&& forall|k: int| 0 <= k < i ==> #[trigger] ts[k] == acc[k]
            &&& forall|k: int|
                i <= k < ts.len() ==> welltyped::pattern_ok(s.defs, #[trigger] ts[k], tys[k])
            &&& vars1 == vars + welltyped::patterns_vars(ts, i)
        }),
    decreases ps, ps.len() - i,
{
    assert(vars + Seq::<(Text, Var)>::empty() =~= vars);
    if i < ps.len() {
        ok_pattern(s, ps[i], tys[i], vars);
        let (p, vars1) = typing::check_pattern(s, ps[i], tys[i], vars)->Ok_0;
        let next = acc.push(p);
        ok_patterns(s, ps, tys, i + 1, next, vars1);
        let (ts, vars2) = typing::check_patterns(s, ps, tys, i + 1, next, vars1)->Ok_0;
        assert forall|k: int| 0 <= k < i implies #[trigger] ts[k] == acc[k] by {
            assert(ts[k] == next[k]);
        }
        assert(ts[i] == next[i]);
        assert(vars + (welltyped::pattern_vars(p) + welltyped::patterns_vars(ts, i + 1)) =~= (vars
            + welltyped::pattern_vars(p)) + welltyped::patterns_vars(ts, i + 1));
    }
}

/// Whether an alternative is for the type and binds what the first binds.
pub open spec fn matches_bound(d: Defs, p: TPattern, ty: TType, bound: Vars) -> bool {
    welltyped::pattern_ok(d, p, ty) && typing::binds_within(bound, welltyped::pattern_vars(p))
        && typing::binds_within(welltyped::pattern_vars(p), bound)
}

proof fn ok_alts(
    s: Site,
    ps: Seq<APattern>,
    ty: TType,
    i: int,
    acc: Seq<TPattern>,
    vars: Vars,
    bound: Vars,
    span: Span,
)
    requires
        0 <= i <= ps.len(),
        acc.len() == i,
        typing::check_alts(s, ps, ty, i, acc, vars, bound, span) is Ok,
    ensures
        ({
            let ts = typing::check_alts(s, ps, ty, i, acc, vars, bound, span)->Ok_0;
            &&& ts.len() == ps.len()
            &&& forall|k: int| 0 <= k < i ==> #[trigger] ts[k] == acc[k]
            &&& forall|k: int|
                i <= k < ts.len() ==> matches_bound(s.defs, #[trigger] ts[k], ty, bound)
        }),
    decreases ps, ps.len() - i,
{
    if i < ps.len() {
        ok_pattern(s, ps[i], ty, vars);
        let (p, vars1) = typing::check_pattern(s, ps[i], ty, vars)->Ok_0;
        let mine = vars1.subrange(vars.len() as int, vars1.len() as int);
        assert(mine =~= welltyped::pattern_vars(p));
        let next = acc.push(p);
        ok_alts(s, ps, ty, i + 1, next, vars, bound, span);
        let ts = typing::check_alts(s, ps, ty, i + 1, next, vars, bound, span)->Ok_0;
        assert forall|k: int| 0 <= k < i implies #[trigger] ts[k] == acc[k] by {
            assert(ts[k] == next[k]);
        }
        assert(ts[i] == next[i]);
    }
}

// ---- exhaustiveness -----------------------------------------------------

proof fn lemma_uncovered(d: Defs, arms: Seq<TArm>, vs: Seq<TVariant>, i: int, acc: Seq<Text>)
    requires
        0 <= i,
    ensures
        typing::uncovered(d.enums, arms, vs, i, acc).len() >= acc.len(),
        typing::uncovered(d.enums, arms, vs, i, acc).len() == acc.len() ==> forall|tag: int|
            i <= tag < vs.len() ==> #[trigger] typing::tag_covered(d.enums, arms, tag),
    decreases vs.len() - i,
{
    if i < vs.len() {
        if typing::tag_covered(d.enums, arms, i) {
            lemma_uncovered(d, arms, vs, i + 1, acc);
        } else {
            lemma_uncovered(d, arms, vs, i + 1, acc.push(vs[i].name));
        }
    }
}

proof fn lemma_exhaustive(d: Defs, ty: TType, arms: Seq<TArm>, span: Span)
    requires
        typing::exhaustive(d, ty, arms, span) is Ok,
    ensures
        welltyped::covered(d, ty, arms),
{
    reveal(typing::exhaustive);
    if !typing::catch_all(d.enums, arms) {
        match ty {
            TType::Enum(name) => {
                let ed = name_map::find(d.enums, name)->Some_0;
                lemma_uncovered(d, arms, ed.variants, 0, Seq::empty());
            },
            _ => {},
        }
    }
}

// ---- lists --------------------------------------------------------------

proof fn lemma_exprs(d: Defs, ret: TType, vars: Vars, es: Seq<TExpr>, ts: Seq<TType>, i: int)
    requires
        0 <= i,
        es.len() == ts.len(),
        forall|k: int|
            i <= k < es.len() ==> welltyped::expr_ok(d, ret, vars, #[trigger] es[k]) && es[k].ty
                == ts[k],
    ensures
        welltyped::exprs_ok(d, ret, vars, es, ts, i),
    decreases es.len() - i,
{
    if i < es.len() {
        lemma_exprs(d, ret, vars, es, ts, i + 1);
    }
}

proof fn lemma_elements(d: Defs, ret: TType, vars: Vars, es: Seq<TExpr>, t: TType, i: int)
    requires
        0 <= i,
        forall|k: int|
            i <= k < es.len() ==> welltyped::expr_ok(d, ret, vars, #[trigger] es[k]) && es[k].ty == t,
    ensures
        welltyped::elements_ok(d, ret, vars, es, t, i),
    decreases es.len() - i,
{
    if i < es.len() {
        lemma_elements(d, ret, vars, es, t, i + 1);
    }
}

proof fn lemma_arms(d: Defs, ret: TType, vars: Vars, arms: Seq<TArm>, sty: TType, ty: TType, i: int)
    requires
        0 <= i,
        forall|k: int|
            i <= k < arms.len() ==> welltyped::arm_ok(d, ret, vars, #[trigger] arms[k], sty, ty),
    ensures
        welltyped::arms_ok(d, ret, vars, arms, sty, ty, i),
    decreases arms.len() - i,
{
    if i < arms.len() {
        lemma_arms(d, ret, vars, arms, sty, ty, i + 1);
    }
}

proof fn ok_args(
    s: Site,
    vars: Vars,
    args: Seq<AExpr>,
    tys: Seq<TType>,
    what: Text,
    i: int,
    acc: Seq<TExpr>,
)
    requires
        0 <= i <= args.len(),
        args.len() == tys.len(),
        acc.len() == i,
        typing::check_args(s, vars, args, tys, what, i, acc) is Ok,
    ensures
        ({
            let es = typing::check_args(s, vars, args, tys, what, i, acc)->Ok_0;
            &&& es.len() == args.len()
            &&& forall|k: int| 0 <= k < i ==> #[trigger] es[k] == acc[k]
            &&& forall|k: int|
                i <= k < es.len() ==> welltyped::expr_ok(s.defs, s.ret, vars, #[trigger] es[k])
                    && es[k].ty == tys[k]
        }),
    decreases args, args.len() - i,
{
    if i < args.len() {
        reveal(typing::arg_rule);
        ok_expr(s, vars, args[i], Some(tys[i]));
        let e = typing::check_expr(s, vars, args[i], Some(tys[i]))->Ok_0;
        let next = acc.push(e);
        ok_args(s, vars, args, tys, what, i + 1, next);
        let es = typing::check_args(s, vars, args, tys, what, i + 1, next)->Ok_0;
        assert forall|k: int| 0 <= k < i implies #[trigger] es[k] == acc[k] by {
            assert(es[k] == next[k]);
        }
        assert(es[i] == next[i]);
    }
}

proof fn ok_elems(
    s: Site,
    vars: Vars,
    elems: Seq<AExpr>,
    i: int,
    acc: Seq<TExpr>,
    ty: Option<TType>,
)
    requires
        0 <= i <= elems.len(),
        acc.len() == i,
        typing::check_elems(s, vars, elems, i, acc, ty) is Ok,
    ensures
        ({
            let (es, t) = typing::check_elems(s, vars, elems, i, acc, ty)->Ok_0;
            &&& es.len() == elems.len()
            &&& forall|k: int| 0 <= k < i ==> #[trigger] es[k] == acc[k]
            &&& forall|k: int|
                i <= k < es.len() ==> welltyped::expr_ok(s.defs, s.ret, vars, #[trigger] es[k])
                    && Some(es[k].ty) == t
            &&& ty is Some ==> t == ty
        }),
    decreases elems, elems.len() - i,
{
    if i < elems.len() {
        ok_expr(s, vars, elems[i], ty);
        let e = typing::check_expr(s, vars, elems[i], ty)->Ok_0;
        let next = acc.push(e);
        ok_elems(s, vars, elems, i + 1, next, Some(e.ty));
        let (es, _) = typing::check_elems(s, vars, elems, i + 1, next, Some(e.ty))->Ok_0;
        assert forall|k: int| 0 <= k < i implies #[trigger] es[k] == acc[k] by {
            assert(es[k] == next[k]);
        }
        assert(es[i] == next[i]);
    }
}

proof fn ok_parts(
    s: Site,
    vars: Vars,
    elems: Seq<AExpr>,
    expected: Option<TType>,
    i: int,
    acc: Seq<TExpr>,
)
    requires
        0 <= i <= elems.len(),
        acc.len() == i,
        typing::check_parts(s, vars, elems, expected, i, acc) is Ok,
    ensures
        ({
            let es = typing::check_parts(s, vars, elems, expected, i, acc)->Ok_0;
            &&& es.len() == elems.len()
            &&& forall|k: int| 0 <= k < i ==> #[trigger] es[k] == acc[k]
            &&& forall|k: int|
                i <= k < es.len() ==> welltyped::expr_ok(s.defs, s.ret, vars, #[trigger] es[k])
        }),
    decreases elems, elems.len() - i,
{
    if i < elems.len() {
        let context = typing::tuple_context(expected, i, elems.len());
        ok_expr(s, vars, elems[i], context);
        let e = typing::check_expr(s, vars, elems[i], context)->Ok_0;
        let next = acc.push(e);
        ok_parts(s, vars, elems, expected, i + 1, next);
        let es = typing::check_parts(s, vars, elems, expected, i + 1, next)->Ok_0;
        assert forall|k: int| 0 <= k < i implies #[trigger] es[k] == acc[k] by {
            assert(es[k] == next[k]);
        }
        assert(es[i] == next[i]);
    }
}

proof fn ok_inits(
    s: Site,
    vars: Vars,
    fields: Seq<(Text, AExpr)>,
    sd: Seq<TField>,
    name: Text,
    span: Span,
    i: int,
    acc: Seq<TExpr>,
)
    requires
        0 <= i <= sd.len(),
        acc.len() == i,
        typing::check_inits(s, vars, fields, sd, name, span, i, acc) is Ok,
    ensures
        ({
            let es = typing::check_inits(s, vars, fields, sd, name, span, i, acc)->Ok_0;
            &&& es.len() == sd.len()
            &&& forall|k: int| 0 <= k < i ==> #[trigger] es[k] == acc[k]
            &&& forall|k: int|
                i <= k < es.len() ==> welltyped::expr_ok(s.defs, s.ret, vars, #[trigger] es[k])
                    && es[k].ty == sd[k].ty
        }),
    decreases fields, sd.len() - i,
{
    if i < sd.len() {
        reveal(typing::field_rule);
        let k0 = typing::init_of(fields, sd[i].name, 0)->Some_0;
        ok_expr(s, vars, fields[k0].1, Some(sd[i].ty));
        let e = typing::check_expr(s, vars, fields[k0].1, Some(sd[i].ty))->Ok_0;
        let next = acc.push(e);
        ok_inits(s, vars, fields, sd, name, span, i + 1, next);
        let es = typing::check_inits(s, vars, fields, sd, name, span, i + 1, next)->Ok_0;
        assert forall|k: int| 0 <= k < i implies #[trigger] es[k] == acc[k] by {
            assert(es[k] == next[k]);
        }
        assert(es[i] == next[i]);
    }
}

proof fn ok_arms(
    s: Site,
    vars: Vars,
    arms: Seq<AMatchArm>,
    sty: TType,
    i: int,
    acc: Seq<TArm>,
    ty: Option<TType>,
)
    requires
        0 <= i <= arms.len(),
        acc.len() == i,
        typing::check_arms(s, vars, arms, sty, i, acc, ty) is Ok,
    ensures
        ({
            let (ts, t) = typing::check_arms(s, vars, arms, sty, i, acc, ty)->Ok_0;
            &&& ts.len() == arms.len()
            &&& forall|k: int| 0 <= k < i ==> #[trigger] ts[k] == acc[k]
            &&& i < arms.len() ==> t is Some
            &&& forall|k: int|
                i <= k < ts.len() ==> welltyped::arm_ok(
                    s.defs,
                    s.ret,
                    vars,
                    #[trigger] ts[k],
                    sty,
                    t->Some_0,
                )
            &&& ty is Some ==> t == ty
        }),
    decreases arms, arms.len() - i,
{
    if i < arms.len() {
        ok_arm(s, vars, arms[i], sty, ty);
        let a = typing::check_arm(s, vars, arms[i], sty, ty)->Ok_0;
        let next = acc.push(a);
        ok_arms(s, vars, arms, sty, i + 1, next, Some(a.body.ty));
        let (ts, _) = typing::check_arms(s, vars, arms, sty, i + 1, next, Some(a.body.ty))->Ok_0;
        assert forall|k: int| 0 <= k < i implies #[trigger] ts[k] == acc[k] by {
            assert(ts[k] == next[k]);
        }
        assert(ts[i] == next[i]);
    }
}

proof fn ok_arm(s: Site, vars: Vars, arm: AMatchArm, sty: TType, ty: Option<TType>)
    requires
        typing::check_arm(s, vars, arm, sty, ty) is Ok,
    ensures
        ({
            let a = typing::check_arm(s, vars, arm, sty, ty)->Ok_0;
            welltyped::arm_ok(s.defs, s.ret, vars, a, sty, a.body.ty)
        }),
    decreases arm, 0int,
{
    reveal(typing::arm_flow);
    reveal(typing::expect_type);
    let p = typing::check_pattern(s, arm.pattern, sty, vars);
    ok_pattern(s, arm.pattern, sty, vars);
    let inner = typing::vars_of(p);
    match arm.guard {
        Some(g) => ok_expr(s, inner, g, Some(TType::Bool)),
        None => {},
    }
    ok_expr(s, inner, arm.body, ty);
}

proof fn ok_else(s: Site, vars: Vars, b: AElseBranch, expected: Option<TType>)
    requires
        typing::check_else(s, vars, b, expected) is Ok,
    ensures
        welltyped::block_ok(s.defs, s.ret, vars, typing::check_else(s, vars, b, expected)->Ok_0),
    decreases b, 0int,
{
    match b {
        AElseBranch::Block(b) => ok_block(s, vars, b, expected),
        AElseBranch::If(e) => {
            reveal(typing::else_flow);
            ok_expr(s, vars, e, expected);
            let t = typing::check_expr(s, vars, e, expected)->Ok_0;
            lemma_tail_block(s, vars, t);
        },
    }
}

proof fn lemma_tail_block(s: Site, vars: Vars, e: TExpr)
    requires
        welltyped::expr_ok(s.defs, s.ret, vars, e),
    ensures
        welltyped::block_ok(s.defs, s.ret, vars, typing::tail_block(e)),
{
    let none: Seq<TStmt> = Seq::empty();
    assert(welltyped::stmts_ok(s.defs, s.ret, vars, none, 0));
    assert(welltyped::vars_after(vars, none, 0) == vars);
}

proof fn lemma_unit_block(s: Site, vars: Vars)
    ensures
        welltyped::block_ok(s.defs, s.ret, vars, typing::unit_block()),
{
    let none: Seq<TStmt> = Seq::empty();
    assert(welltyped::stmts_ok(s.defs, s.ret, vars, none, 0));
}

// ---- expressions --------------------------------------------------------

proof fn ok_expr(s: Site, vars: Vars, e: AExpr, expected: Option<TType>)
    requires
        typing::check_expr(s, vars, e, expected) is Ok,
    ensures
        welltyped::expr_ok(s.defs, s.ret, vars, typing::check_expr(s, vars, e, expected)->Ok_0),
    decreases e, 1int,
{
    match e {
        AExpr::Int { value, span } => {
            reveal(typing::int_rule);
        },
        AExpr::Bool { value, span } => {},
        AExpr::Ident { name, span } => {
            reveal(typing::ident_rule);
            if semantics::slot(vars, name) is None {
                lemma_global(s, vars, seq![name], span);
            }
        },
        AExpr::Path { segments, span } => lemma_global(s, vars, segments, span),
        AExpr::Unary { op, expr, span } => {
            reveal(typing::unary_flow);
            reveal(typing::unary_rule);
            ok_expr(s, vars, *expr, expected);
        },
        AExpr::Binary { op, lhs, rhs, span } => ok_binary(s, vars, e, expected),
        AExpr::Call { callee, args, span } => ok_call(s, vars, e, expected),
        AExpr::Field { base, field, span } => {
            reveal(typing::field_flow);
            ok_expr(s, vars, *base, None);
            let b = typing::check_expr(s, vars, *base, None)->Ok_0;
            lemma_field_type(s.defs, b.ty, field, span);
        },
        AExpr::TupleField { base, index, span } => {
            reveal(typing::part_flow);
            reveal(typing::part_type);
            ok_expr(s, vars, *base, None);
        },
        AExpr::Index { base, index, span } => {
            reveal(typing::index_flow);
            reveal(typing::element_type);
            reveal(typing::index_type);
            ok_expr(s, vars, *base, None);
            ok_expr(s, vars, *index, None);
        },
        AExpr::Array { elems, span } => ok_array(s, vars, e, expected),
        AExpr::Tuple { elems, span } => ok_tuple(s, vars, e, expected),
        AExpr::StructLit { path, fields, span } => ok_struct(s, vars, e, expected),
        AExpr::If { cond, then_branch, else_branch, span } => ok_if(s, vars, e, expected),
        AExpr::Match { scrutinee, arms, span } => ok_match(s, vars, e, expected),
        AExpr::Block(b) => {
            reveal(typing::block_flow);
            ok_block(s, vars, b, expected);
        },
    }
}

proof fn lemma_variant(d: Defs, m: Text, segs: Seq<Text>)
    requires
        typing::find_variant(d, m, segs) is Some,
    ensures
        ({
            let (en, tag, fields) = typing::find_variant(d, m, segs)->Some_0;
            name_map::find(d.enums, en) matches Some(ed) && tag < ed.variants.len() && fields
                == ed.variants[tag as int].fields
        }),
{
}

proof fn lemma_global(s: Site, vars: Vars, segs: Seq<Text>, span: Span)
    requires
        typing::global_rule(s, segs, span) is Ok,
    ensures
        welltyped::expr_ok(s.defs, s.ret, vars, typing::global_rule(s, segs, span)->Ok_0),
{
    reveal(typing::global_rule);
    if typing::find_variant(s.defs, s.module, segs) is Some {
        lemma_variant(s.defs, s.module, segs);
        let (en, tag, fields) = typing::find_variant(s.defs, s.module, segs)->Some_0;
        let none: Seq<TExpr> = Seq::empty();
        assert(welltyped::exprs_ok(s.defs, s.ret, vars, none, fields, 0));
    }
}

proof fn lemma_field_from(fs: Seq<TField>, name: Text, i: int)
    requires
        0 <= i,
        ir::field_from(fs, name, i) is Some,
    ensures
        ir::field_from(fs, name, i)->Some_0 < fs.len(),
    decreases fs.len() - i,
{
    if fs[i].name != name {
        lemma_field_from(fs, name, i + 1);
    }
}

proof fn lemma_field_type(d: Defs, base: TType, field: Text, span: Span)
    requires
        typing::field_type(d, base, field, span) is Ok,
    ensures
        ({
            let (index, ty) = typing::field_type(d, base, field, span)->Ok_0;
            base matches TType::Struct(name) && name_map::find(d.structs, name) matches Some(sd)
                && index < sd.fields.len() && ty == sd.fields[index as int].ty
        }),
{
    reveal(typing::field_type);
    match base {
        TType::Struct(name) => {
            let sd = name_map::find(d.structs, name)->Some_0;
            lemma_field_from(sd.fields, field, 0);
        },
        _ => {},
    }
}

#[verifier::rlimit(40)]
proof fn ok_binary(s: Site, vars: Vars, e: AExpr, expected: Option<TType>)
    requires
        e is Binary,
        typing::check_expr(s, vars, e, expected) is Ok,
    ensures
        welltyped::expr_ok(s.defs, s.ret, vars, typing::check_expr(s, vars, e, expected)->Ok_0),
    decreases e, 0int,
{
    match e {
        AExpr::Binary { op, lhs, rhs, span } => {
            if typing::lower_op(op).logical() {
                reveal(typing::logical_flow);
                reveal(typing::expect_type);
                ok_expr(s, vars, *lhs, Some(TType::Bool));
                ok_expr(s, vars, *rhs, Some(TType::Bool));
            } else if op is Shl || op is Shr {
                reveal(typing::shift_flow);
                let l = typing::check_expr(s, vars, *lhs, expected);
                ok_expr(s, vars, *lhs, expected);
                ok_expr(s, vars, *rhs, typing::amount_context(*rhs, typing::type_of(l)));
            } else {
                reveal(typing::operator_flow);
                reveal(typing::operator_rule);
                let target = typing::operand_type(
                    typing::wanted_type(op, expected),
                    *lhs,
                    *rhs,
                    typing::check_expr(s, vars, *lhs, None),
                    typing::check_expr(s, vars, *rhs, None),
                );
                ok_expr(s, vars, *lhs, typing::context_of(target));
                ok_expr(s, vars, *rhs, typing::context_of(target));
            }
        },
        _ => {},
    }
}

#[verifier::rlimit(40)]
proof fn ok_call(s: Site, vars: Vars, e: AExpr, expected: Option<TType>)
    requires
        e is Call,
        typing::check_expr(s, vars, e, expected) is Ok,
    ensures
        welltyped::expr_ok(s.defs, s.ret, vars, typing::check_expr(s, vars, e, expected)->Ok_0),
    decreases e, 0int,
{
    match e {
        AExpr::Call { callee, args, span } => {
            reveal(typing::callee_of);
            reveal(typing::callee_rule);
            reveal(typing::call_flow);
            let c = typing::callee_of(s, *callee, args.len(), span);
            let segs = typing::callee_path(*callee)->Some_0;
            match c->Ok_0 {
                typing::Callee::Print => {
                    reveal(typing::print_rule);
                    ok_expr(s, vars, args[0], None);
                },
                typing::Callee::Variant(en, tag, tys) => {
                    lemma_variant(s.defs, s.module, segs);
                    let what = typing::argument_kind(c);
                    ok_args(s, vars, args, tys, what, 0, Seq::empty());
                    let es = typing::check_args(s, vars, args, tys, what, 0, Seq::empty())->Ok_0;
                    lemma_exprs(s.defs, s.ret, vars, es, tys, 0);
                },
                typing::Callee::Function(full, sig) => {
                    let tys = sig.params;
                    let what = typing::argument_kind(c);
                    ok_args(s, vars, args, tys, what, 0, Seq::empty());
                    let es = typing::check_args(s, vars, args, tys, what, 0, Seq::empty())->Ok_0;
                    lemma_exprs(s.defs, s.ret, vars, es, tys, 0);
                },
            }
        },
        _ => {},
    }
}

proof fn ok_array(s: Site, vars: Vars, e: AExpr, expected: Option<TType>)
    requires
        e is Array,
        typing::check_expr(s, vars, e, expected) is Ok,
    ensures
        welltyped::expr_ok(s.defs, s.ret, vars, typing::check_expr(s, vars, e, expected)->Ok_0),
    decreases e, 0int,
{
    reveal(typing::array_flow);
    reveal(typing::empty_array);
    match e {
        AExpr::Array { elems, span } => {
            let t = typing::check_expr(s, vars, e, expected)->Ok_0;
            if elems.len() == 0 {
                let none: Seq<TExpr> = Seq::empty();
                assert(welltyped::elements_ok(s.defs, s.ret, vars, none, *t.ty->Array_0, 0));
                assert(none.len() as u64 == 0u64);
            } else {
                let context = typing::array_context(expected);
                ok_elems(s, vars, elems, 0, Seq::empty(), context);
                let (es, ty) = typing::check_elems(s, vars, elems, 0, Seq::empty(), context)->Ok_0;
                assert(Some(es[0].ty) == ty);
                lemma_elements(s.defs, s.ret, vars, es, ty->Some_0, 0);
            }
        },
        _ => {},
    }
}

proof fn ok_tuple(s: Site, vars: Vars, e: AExpr, expected: Option<TType>)
    requires
        e is Tuple,
        typing::check_expr(s, vars, e, expected) is Ok,
    ensures
        welltyped::expr_ok(s.defs, s.ret, vars, typing::check_expr(s, vars, e, expected)->Ok_0),
    decreases e, 0int,
{
    reveal(typing::tuple_flow);
    reveal(typing::tuple_expr);
    match e {
        AExpr::Tuple { elems, span } => {
            ok_parts(s, vars, elems, expected, 0, Seq::empty());
            let es = typing::check_parts(s, vars, elems, expected, 0, Seq::empty())->Ok_0;
            let ts = typing::expr_types(es);
            assert forall|k: int| 0 <= k < es.len() implies welltyped::expr_ok(
                s.defs,
                s.ret,
                vars,
                #[trigger] es[k],
            ) && es[k].ty == ts[k] by {}
            lemma_exprs(s.defs, s.ret, vars, es, ts, 0);
        },
        _ => {},
    }
}

proof fn ok_struct(s: Site, vars: Vars, e: AExpr, expected: Option<TType>)
    requires
        e is StructLit,
        typing::check_expr(s, vars, e, expected) is Ok,
    ensures
        welltyped::expr_ok(s.defs, s.ret, vars, typing::check_expr(s, vars, e, expected)->Ok_0),
    decreases e, 0int,
{
    reveal(typing::struct_of);
    reveal(typing::struct_flow);
    reveal(typing::struct_rule);
    match e {
        AExpr::StructLit { path, fields, span } => {
            let r = typing::struct_of(s, path, fields, span);
            let (full, fs) = r->Ok_0;
            let name = typing::path_text(path);
            ok_inits(s, vars, fields, fs, name, span, 0, Seq::empty());
            let es = typing::check_inits(s, vars, fields, fs, name, span, 0, Seq::empty())->Ok_0;
            let sd = name_map::find(s.defs.structs, full)->Some_0;
            lemma_exprs(s.defs, s.ret, vars, es, welltyped::field_types(sd), 0);
        },
        _ => {},
    }
}

proof fn ok_if(s: Site, vars: Vars, e: AExpr, expected: Option<TType>)
    requires
        e is If,
        typing::check_expr(s, vars, e, expected) is Ok,
    ensures
        welltyped::expr_ok(s.defs, s.ret, vars, typing::check_expr(s, vars, e, expected)->Ok_0),
    decreases e, 0int,
{
    reveal(typing::if_flow);
    reveal(typing::expect_type);
    reveal(typing::lone_if_rule);
    reveal(typing::branches_rule);
    match e {
        AExpr::If { cond, then_branch, else_branch, span } => {
            ok_expr(s, vars, *cond, Some(TType::Bool));
            let context = if else_branch is Some {
                expected
            } else {
                Some(TType::Unit)
            };
            ok_block(s, vars, then_branch, context);
            match else_branch {
                None => lemma_unit_block(s, vars),
                Some(eb) => ok_else(s, vars, *eb, expected),
            }
        },
        _ => {},
    }
}

proof fn ok_match(s: Site, vars: Vars, e: AExpr, expected: Option<TType>)
    requires
        e is Match,
        typing::check_expr(s, vars, e, expected) is Ok,
    ensures
        welltyped::expr_ok(s.defs, s.ret, vars, typing::check_expr(s, vars, e, expected)->Ok_0),
    decreases e, 0int,
{
    reveal(typing::match_flow);
    match e {
        AExpr::Match { scrutinee, arms, span } => {
            ok_expr(s, vars, *scrutinee, None);
            let sc = typing::check_expr(s, vars, *scrutinee, None)->Ok_0;
            ok_arms(s, vars, arms, sc.ty, 0, Seq::empty(), expected);
            let (ts, t) = typing::check_arms(s, vars, arms, sc.ty, 0, Seq::empty(), expected)->Ok_0;
            lemma_arms(s.defs, s.ret, vars, ts, sc.ty, t->Some_0, 0);
            lemma_exhaustive(s.defs, sc.ty, ts, span);
        },
        _ => {},
    }
}

proof fn ok_place(s: Site, vars: Vars, e: AExpr)
    requires
        typing::check_place(s, vars, e) is Ok,
    ensures
        welltyped::place_ok(s.defs, s.ret, vars, typing::check_place(s, vars, e)->Ok_0),
    decreases e, 2int,
{
    match e {
        AExpr::Ident { name, span } => {
            reveal(typing::place_rule);
        },
        AExpr::Field { base, field, span } => {
            reveal(typing::field_place);
            ok_place(s, vars, *base);
            let b = typing::check_place(s, vars, *base)->Ok_0;
            lemma_field_type(s.defs, b.ty(), field, span);
        },
        AExpr::TupleField { base, index, span } => {
            reveal(typing::part_place);
            reveal(typing::part_type);
            ok_place(s, vars, *base);
        },
        AExpr::Index { base, index, span } => {
            reveal(typing::index_place);
            reveal(typing::element_type);
            reveal(typing::index_type);
            ok_place(s, vars, *base);
            ok_expr(s, vars, *index, None);
        },
        _ => {},
    }
}

// ---- statements ---------------------------------------------------------

#[verifier::rlimit(40)]
proof fn ok_stmt(s: Site, vars: Vars, st: AStmt)
    requires
        typing::check_stmt(s, vars, st) is Ok,
    ensures
        ({
            let (t, vars1) = typing::check_stmt(s, vars, st)->Ok_0;
            welltyped::stmt_ok(s.defs, s.ret, vars, t) && vars1 == welltyped::vars_behind(vars, t)
        }),
    decreases st, 0int,
{
    match st {
        AStmt::Let { name, mutable, ty, init, span } => {
            reveal(typing::let_flow);
            let want = typing::annotated(s, ty, span);
            ok_expr(s, vars, init, typing::annotation_context(want));
        },
        AStmt::Assign { target, value, span } => {
            reveal(typing::assign_flow);
            reveal(typing::assign_rule);
            let place = typing::check_place(s, vars, target);
            ok_place(s, vars, target);
            ok_expr(s, vars, value, Some(typing::place_type(place)));
        },
        AStmt::While { cond, body, span } => {
            reveal(typing::while_flow);
            reveal(typing::expect_type);
            ok_expr(s, vars, cond, Some(TType::Bool));
            ok_block(s, vars, body, None);
        },
        AStmt::For { var, lo, hi, body, span } => {
            reveal(typing::for_flow);
            reveal(typing::bound_rule);
            reveal(typing::bounds_rule);
            let l = typing::check_expr(s, vars, lo, None);
            ok_expr(s, vars, lo, None);
            ok_expr(s, vars, hi, Some(typing::type_of(l)));
            ok_block(
                s,
                vars.push((var, Var { ty: typing::type_of(l), mutable: false })),
                body,
                None,
            );
        },
        AStmt::Return { value, span } => {
            reveal(typing::return_flow);
            reveal(typing::return_rule);
            match value {
                Some(e) => ok_expr(s, vars, e, Some(s.ret)),
                None => {},
            }
        },
        AStmt::Expr(e) => {
            reveal(typing::effect_flow);
            ok_expr(s, vars, e, None);
        },
    }
}

proof fn ok_stmts(s: Site, vars: Vars, sts: Seq<AStmt>, i: int, acc: Seq<TStmt>)
    requires
        0 <= i <= sts.len(),
        acc.len() == i,
        typing::check_stmts(s, vars, sts, i, acc) is Ok,
    ensures
        ({
            let (ts, vars1) = typing::check_stmts(s, vars, sts, i, acc)->Ok_0;
            &&& ts.len() == sts.len()
            &&& forall|k: int| 0 <= k < i ==> #[trigger] ts[k] == acc[k]
            &&& welltyped::stmts_ok(s.defs, s.ret, vars, ts, i)
            &&& vars1 == welltyped::vars_after(vars, ts, i)
        }),
    decreases sts, sts.len() - i,
{
    if i < sts.len() {
        ok_stmt(s, vars, sts[i]);
        let (t, vars1) = typing::check_stmt(s, vars, sts[i])->Ok_0;
        let next = acc.push(t);
        ok_stmts(s, vars1, sts, i + 1, next);
        let (ts, _) = typing::check_stmts(s, vars1, sts, i + 1, next)->Ok_0;
        assert forall|k: int| 0 <= k < i implies #[trigger] ts[k] == acc[k] by {
            assert(ts[k] == next[k]);
        }
        assert(ts[i] == next[i]);
    }
}

/// A block that the checker accepts is well-typed.
pub proof fn ok_block(s: Site, vars: Vars, b: ABlock, expected: Option<TType>)
    requires
        typing::check_block(s, vars, b, expected) is Ok,
    ensures
        welltyped::block_ok(s.defs, s.ret, vars, typing::check_block(s, vars, b, expected)->Ok_0),
    decreases b, 0int,
{
    reveal(typing::tail_flow);
    ok_stmts(s, vars, b.stmts, 0, Seq::empty());
    let stmts = typing::check_stmts(s, vars, b.stmts, 0, Seq::empty());
    match b.tail {
        Some(e) => ok_expr(s, typing::vars_of(stmts), *e, expected),
        None => {},
    }
}

/// An expression that the checker accepts is well-typed.
pub proof fn law_checked_expression_is_well_typed(s: Site, vars: Vars, e: AExpr, expected: Option<TType>)
    requires
        typing::check_expr(s, vars, e, expected) is Ok,
    ensures
        welltyped::expr_ok(s.defs, s.ret, vars, typing::check_expr(s, vars, e, expected)->Ok_0),
{
    ok_expr(s, vars, e, expected);
}

} // verus!
