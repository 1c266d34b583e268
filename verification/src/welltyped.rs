//! What the typed core IR promises: the values of a type, and the bodies whose
//! every part has the type that is written on it.

use crate::arith;
use crate::ir::{BinOp, TArm, TBlock, TExpr, TKind, TPattern, TPlace, TStmt, TStruct, TType, UnOp};
use crate::name_map;
use crate::semantics;
use crate::typing::{self, Defs, Var, Vars};
use crate::value::VVal;
use vstd::arithmetic::power2::*;
use vstd::prelude::*;

verus! {

// ---- values -------------------------------------------------------------

/// Whether every number in a value, at whatever depth, is in the range of the type that
/// it carries.
pub open spec fn ranged(v: VVal) -> bool
    decreases v, 0int,
{
    match v {
        VVal::Int(n, it) => arith::in_range(n as int, it),
        VVal::Bit(x, w) => x < pow2(arith::bits_of_width(w)),
        VVal::Array(xs) => all_ranged(xs, 0),
        VVal::Struct(_, xs) => all_ranged(xs, 0),
        VVal::Enum(_, _, xs) => all_ranged(xs, 0),
        VVal::Tuple(xs) => all_ranged(xs, 0),
        _ => true,
    }
}

pub open spec fn all_ranged(xs: Seq<VVal>, i: int) -> bool
    decreases xs, xs.len() - i,
{
    if i < 0 || i >= xs.len() {
        true
    } else {
        ranged(xs[i]) && all_ranged(xs, i + 1)
    }
}

/// Whether `v` is a value of the type `t`. A value of the unit type is any value in its
/// ranges, which no program can look into: a function that declares no result may
/// leave the value of its body.
pub open spec fn has_type(d: Defs, v: VVal, t: TType) -> bool
    decreases v, 0int,
{
    match t {
        TType::Unit => ranged(v),
        TType::Bool => v is Bool,
        TType::Int(it) => v matches VVal::Int(n, it2) && it2 == it && arith::in_range(n as int, it),
        TType::Bit(w) => v matches VVal::Bit(x, w2) && w2 == w && x < pow2(arith::bits_of_width(w)),
        TType::Array(e, n) => match v {
            VVal::Array(xs) => xs.len() as u64 == n && each_typed(d, xs, *e, 0),
            _ => false,
        },
        TType::Struct(name) => match v {
            VVal::Struct(n2, xs) => n2 == name && match name_map::find(d.structs, name) {
                Some(sd) => xs.len() == sd.fields.len() && all_typed(
                    d,
                    xs,
                    field_types(sd),
                    0,
                ),
                None => false,
            },
            _ => false,
        },
        TType::Enum(name) => match v {
            VVal::Enum(n2, tag, xs) => n2 == name && match name_map::find(d.enums, name) {
                Some(ed) => tag < ed.variants.len() && xs.len()
                    == ed.variants[tag as int].fields.len() && all_typed(
                    d,
                    xs,
                    ed.variants[tag as int].fields,
                    0,
                ),
                None => false,
            },
            _ => false,
        },
        TType::Tuple(ts) => match v {
            VVal::Tuple(xs) => xs.len() == ts.len() && all_typed(d, xs, ts, 0),
            _ => false,
        },
    }
}

/// Whether the values from position `i` on are of the type `t`.
pub open spec fn each_typed(d: Defs, xs: Seq<VVal>, t: TType, i: int) -> bool
    decreases xs, xs.len() - i,
{
    if i < 0 || i >= xs.len() {
        true
    } else {
        has_type(d, xs[i], t) && each_typed(d, xs, t, i + 1)
    }
}

/// Whether the values from position `i` on are of the types at their positions.
pub open spec fn all_typed(d: Defs, xs: Seq<VVal>, ts: Seq<TType>, i: int) -> bool
    decreases xs, xs.len() - i,
{
    if i < 0 || i >= xs.len() {
        true
    } else {
        i < ts.len() && has_type(d, xs[i], ts[i]) && all_typed(d, xs, ts, i + 1)
    }
}

pub open spec fn field_types(sd: TStruct) -> Seq<TType> {
    Seq::new(sd.fields.len(), |i: int| sd.fields[i].ty)
}

/// The numbers in a value of a type are in their ranges.
pub proof fn lemma_ranged(d: Defs, v: VVal, t: TType)
    requires
        has_type(d, v, t),
    ensures
        ranged(v),
    decreases v, 0int,
{
    match t {
        TType::Array(e, n) => lemma_each_ranged(d, v->Array_0, *e, 0),
        TType::Struct(name) => match name_map::find(d.structs, name) {
            Some(sd) => lemma_all_ranged(d, v->Struct_1, field_types(sd), 0),
            None => {},
        },
        TType::Enum(name) => match name_map::find(d.enums, name) {
            Some(ed) => match v {
                VVal::Enum(_, tag, xs) => lemma_all_ranged(
                    d,
                    xs,
                    ed.variants[tag as int].fields,
                    0,
                ),
                _ => {},
            },
            None => {},
        },
        TType::Tuple(ts) => lemma_all_ranged(d, v->Tuple_0, ts, 0),
        _ => {},
    }
}

proof fn lemma_each_ranged(d: Defs, xs: Seq<VVal>, t: TType, i: int)
    requires
        each_typed(d, xs, t, i),
    ensures
        all_ranged(xs, i),
    decreases xs, xs.len() - i,
{
    if 0 <= i < xs.len() {
        lemma_ranged(d, xs[i], t);
        lemma_each_ranged(d, xs, t, i + 1);
    }
}

proof fn lemma_all_ranged(d: Defs, xs: Seq<VVal>, ts: Seq<TType>, i: int)
    requires
        all_typed(d, xs, ts, i),
    ensures
        all_ranged(xs, i),
    decreases xs, xs.len() - i,
{
    if 0 <= i < xs.len() {
        lemma_ranged(d, xs[i], ts[i]);
        lemma_all_ranged(d, xs, ts, i + 1);
    }
}

// ---- patterns -----------------------------------------------------------

/// The variables that a pattern binds. The alternatives of an or-pattern bind the
/// same; its first one is taken.
pub open spec fn pattern_vars(p: TPattern) -> Vars
    decreases p, 0int,
{
    match p {
        TPattern::Binding { name, ty } => seq![(name, Var { ty, mutable: false })],
        TPattern::Variant { enum_name, tag, subpatterns } => patterns_vars(subpatterns, 0),
        TPattern::Tuple(ps) => patterns_vars(ps, 0),
        TPattern::Or(ps) => if ps.len() == 0 {
            Seq::empty()
        } else {
            pattern_vars(ps[0])
        },
        _ => Seq::empty(),
    }
}

pub open spec fn patterns_vars(ps: Seq<TPattern>, i: int) -> Vars
    decreases ps, ps.len() - i,
{
    if i < 0 || i >= ps.len() {
        Seq::empty()
    } else {
        pattern_vars(ps[i]) + patterns_vars(ps, i + 1)
    }
}

/// Whether the pattern is one for values of the type `t`.
pub open spec fn pattern_ok(d: Defs, p: TPattern, t: TType) -> bool
    decreases p, 0int,
{
    match p {
        TPattern::Wildcard => true,
        TPattern::Binding { name, ty } => ty == t,
        TPattern::Int(v) => typing::fits(v as int, t),
        TPattern::Bool(_) => t == TType::Bool,
        TPattern::Range { lo, hi, inclusive } => typing::fits(lo as int, t) && typing::fits(
            hi as int,
            t,
        ),
        TPattern::Variant { enum_name, tag, subpatterns } => t == TType::Enum(enum_name)
            && match name_map::find(d.enums, enum_name) {
            Some(ed) => tag < ed.variants.len() && subpatterns.len()
                == ed.variants[tag as int].fields.len() && patterns_ok(
                d,
                subpatterns,
                ed.variants[tag as int].fields,
                0,
            ),
            None => false,
        },
        TPattern::Tuple(ps) => match t {
            TType::Tuple(ts) => ps.len() == ts.len() && patterns_ok(d, ps, ts, 0),
            _ => false,
        },
        TPattern::Or(ps) => ps.len() > 0 && alternatives_ok(d, ps, t, 0),
    }
}

/// Whether the patterns from position `i` on are for the types at their positions.
pub open spec fn patterns_ok(d: Defs, ps: Seq<TPattern>, ts: Seq<TType>, i: int) -> bool
    decreases ps, ps.len() - i,
{
    if i < 0 || i >= ps.len() {
        true
    } else {
        i < ts.len() && pattern_ok(d, ps[i], ts[i]) && patterns_ok(d, ps, ts, i + 1)
    }
}

/// Whether the alternatives from position `i` on are for values of the type `t`,
/// and bind what the first binds.
pub open spec fn alternatives_ok(d: Defs, ps: Seq<TPattern>, t: TType, i: int) -> bool
    decreases ps, ps.len() - i,
{
    if i < 0 || i >= ps.len() {
        true
    } else {
        pattern_ok(d, ps[i], t) && typing::binds_within(pattern_vars(ps[0]), pattern_vars(ps[i]))
            && typing::binds_within(pattern_vars(ps[i]), pattern_vars(ps[0])) && alternatives_ok(
            d,
            ps,
            t,
            i + 1,
        )
    }
}

/// Whether the arms cover every value of the type `t`.
pub open spec fn covered(d: Defs, t: TType, arms: Seq<TArm>) -> bool {
    typing::catch_all(d.enums, arms) || match t {
        TType::Enum(name) => match name_map::find(d.enums, name) {
            Some(ed) => forall|tag: int|
                0 <= tag < ed.variants.len() ==> #[trigger] typing::tag_covered(d.enums, arms, tag),
            None => false,
        },
        TType::Bool => typing::bool_covered(arms, true) && typing::bool_covered(arms, false),
        _ => false,
    }
}

// ---- bodies -------------------------------------------------------------

/// Whether an operator on operands of the types `l` and `r` gives the type `t`.
pub open spec fn operator_ok(op: BinOp, l: TType, r: TType, t: TType) -> bool {
    if op.logical() {
        l == TType::Bool && r == TType::Bool && t == TType::Bool
    } else if op is Shl || op is Shr {
        l.is_integer() && r.is_integer() && t == l
    } else if op is Eq || op is Ne {
        l == r && (l.is_integer() || l == TType::Bool) && t == TType::Bool
    } else if op.comparing() {
        l == r && l.is_integer() && t == TType::Bool
    } else {
        l == r && l.is_integer() && t == l
    }
}

pub open spec fn unary_ok(op: UnOp, t: TType) -> bool {
    t.is_integer() || (op is Not && t == TType::Bool)
}

/// Whether every part of the expression has the type that is written on it, with
/// the variables `vars` in scope, in a function that returns `ret`.
pub open spec fn expr_ok(d: Defs, ret: TType, vars: Vars, e: TExpr) -> bool
    decreases e, 0int,
{
    match e.kind {
        TKind::Int(_) => e.ty.is_integer(),
        TKind::Bool(_) => e.ty == TType::Bool,
        TKind::Unit => e.ty == TType::Unit,
        TKind::Local(name) => match semantics::slot(vars, name) {
            Some(p) => vars[p].1.ty == e.ty,
            None => false,
        },
        TKind::ConstRef(name) => name_map::find(d.consts, name) == Some(e.ty),
        TKind::Unary { op, expr } => expr_ok(d, ret, vars, *expr) && expr.ty == e.ty && unary_ok(
            op,
            e.ty,
        ),
        TKind::Binary { op, lhs, rhs } => expr_ok(d, ret, vars, *lhs) && expr_ok(
            d,
            ret,
            vars,
            *rhs,
        ) && operator_ok(op, lhs.ty, rhs.ty, e.ty),
        TKind::Call { func, args } => match name_map::find(d.funcs, func) {
            Some(sig) => e.ty == sig.ret && args.len() == sig.params.len() && exprs_ok(
                d,
                ret,
                vars,
                args,
                sig.params,
                0,
            ),
            None => false,
        },
        TKind::Print { arg } => expr_ok(d, ret, vars, *arg) && e.ty == TType::Unit,
        TKind::MakeStruct { name, fields } => match name_map::find(d.structs, name) {
            Some(sd) => e.ty == TType::Struct(name) && fields.len() == sd.fields.len() && exprs_ok(
                d,
                ret,
                vars,
                fields,
                field_types(sd),
                0,
            ),
            None => false,
        },
        TKind::MakeEnum { name, tag, args } => match name_map::find(d.enums, name) {
            Some(ed) => e.ty == TType::Enum(name) && tag < ed.variants.len() && args.len()
                == ed.variants[tag as int].fields.len() && exprs_ok(
                d,
                ret,
                vars,
                args,
                ed.variants[tag as int].fields,
                0,
            ),
            None => false,
        },
        TKind::MakeTuple(es) => match e.ty {
            TType::Tuple(ts) => es.len() == ts.len() && exprs_ok(d, ret, vars, es, ts, 0),
            _ => false,
        },
        TKind::Field { base, index } => expr_ok(d, ret, vars, *base) && match base.ty {
            TType::Struct(name) => match name_map::find(d.structs, name) {
                Some(sd) => index < sd.fields.len() && e.ty == sd.fields[index as int].ty,
                None => false,
            },
            _ => false,
        },
        TKind::TupleField { base, index } => expr_ok(d, ret, vars, *base) && match base.ty {
            TType::Tuple(ts) => index < ts.len() && e.ty == ts[index as int],
            _ => false,
        },
        TKind::Index { base, index } => expr_ok(d, ret, vars, *base) && expr_ok(
            d,
            ret,
            vars,
            *index,
        ) && index.ty.is_integer() && match base.ty {
            TType::Array(t, _) => e.ty == *t,
            _ => false,
        },
        TKind::Array(es) => match e.ty {
            TType::Array(t, n) => es.len() as u64 == n && elements_ok(d, ret, vars, es, *t, 0),
            _ => false,
        },
        TKind::If { cond, then_branch, else_branch } => expr_ok(d, ret, vars, *cond) && cond.ty
            == TType::Bool && block_ok(d, ret, vars, then_branch) && then_branch.ty == e.ty
            && block_ok(d, ret, vars, else_branch) && else_branch.ty == e.ty,
        TKind::Match { scrutinee, arms } => expr_ok(d, ret, vars, *scrutinee) && arms_ok(
            d,
            ret,
            vars,
            arms,
            scrutinee.ty,
            e.ty,
            0,
        ) && covered(d, scrutinee.ty, arms),
        TKind::Block(b) => block_ok(d, ret, vars, b) && b.ty == e.ty,
    }
}

/// The expressions from position `i` on, of the types at their positions.
pub open spec fn exprs_ok(d: Defs, ret: TType, vars: Vars, es: Seq<TExpr>, ts: Seq<TType>, i: int) -> bool
    decreases es, es.len() - i,
{
    if i < 0 || i >= es.len() {
        true
    } else {
        i < ts.len() && expr_ok(d, ret, vars, es[i]) && es[i].ty == ts[i] && exprs_ok(
            d,
            ret,
            vars,
            es,
            ts,
            i + 1,
        )
    }
}

/// The expressions from position `i` on, all of the type `t`.
pub open spec fn elements_ok(d: Defs, ret: TType, vars: Vars, es: Seq<TExpr>, t: TType, i: int) -> bool
    decreases es, es.len() - i,
{
    if i < 0 || i >= es.len() {
        true
    } else {
        expr_ok(d, ret, vars, es[i]) && es[i].ty == t && elements_ok(d, ret, vars, es, t, i + 1)
    }
}

/// The arms from position `i` on, for values of the type `sty`, with bodies of the
/// type `ty`.
pub open spec fn arms_ok(
    d: Defs,
    ret: TType,
    vars: Vars,
    arms: Seq<TArm>,
    sty: TType,
    ty: TType,
    i: int,
) -> bool
    decreases arms, arms.len() - i,
{
    if i < 0 || i >= arms.len() {
        true
    } else {
        arm_ok(d, ret, vars, arms[i], sty, ty) && arms_ok(d, ret, vars, arms, sty, ty, i + 1)
    }
}

pub open spec fn arm_ok(d: Defs, ret: TType, vars: Vars, a: TArm, sty: TType, ty: TType) -> bool
    decreases a, 0int,
{
    let inner = vars + pattern_vars(a.pattern);
    &&& pattern_ok(d, a.pattern, sty)
    &&& match a.guard {
        Some(g) => expr_ok(d, ret, inner, g) && g.ty == TType::Bool,
        None => true,
    }
    &&& expr_ok(d, ret, inner, a.body)
    &&& a.body.ty == ty
}

/// The variables in scope behind a statement.
pub open spec fn vars_behind(vars: Vars, st: TStmt) -> Vars {
    match st {
        TStmt::Let { name, mutable, ty, init } => vars.push((name, Var { ty: init.ty, mutable })),
        _ => vars,
    }
}

/// The variables in scope behind the statements from position `i` on.
pub open spec fn vars_after(vars: Vars, sts: Seq<TStmt>, i: int) -> Vars
    decreases sts.len() - i,
{
    if i < 0 || i >= sts.len() {
        vars
    } else {
        vars_after(vars_behind(vars, sts[i]), sts, i + 1)
    }
}

pub open spec fn place_ok(d: Defs, ret: TType, vars: Vars, p: TPlace) -> bool
    decreases p, 0int,
{
    match p {
        TPlace::Local { name, ty } => match semantics::slot(vars, name) {
            Some(q) => vars[q].1.ty == ty,
            None => false,
        },
        TPlace::Field { base, index, ty } => place_ok(d, ret, vars, *base) && match base.ty() {
            TType::Struct(name) => match name_map::find(d.structs, name) {
                Some(sd) => index < sd.fields.len() && ty == sd.fields[index as int].ty,
                None => false,
            },
            _ => false,
        },
        TPlace::TupleField { base, index, ty } => place_ok(d, ret, vars, *base) && match base.ty() {
            TType::Tuple(ts) => index < ts.len() && ty == ts[index as int],
            _ => false,
        },
        TPlace::Index { base, index, ty } => place_ok(d, ret, vars, *base) && expr_ok(
            d,
            ret,
            vars,
            *index,
        ) && index.ty.is_integer() && match base.ty() {
            TType::Array(t, _) => ty == *t,
            _ => false,
        },
    }
}

pub open spec fn stmt_ok(d: Defs, ret: TType, vars: Vars, st: TStmt) -> bool
    decreases st, 0int,
{
    match st {
        TStmt::Let { name, mutable, ty, init } => expr_ok(d, ret, vars, init),
        TStmt::Assign { place, value } => place_ok(d, ret, vars, place) && expr_ok(
            d,
            ret,
            vars,
            value,
        ) && value.ty == place.ty(),
        TStmt::While { cond, body } => expr_ok(d, ret, vars, cond) && cond.ty == TType::Bool
            && block_ok(d, ret, vars, body),
        TStmt::For { var, ty, lo, hi, body } => expr_ok(d, ret, vars, lo) && expr_ok(
            d,
            ret,
            vars,
            hi,
        ) && lo.ty == ty && hi.ty == ty && ty.is_integer() && block_ok(
            d,
            ret,
            vars.push((var, Var { ty, mutable: false })),
            body,
        ),
        TStmt::Return { value } => match value {
            None => ret == TType::Unit,
            Some(e) => expr_ok(d, ret, vars, e) && e.ty == ret,
        },
        TStmt::Expr(e) => expr_ok(d, ret, vars, e),
    }
}

/// The statements from position `i` on, each with what stands before it in scope.
pub open spec fn stmts_ok(d: Defs, ret: TType, vars: Vars, sts: Seq<TStmt>, i: int) -> bool
    decreases sts, sts.len() - i,
{
    if i < 0 || i >= sts.len() {
        true
    } else {
        stmt_ok(d, ret, vars, sts[i]) && stmts_ok(d, ret, vars_behind(vars, sts[i]), sts, i + 1)
    }
}

pub open spec fn block_ok(d: Defs, ret: TType, vars: Vars, b: TBlock) -> bool
    decreases b, 0int,
{
    stmts_ok(d, ret, vars, b.stmts, 0) && match b.tail {
        None => b.ty == TType::Unit,
        Some(e) => expr_ok(d, ret, vars_after(vars, b.stmts, 0), *e) && e.ty == b.ty,
    }
}

} // verus!
