//! What can be assigned to: only what `let mut` introduces.

use crate::ast::{
    ABlock, AElseBranch, AExpr, AFunc, AItem, AMatchArm, APattern, AProgram, AStmt,
};
use crate::ir::{self, TArm, TExpr, TField, TParam, TStmt, TType};
use crate::ordering;
use crate::program;
use crate::safety;
use crate::semantics;
use crate::span::Span;
use crate::text::Text;
use crate::typing::{self, Defs, Site, Var, Vars};
use vstd::prelude::*;

verus! {

// ---- scopes -------------------------------------------------------------

/// The variables in scope, innermost last, and whether `let mut` introduced them.
pub type Scope = Seq<(Text, bool)>;

/// Whether the innermost variable called `n` is one of `let mut`.
pub open spec fn changeable(sc: Scope, n: Text) -> bool {
    exists|i: int|
        0 <= i < sc.len() && #[trigger] sc[i] == (n, true) && forall|j: int|
            i < j < sc.len() ==> (#[trigger] sc[j]).0 != n
}

/// The variable that the target of an assignment begins with.
pub open spec fn root(e: AExpr) -> Option<Text>
    decreases e,
{
    match e {
        AExpr::Ident { name, span } => Some(name),
        AExpr::Field { base, field, span } => root(*base),
        AExpr::TupleField { base, index, span } => root(*base),
        AExpr::Index { base, index, span } => root(*base),
        _ => None,
    }
}

pub open spec fn settable(sc: Scope, target: AExpr) -> bool {
    root(target) matches Some(n) && changeable(sc, n)
}

/// The variables that a pattern introduces. The alternatives of an or-pattern introduce
/// the same; its first one is taken.
pub open spec fn pattern_scope(p: APattern) -> Scope
    decreases p, 0int,
{
    match p {
        APattern::Binding { name, span } => seq![(name, false)],
        APattern::Variant { path, subpatterns, span } => patterns_scope(subpatterns, 0),
        APattern::Tuple { elems, span } => patterns_scope(elems, 0),
        APattern::Or { alts, span } => if alts.len() == 0 {
            Seq::empty()
        } else {
            pattern_scope(alts[0])
        },
        _ => Seq::empty(),
    }
}

pub open spec fn patterns_scope(ps: Seq<APattern>, i: int) -> Scope
    decreases ps, ps.len() - i,
{
    if i < 0 || i >= ps.len() {
        Seq::empty()
    } else {
        pattern_scope(ps[i]) + patterns_scope(ps, i + 1)
    }
}

/// The variables in scope behind a statement.
pub open spec fn behind(sc: Scope, st: AStmt) -> Scope {
    match st {
        AStmt::Let { name, mutable, ty, init, span } => sc.push((name, mutable)),
        _ => sc,
    }
}

/// The variables in scope behind the statements from position `i` on.
pub open spec fn scope_after(sc: Scope, sts: Seq<AStmt>, i: int) -> Scope
    decreases sts.len() - i,
{
    if i < 0 || i >= sts.len() {
        sc
    } else {
        scope_after(behind(sc, sts[i]), sts, i + 1)
    }
}

// ---- assignments --------------------------------------------------------

/// Whether every assignment in an expression is to a variable of `let mut`.
pub open spec fn expr_assigns(sc: Scope, e: AExpr) -> bool
    decreases e, 0int,
{
    match e {
        AExpr::Unary { op, expr, span } => expr_assigns(sc, *expr),
        AExpr::Binary { op, lhs, rhs, span } => expr_assigns(sc, *lhs) && expr_assigns(sc, *rhs),
        AExpr::Call { callee, args, span } => all_assign(sc, args, 0),
        AExpr::Field { base, field, span } => expr_assigns(sc, *base),
        AExpr::TupleField { base, index, span } => expr_assigns(sc, *base),
        AExpr::Index { base, index, span } => expr_assigns(sc, *base) && expr_assigns(sc, *index),
        AExpr::Array { elems, span } => all_assign(sc, elems, 0),
        AExpr::Tuple { elems, span } => all_assign(sc, elems, 0),
        AExpr::StructLit { path, fields, span } => forall|k: int|
            0 <= k < fields.len() ==> expr_assigns(sc, (#[trigger] fields[k]).1),
        AExpr::If { cond, then_branch, else_branch, span } => expr_assigns(sc, *cond)
            && block_assigns(sc, then_branch) && match else_branch {
            Some(b) => else_assigns(sc, *b),
            None => true,
        },
        AExpr::Match { scrutinee, arms, span } => expr_assigns(sc, *scrutinee) && arms_assign(
            sc,
            arms,
            0,
        ),
        AExpr::Block(b) => block_assigns(sc, b),
        _ => true,
    }
}

pub open spec fn all_assign(sc: Scope, es: Seq<AExpr>, i: int) -> bool
    decreases es, es.len() - i,
{
    if i < 0 || i >= es.len() {
        true
    } else {
        expr_assigns(sc, es[i]) && all_assign(sc, es, i + 1)
    }
}

pub open spec fn arm_assigns(sc: Scope, a: AMatchArm) -> bool
    decreases a, 0int,
{
    let inner = sc + pattern_scope(a.pattern);
    expr_assigns(inner, a.body) && match a.guard {
        Some(g) => expr_assigns(inner, g),
        None => true,
    }
}

pub open spec fn arms_assign(sc: Scope, arms: Seq<AMatchArm>, i: int) -> bool
    decreases arms, arms.len() - i,
{
    if i < 0 || i >= arms.len() {
        true
    } else {
        arm_assigns(sc, arms[i]) && arms_assign(sc, arms, i + 1)
    }
}

pub open spec fn else_assigns(sc: Scope, b: AElseBranch) -> bool
    decreases b, 0int,
{
    match b {
        AElseBranch::Block(b) => block_assigns(sc, b),
        AElseBranch::If(e) => expr_assigns(sc, e),
    }
}

/// The same of the positions in the target of an assignment.
pub open spec fn place_assigns(sc: Scope, e: AExpr) -> bool
    decreases e, 1int,
{
    match e {
        AExpr::Field { base, field, span } => place_assigns(sc, *base),
        AExpr::TupleField { base, index, span } => place_assigns(sc, *base),
        AExpr::Index { base, index, span } => place_assigns(sc, *base) && expr_assigns(sc, *index),
        _ => true,
    }
}

pub open spec fn stmt_assigns(sc: Scope, st: AStmt) -> bool
    decreases st, 0int,
{
    match st {
        AStmt::Let { name, mutable, ty, init, span } => expr_assigns(sc, init),
        AStmt::Assign { target, value, span } => settable(sc, target) && place_assigns(sc, target)
            && expr_assigns(sc, value),
        AStmt::While { cond, body, span } => expr_assigns(sc, cond) && block_assigns(sc, body),
        AStmt::For { var, lo, hi, body, span } => expr_assigns(sc, lo) && expr_assigns(sc, hi)
            && block_assigns(sc.push((var, false)), body),
        AStmt::Return { value, span } => match value {
            Some(e) => expr_assigns(sc, e),
            None => true,
        },
        AStmt::Expr(e) => expr_assigns(sc, e),
    }
}

pub open spec fn stmts_assign(sc: Scope, sts: Seq<AStmt>, i: int) -> bool
    decreases sts, sts.len() - i,
{
    if i < 0 || i >= sts.len() {
        true
    } else {
        stmt_assigns(sc, sts[i]) && stmts_assign(behind(sc, sts[i]), sts, i + 1)
    }
}

pub open spec fn block_assigns(sc: Scope, b: ABlock) -> bool
    decreases b, 0int,
{
    stmts_assign(sc, b.stmts, 0) && match b.tail {
        Some(e) => expr_assigns(scope_after(sc, b.stmts, 0), *e),
        None => true,
    }
}

// ---- checking -----------------------------------------------------------

/// The variables that checking has in scope.
spec fn scope_of(vars: Vars) -> Scope {
    vars.map_values(|v: (Text, Var)| (v.0, v.1.mutable))
}

/// The values of the fields from position `i` on.
spec fn inits_assign(sc: Scope, fields: Seq<(Text, AExpr)>, sd: Seq<TField>, i: int) -> bool {
    forall|j: int|
        i <= j < sd.len() ==> (typing::init_of(fields, (#[trigger] sd[j]).name, 0) matches Some(k)
            && 0 <= k < fields.len() && expr_assigns(sc, fields[k].1))
}

proof fn lemma_scope_push(vars: Vars, n: Text, ty: TType, mutable: bool)
    ensures
        scope_of(vars.push((n, Var { ty, mutable }))) == scope_of(vars).push((n, mutable)),
{
    assert(scope_of(vars.push((n, Var { ty, mutable }))) =~= scope_of(vars).push((n, mutable)));
}

proof fn lemma_slot_last<T>(env: Seq<(Text, T)>, n: Text, i: int)
    requires
        0 <= i <= env.len(),
    ensures
        semantics::slot_before(env, n, i) matches Some(p) ==> 0 <= p < i && env[p].0 == n && forall|
            j: int,
        |
            p < j < i ==> (#[trigger] env[j]).0 != n,
    decreases i,
{
    if i > 0 {
        lemma_slot_last(env, n, i - 1);
    }
}

proof fn assigned_check_pattern(s: Site, p: APattern, ty: TType, vars: Vars)
    ensures
        typing::check_pattern(s, p, ty, vars) matches Ok((_, v1)) ==> scope_of(v1) == scope_of(vars)
            + pattern_scope(p),
    decreases p, 0int,
{
    let none = Seq::<(Text, bool)>::empty();
    assert(scope_of(vars) + none =~= scope_of(vars));
    match p {
        APattern::Binding { name, span } => {
            lemma_scope_push(vars, name, ty, false);
            assert(scope_of(vars).push((name, false)) =~= scope_of(vars) + seq![(name, false)]);
        },
        APattern::Variant { path, subpatterns, span } => {
            match typing::variant_pattern(s, path, ty, subpatterns.len(), span) {
                Ok((enum_name, tag, fields)) => {
                    reveal(typing::variant_pattern);
                    assigned_check_patterns(s, subpatterns, fields, 0, Seq::empty(), vars);
                },
                _ => {},
            }
        },
        APattern::Tuple { elems, span } => {
            if elems.len() == 0 && ty == TType::Unit {
                assert(patterns_scope(elems, 0) == none);
            } else if elems.len() == 1 {
                assigned_check_pattern(s, elems[0], ty, vars);
                assert(patterns_scope(elems, 1) == none);
                assert(patterns_scope(elems, 0) == pattern_scope(elems[0]) + none);
                assert(pattern_scope(elems[0]) + none =~= pattern_scope(elems[0]));
                assert(pattern_scope(p) == pattern_scope(elems[0]));
            } else {
                reveal(typing::tuple_pattern);
                match typing::tuple_pattern(ty, elems.len(), span) {
                    Ok(ts) => {
                        assigned_check_patterns(s, elems, ts, 0, Seq::empty(), vars);
                    },
                    _ => {},
                }
            }
        },
        APattern::Or { alts, span } => {
            if alts.len() > 0 {
                assigned_check_pattern(s, alts[0], ty, vars);
                assert(pattern_scope(p) == pattern_scope(alts[0]));
            }
        },
        _ => {
            assert(pattern_scope(p) == none);
        },
    }
}

proof fn assigned_check_patterns(
    s: Site,
    ps: Seq<APattern>,
    tys: Seq<TType>,
    i: int,
    acc: Seq<ir::TPattern>,
    vars: Vars,
)
    requires
        0 <= i,
        ps.len() == tys.len(),
    ensures
        typing::check_patterns(s, ps, tys, i, acc, vars) matches Ok((_, v1)) ==> scope_of(v1)
            == scope_of(vars) + patterns_scope(ps, i),
    decreases ps, ps.len() - i,
{
    assert(scope_of(vars) + Seq::empty() =~= scope_of(vars));
    if i < ps.len() {
        assigned_check_pattern(s, ps[i], tys[i], vars);
        match typing::check_pattern(s, ps[i], tys[i], vars) {
            Ok((p, vars1)) => {
                assigned_check_patterns(s, ps, tys, i + 1, acc.push(p), vars1);
                assert(scope_of(vars) + pattern_scope(ps[i]) + patterns_scope(ps, i + 1)
                    =~= scope_of(vars) + (pattern_scope(ps[i]) + patterns_scope(ps, i + 1)));
            },
            _ => {},
        }
    }
}

proof fn lemma_no_repeat(fields: Seq<(Text, AExpr)>, i: int, k: int)
    requires
        0 <= i <= k < fields.len(),
        typing::repeated_field(fields, i) is None,
    ensures
        !typing::given_before(fields, fields[k].0, k),
    decreases k - i,
{
    if i < k {
        lemma_no_repeat(fields, i + 1, k);
    }
}

proof fn lemma_no_extra(fields: Seq<(Text, AExpr)>, sd: Seq<TField>, i: int, k: int)
    requires
        0 <= i <= k < fields.len(),
        typing::extra_field(fields, sd, i) is None,
    ensures
        ir::field_from(sd, fields[k].0, 0) is Some,
    decreases k - i,
{
    if i < k {
        lemma_no_extra(fields, sd, i + 1, k);
    }
}

proof fn lemma_found(sd: Seq<TField>, n: Text, i: int)
    requires
        0 <= i,
        ir::field_from(sd, n, i) is Some,
    ensures
        exists|j: int| i <= j < sd.len() && (#[trigger] sd[j]).name == n,
    decreases sd.len() - i,
{
    if sd[i].name != n {
        lemma_found(sd, n, i + 1);
    } else {
        assert(sd[i].name == n);
    }
}

proof fn lemma_init(fields: Seq<(Text, AExpr)>, i: int, k: int)
    requires
        0 <= i <= k < fields.len(),
        !typing::given_before(fields, fields[k].0, k),
    ensures
        typing::init_of(fields, fields[k].0, i) == Some(k),
    decreases k - i,
{
    if i < k {
        assert(fields[i].0 != fields[k].0);
        lemma_init(fields, i + 1, k);
    }
}

/// Every value of a struct literal is one that is checked.
proof fn lemma_struct(sc: Scope, fields: Seq<(Text, AExpr)>, sd: Seq<TField>)
    requires
        inits_assign(sc, fields, sd, 0),
        typing::repeated_field(fields, 0) is None,
        typing::extra_field(fields, sd, 0) is None,
    ensures
        forall|k: int| 0 <= k < fields.len() ==> expr_assigns(sc, (#[trigger] fields[k]).1),
{
    assert forall|k: int| 0 <= k < fields.len() implies expr_assigns(
        sc,
        (#[trigger] fields[k]).1,
    ) by {
        lemma_no_repeat(fields, 0, k);
        lemma_no_extra(fields, sd, 0, k);
        lemma_found(sd, fields[k].0, 0);
        let j = choose|j: int| 0 <= j < sd.len() && (#[trigger] sd[j]).name == fields[k].0;
        lemma_init(fields, 0, k);
        assert(typing::init_of(fields, sd[j].name, 0) == Some(k));
    }
}

proof fn assigned_check_args(
    s: Site,
    vars: Vars,
    args: Seq<AExpr>,
    tys: Seq<TType>,
    what: Text,
    i: int,
    acc: Seq<TExpr>,
)
    ensures
        args.len() == tys.len() && typing::check_args(s, vars, args, tys, what, i, acc) is Ok
            ==> all_assign(scope_of(vars), args, i),
    decreases args, args.len() - i,
{
    if !(i < 0 || i >= args.len() || i >= tys.len()) {
        assigned_check_expr(s, vars, args[i], Some(tys[i]));
        match typing::check_expr(s, vars, args[i], Some(tys[i])) {
            Ok(e) => {
                reveal(typing::arg_rule);
                match typing::arg_rule(e.ty, tys[i], what, args[i].span()) {
                    Ok(_) => {
                        assigned_check_args(s, vars, args, tys, what, i + 1, acc.push(e));
                    },
                    _ => {},
                }
            },
            _ => {},
        }
    }
}

proof fn assigned_check_elems(
    s: Site,
    vars: Vars,
    elems: Seq<AExpr>,
    i: int,
    acc: Seq<TExpr>,
    ty: Option<TType>,
)
    ensures
        typing::check_elems(s, vars, elems, i, acc, ty) is Ok ==> all_assign(scope_of(vars), elems, i),
    decreases elems, elems.len() - i,
{
    if !(i < 0 || i >= elems.len()) {
        assigned_check_expr(s, vars, elems[i], ty);
        match typing::check_expr(s, vars, elems[i], ty) {
            Ok(e) => {
                match ty {
                    Some(t) => {
                        if t == e.ty {
                            assigned_check_elems(s, vars, elems, i + 1, acc.push(e), ty);
                        } else {
                            reveal(typing::elements_differ);
                        }
                    },
                    None => {
                        assigned_check_elems(s, vars, elems, i + 1, acc.push(e), Some(e.ty));
                    },
                }
            },
            _ => {},
        }
    }
}

proof fn assigned_check_parts(
    s: Site,
    vars: Vars,
    elems: Seq<AExpr>,
    expected: Option<TType>,
    i: int,
    acc: Seq<TExpr>,
)
    ensures
        typing::check_parts(s, vars, elems, expected, i, acc) is Ok ==> all_assign(scope_of(vars), elems, i),
    decreases elems, elems.len() - i,
{
    if !(i < 0 || i >= elems.len()) {
        assigned_check_expr(s, vars, elems[i], typing::tuple_context(expected, i, elems.len()));
        match typing::check_expr(
            s,
            vars,
            elems[i],
            typing::tuple_context(expected, i, elems.len()),
        ) {
            Ok(e) => {
                assigned_check_parts(s, vars, elems, expected, i + 1, acc.push(e));
            },
            _ => {},
        }
    }
}

proof fn assigned_check_inits(
    s: Site,
    vars: Vars,
    fields: Seq<(Text, AExpr)>,
    sd: Seq<TField>,
    name: Text,
    span: Span,
    i: int,
    acc: Seq<TExpr>,
)
    requires
        0 <= i,
    ensures
        typing::check_inits(s, vars, fields, sd, name, span, i, acc) is Ok ==> inits_assign(
            scope_of(vars),
            fields,
            sd,
            i,
        ),
    decreases fields, sd.len() - i,
{
    if !(i < 0 || i >= sd.len()) {
        match typing::init_of(fields, sd[i].name, 0) {
            None => {
                reveal(typing::missing_field);
            },
            Some(k) => {
                if 0 <= k < fields.len() {
                    assigned_check_expr(s, vars, fields[k].1, Some(sd[i].ty));
                    match typing::check_expr(s, vars, fields[k].1, Some(sd[i].ty)) {
                        Ok(e) => {
                            reveal(typing::field_rule);
                            match typing::field_rule(sd[i], name, e.ty, fields[k].1.span()) {
                                Ok(_) => {
                                    assigned_check_inits(
                                        s,
                                        vars,
                                        fields,
                                        sd,
                                        name,
                                        span,
                                        i + 1,
                                        acc.push(e),
                                    );
                                },
                                _ => {},
                            }
                        },
                        _ => {},
                    }
                } else {
                    reveal(typing::missing_field);
                }
            },
        }
    }
}

proof fn assigned_check_arms(
    s: Site,
    vars: Vars,
    arms: Seq<AMatchArm>,
    sty: TType,
    i: int,
    acc: Seq<TArm>,
    ty: Option<TType>,
)
    ensures
        typing::check_arms(s, vars, arms, sty, i, acc, ty) is Ok ==> arms_assign(scope_of(vars), arms, i),
    decreases arms, arms.len() - i,
{
    if !(i < 0 || i >= arms.len()) {
        assigned_check_arm(s, vars, arms[i], sty, ty);
        match typing::check_arm(s, vars, arms[i], sty, ty) {
            Ok(a) => {
                match ty {
                    Some(t) => {
                        if t == a.body.ty {
                            assigned_check_arms(s, vars, arms, sty, i + 1, acc.push(a), ty);
                        } else {
                            reveal(typing::arms_differ);
                        }
                    },
                    None => {
                        assigned_check_arms(s, vars, arms, sty, i + 1, acc.push(a), Some(a.body.ty));
                    },
                }
            },
            _ => {},
        }
    }
}

proof fn assigned_check_arm(s: Site, vars: Vars, arm: AMatchArm, sty: TType, ty: Option<TType>)
    ensures
        typing::check_arm(s, vars, arm, sty, ty) is Ok ==> arm_assigns(scope_of(vars), arm),
    decreases arm, 0int,
{
    assigned_check_pattern(s, arm.pattern, sty, vars);
    let p = typing::check_pattern(s, arm.pattern, sty, vars);
    match arm.guard {
        Some(g) => {
            assigned_check_expr(s, typing::vars_of(p), g, Some(TType::Bool));
        },
        _ => {},
    }
    assigned_check_expr(s, typing::vars_of(p), arm.body, ty);
    reveal(typing::arm_flow);
}

proof fn assigned_check_else(s: Site, vars: Vars, b: AElseBranch, expected: Option<TType>)
    ensures
        typing::check_else(s, vars, b, expected) is Ok ==> else_assigns(scope_of(vars), b),
    decreases b, 0int,
{
    match b {
        AElseBranch::Block(b) => {
            assigned_check_block(s, vars, b, expected);
        },
        AElseBranch::If(e) => {
            assigned_check_expr(s, vars, e, expected);
            reveal(typing::else_flow);
        },
    }
}

#[verifier::rlimit(60)]
proof fn assigned_check_expr(s: Site, vars: Vars, e: AExpr, expected: Option<TType>)
    ensures
        typing::check_expr(s, vars, e, expected) is Ok ==> expr_assigns(scope_of(vars), e),
    decreases e, 0int,
{
    match e {
        AExpr::Int { value, span } => {
        },
        AExpr::Ident { name, span } => {
        },
        AExpr::Path { segments, span } => {
        },
        AExpr::Unary { op, expr, span } => {
            assigned_check_expr(s, vars, *expr, expected);
            reveal(typing::unary_flow);
        },
        AExpr::Binary { op, lhs, rhs, span } => {
            if typing::lower_op(op).logical() {
                assigned_check_expr(s, vars, *lhs, Some(TType::Bool));
                assigned_check_expr(s, vars, *rhs, Some(TType::Bool));
                reveal(typing::logical_flow);
            } else {
                if op is Shl || op is Shr {
                    assigned_check_expr(s, vars, *lhs, expected);
                    let l = typing::check_expr(s, vars, *lhs, expected);
                    assigned_check_expr(
                        s,
                        vars,
                        *rhs,
                        typing::amount_context(*rhs, typing::type_of(l)),
                    );
                    reveal(typing::shift_flow);
                } else {
                    assigned_check_expr(s, vars, *lhs, None);
                    assigned_check_expr(s, vars, *rhs, None);
                    let target = typing::operand_type(
                        typing::wanted_type(op, expected),
                        *lhs,
                        *rhs,
                        typing::check_expr(s, vars, *lhs, None),
                        typing::check_expr(s, vars, *rhs, None),
                    );
                    assigned_check_expr(s, vars, *lhs, typing::context_of(target));
                    assigned_check_expr(s, vars, *rhs, typing::context_of(target));
                    reveal(typing::operator_flow);
                }
            }
        },
        AExpr::Call { callee, args, span } => {
            reveal(typing::callee_of);
            reveal(typing::callee_rule);
            let c = typing::callee_of(s, *callee, args.len(), span);
            if args.len() == 1 {
                assigned_check_expr(s, vars, args[0], None);
                assert(all_assign(scope_of(vars), args, 1));
            }
            assigned_check_args(
                s,
                vars,
                args,
                typing::param_types_of(c),
                typing::argument_kind(c),
                0,
                Seq::empty(),
            );
            reveal(typing::call_flow);
            if typing::check_expr(s, vars, e, expected) is Ok {
                if c matches Ok(typing::Callee::Print) {
                    assert(args.len() == 1);
                    assert(expr_assigns(scope_of(vars), args[0]));
                } else {
                    assert(typing::param_types_of(c).len() == args.len());
                }
                assert(all_assign(scope_of(vars), args, 0));
            }
        },
        AExpr::Field { base, field, span } => {
            assigned_check_expr(s, vars, *base, None);
            reveal(typing::field_flow);
        },
        AExpr::TupleField { base, index, span } => {
            assigned_check_expr(s, vars, *base, None);
            reveal(typing::part_flow);
        },
        AExpr::Index { base, index, span } => {
            assigned_check_expr(s, vars, *base, None);
            assigned_check_expr(s, vars, *index, None);
            reveal(typing::index_flow);
        },
        AExpr::Array { elems, span } => {
            assigned_check_elems(s, vars, elems, 0, Seq::empty(), typing::array_context(expected));
            reveal(typing::array_flow);
        },
        AExpr::Tuple { elems, span } => {
            assigned_check_parts(s, vars, elems, expected, 0, Seq::empty());
            reveal(typing::tuple_flow);
        },
        AExpr::StructLit { path, fields, span } => {
            reveal(typing::struct_of);
            let sd = typing::struct_of(s, path, fields, span);
            assigned_check_inits(
                s,
                vars,
                fields,
                typing::fields_of_struct(sd),
                typing::path_text(path),
                span,
                0,
                Seq::empty(),
            );
            reveal(typing::struct_flow);
            reveal(typing::struct_rule);
            if typing::check_expr(s, vars, e, expected) is Ok {
                lemma_struct(scope_of(vars), fields, typing::fields_of_struct(sd));
            }
        },
        AExpr::If { cond, then_branch, else_branch, span } => {
            assigned_check_expr(s, vars, *cond, Some(TType::Bool));
            assigned_check_block(
                s,
                vars,
                then_branch,
                if else_branch is Some { expected } else { Some(TType::Unit) },
            );
            match else_branch {
                Some(eb) => {
                    assigned_check_else(s, vars, *eb, expected);
                },
                _ => {},
            }
            reveal(typing::if_flow);
        },
        AExpr::Match { scrutinee, arms, span } => {
            assigned_check_expr(s, vars, *scrutinee, None);
            let sc = typing::check_expr(s, vars, *scrutinee, None);
            assigned_check_arms(s, vars, arms, typing::type_of(sc), 0, Seq::empty(), expected);
            reveal(typing::match_flow);
        },
        AExpr::Block(b) => {
            assigned_check_block(s, vars, b, expected);
            reveal(typing::block_flow);
        },
        _ => {},
    }
}

proof fn assigned_check_place(s: Site, vars: Vars, e: AExpr)
    ensures
        typing::check_place(s, vars, e) is Ok ==> place_assigns(scope_of(vars), e) && settable(scope_of(vars), e),
    decreases e, 1int,
{
    match e {
        AExpr::Ident { name, span } => {
            reveal(typing::place_rule);
            lemma_slot_last(vars, name, vars.len() as int);
            if let Some(p) = semantics::slot(vars, name) {
                let sc = scope_of(vars);
                assert(sc.len() == vars.len());
                assert(forall|j: int| 0 <= j < sc.len() ==> (#[trigger] sc[j]).0 == vars[j].0);
                assert(typing::check_place(s, vars, e) is Ok ==> sc[p] == (name, true));
            }
        },
        AExpr::Field { base, field, span } => {
            assigned_check_place(s, vars, *base);
            reveal(typing::field_place);
        },
        AExpr::TupleField { base, index, span } => {
            assigned_check_place(s, vars, *base);
            reveal(typing::part_place);
        },
        AExpr::Index { base, index, span } => {
            assigned_check_place(s, vars, *base);
            assigned_check_expr(s, vars, *index, None);
            reveal(typing::index_place);
        },
        _ => {},
    }
}

#[verifier::rlimit(60)]
proof fn assigned_check_stmt(s: Site, vars: Vars, st: AStmt)
    ensures
        typing::check_stmt(s, vars, st) matches Ok((_, v1)) ==> stmt_assigns(scope_of(vars), st) && scope_of(v1)
            == behind(scope_of(vars), st),
    decreases st, 0int,
{
    match st {
        AStmt::Let { name, mutable, ty, init, span } => {
            let want = typing::annotated(s, ty, span);
            assigned_check_expr(s, vars, init, typing::annotation_context(want));
            reveal(typing::let_flow);
            if let Ok((_, v1)) = typing::check_stmt(s, vars, st) {
                let ty = typing::check_expr(s, vars, init, typing::annotation_context(want))->Ok_0.ty;
                lemma_scope_push(vars, name, ty, mutable);
            }
        },
        AStmt::Assign { target, value, span } => {
            assigned_check_place(s, vars, target);
            let place = typing::check_place(s, vars, target);
            assigned_check_expr(s, vars, value, Some(typing::place_type(place)));
            reveal(typing::assign_flow);
        },
        AStmt::While { cond, body, span } => {
            assigned_check_expr(s, vars, cond, Some(TType::Bool));
            assigned_check_block(s, vars, body, None);
            reveal(typing::while_flow);
        },
        AStmt::For { var, lo, hi, body, span } => {
            assigned_check_expr(s, vars, lo, None);
            let l = typing::check_expr(s, vars, lo, None);
            assigned_check_expr(s, vars, hi, Some(typing::type_of(l)));
            assigned_check_block(
                s,
                vars.push((var, Var { ty: typing::type_of(l), mutable: false })),
                body,
                None,
            );
            lemma_scope_push(vars, var, typing::type_of(l), false);
            reveal(typing::for_flow);
        },
        AStmt::Return { value, span } => {
            match value {
                Some(e) => {
                    assigned_check_expr(s, vars, e, Some(s.ret));
                },
                _ => {},
            }
            reveal(typing::return_flow);
        },
        AStmt::Expr(e) => {
            assigned_check_expr(s, vars, e, None);
            reveal(typing::effect_flow);
        },
    }
}

proof fn assigned_check_stmts(s: Site, vars: Vars, sts: Seq<AStmt>, i: int, acc: Seq<TStmt>)
    ensures
        typing::check_stmts(s, vars, sts, i, acc) matches Ok((_, v1)) ==> stmts_assign(
            scope_of(vars),
            sts,
            i,
        ) && scope_of(v1) == scope_after(scope_of(vars), sts, i),
    decreases sts, sts.len() - i,
{
    if !(i < 0 || i >= sts.len()) {
        assigned_check_stmt(s, vars, sts[i]);
        match typing::check_stmt(s, vars, sts[i]) {
            Ok((t, vars1)) => {
                assigned_check_stmts(s, vars1, sts, i + 1, acc.push(t));
            },
            _ => {},
        }
    }
}

proof fn assigned_check_block(s: Site, vars: Vars, b: ABlock, expected: Option<TType>)
    ensures
        typing::check_block(s, vars, b, expected) is Ok ==> block_assigns(scope_of(vars), b),
    decreases b, 0int,
{
    assigned_check_stmts(s, vars, b.stmts, 0, Seq::empty());
    let stmts = typing::check_stmts(s, vars, b.stmts, 0, Seq::empty());
    match b.tail {
        Some(e) => {
            assigned_check_expr(s, typing::vars_of(stmts), *e, expected);
        },
        _ => {},
    }
    reveal(typing::tail_flow);
}

// ---- the laws -----------------------------------------------------------

/// In the body of a checked function only what `let mut` introduces is assigned to: no
/// parameter, no loop variable, no variable of a pattern and none of a `let` without
/// `mut`.
pub proof fn law_functions_assign_what_let_mut_introduces(d: Defs, m: Text, f: AFunc)
    requires
        program::check_func(d, m, f) is Ok,
    ensures
        block_assigns(Seq::new(f.params.len(), |i: int| (f.params[i].name, false)), f.body),
{
    reveal(program::check_func);
    let ps = program::check_params(d, m, f.params, 0, Seq::empty())->Ok_0;
    let ret = program::return_type(d, m, f.ret, f.span)->Ok_0;
    lemma_params(d, m, f.params, 0, Seq::empty());
    let vars = program::param_vars(ps);
    assert(scope_of(vars) =~= Seq::new(f.params.len(), |i: int| (f.params[i].name, false)));
    assigned_check_block(Site { defs: d, module: m, ret }, vars, f.body, Some(ret));
}

proof fn lemma_params(
    d: Defs,
    m: Text,
    ps: Seq<crate::ast::AParam>,
    i: int,
    acc: Seq<TParam>,
)
    requires
        0 <= i <= ps.len(),
        acc.len() == i,
        forall|k: int| 0 <= k < i ==> (#[trigger] acc[k]).name == ps[k].name,
    ensures
        program::check_params(d, m, ps, i, acc) matches Ok(r) ==> r.len() == ps.len() && forall|
            k: int,
        |
            0 <= k < ps.len() ==> (#[trigger] r[k]).name == ps[k].name,
    decreases ps.len() - i,
{
    if i < ps.len() {
        match typing::resolve(d, m, ps[i].ty, ps[i].span) {
            Ok(ty) => lemma_params(
                d,
                m,
                ps,
                i + 1,
                acc.push(TParam { name: ps[i].name, ty }),
            ),
            Err(_) => {},
        }
    }
}

/// The same of every function and constant of an accepted program.
pub proof fn law_only_let_mut_is_assigned_to(p: AProgram, j: int)
    requires
        program::check_program(p) is Ok,
        0 <= j < ordering::items_of(p).len(),
    ensures
        ordering::items_of(p)[j].1 matches AItem::Func(f) ==> block_assigns(
            Seq::new(f.params.len(), |i: int| (f.params[i].name, false)),
            f.body,
        ),
        ordering::items_of(p)[j].1 matches AItem::Const(c) ==> expr_assigns(Seq::empty(), c.init),
{
    let its = ordering::items_of(p);
    let d = safety::program_defs(p);
    ordering::lemma_build_clean(d, ordering::no_bodies(), its, 0);
    assert(ordering::accepted(d, its[j]));
    match its[j].1 {
        AItem::Func(f) => law_functions_assign_what_let_mut_introduces(d, its[j].0, f),
        AItem::Const(c) => {
            reveal(program::check_const);
            let ty = typing::resolve(d, its[j].0, c.ty, c.span)->Ok_0;
            assert(scope_of(Seq::empty()) =~= Seq::<(Text, bool)>::empty());
            assigned_check_expr(
                Site { defs: d, module: its[j].0, ret: TType::Unit },
                Seq::empty(),
                c.init,
                Some(ty),
            );
        },
        _ => {},
    }
}

} // verus!
