//! What a function says that names no constant does not depend on the constants.

use crate::ast::{ABlock, AElseBranch, AExpr, AFunc, AMatchArm, AParam, APattern, AStmt};
use crate::ir::{TArm, TConst, TExpr, TField, TParam, TPattern, TStmt, TType};
use crate::name_map::{self, Table};
use crate::program;
use crate::safety;
use crate::span::Span;
use crate::text::Text;
use crate::typing::{self, Defs, Site, Var, Vars};
use vstd::prelude::*;

verus! {

// ---- what names no constant ---------------------------------------------

/// Whether no name in an expression is that of a constant in `cs`. What is called is
/// no constant.
pub open spec fn expr_silent(cs: Table<TConst>, e: AExpr) -> bool
    decreases e, 0int,
{
    match e {
        AExpr::Ident { name, span } => name_map::find(cs, typing::path_text(seq![name])) is None,
        AExpr::Path { segments, span } => name_map::find(cs, typing::path_text(segments)) is None,
        AExpr::Unary { op, expr, span } => expr_silent(cs, *expr),
        AExpr::Binary { op, lhs, rhs, span } => expr_silent(cs, *lhs) && expr_silent(cs, *rhs),
        AExpr::Call { callee, args, span } => all_silent(cs, args),
        AExpr::Field { base, field, span } => expr_silent(cs, *base),
        AExpr::TupleField { base, index, span } => expr_silent(cs, *base),
        AExpr::Index { base, index, span } => expr_silent(cs, *base) && expr_silent(cs, *index),
        AExpr::Array { elems, span } => all_silent(cs, elems),
        AExpr::Tuple { elems, span } => all_silent(cs, elems),
        AExpr::StructLit { path, fields, span } => inits_silent(cs, fields),
        AExpr::If { cond, then_branch, else_branch, span } => expr_silent(cs, *cond)
            && block_silent(cs, then_branch) && match else_branch {
            Some(b) => else_silent(cs, *b),
            None => true,
        },
        AExpr::Match { scrutinee, arms, span } => expr_silent(cs, *scrutinee) && arms_silent(
            cs,
            arms,
        ),
        AExpr::Block(b) => block_silent(cs, b),
        _ => true,
    }
}

pub open spec fn all_silent(cs: Table<TConst>, es: Seq<AExpr>) -> bool
    decreases es, 0int,
{
    forall|i: int| 0 <= i < es.len() ==> expr_silent(cs, #[trigger] es[i])
}

pub open spec fn inits_silent(cs: Table<TConst>, fs: Seq<(Text, AExpr)>) -> bool
    decreases fs, 0int,
{
    forall|i: int| 0 <= i < fs.len() ==> expr_silent(cs, (#[trigger] fs[i]).1)
}

pub open spec fn arm_silent(cs: Table<TConst>, a: AMatchArm) -> bool
    decreases a, 0int,
{
    expr_silent(cs, a.body) && match a.guard {
        Some(g) => expr_silent(cs, g),
        None => true,
    }
}

pub open spec fn arms_silent(cs: Table<TConst>, arms: Seq<AMatchArm>) -> bool
    decreases arms, 0int,
{
    forall|i: int| 0 <= i < arms.len() ==> arm_silent(cs, #[trigger] arms[i])
}

pub open spec fn else_silent(cs: Table<TConst>, b: AElseBranch) -> bool
    decreases b, 0int,
{
    match b {
        AElseBranch::Block(b) => block_silent(cs, b),
        AElseBranch::If(e) => expr_silent(cs, e),
    }
}

/// A place begins with a variable, whatever its name.
pub open spec fn place_silent(cs: Table<TConst>, e: AExpr) -> bool
    decreases e, 1int,
{
    match e {
        AExpr::Field { base, field, span } => place_silent(cs, *base),
        AExpr::TupleField { base, index, span } => place_silent(cs, *base),
        AExpr::Index { base, index, span } => place_silent(cs, *base) && expr_silent(cs, *index),
        _ => true,
    }
}

pub open spec fn stmt_silent(cs: Table<TConst>, st: AStmt) -> bool
    decreases st, 0int,
{
    match st {
        AStmt::Let { name, mutable, ty, init, span } => expr_silent(cs, init),
        AStmt::Assign { target, value, span } => place_silent(cs, target) && expr_silent(cs, value),
        AStmt::While { cond, body, span } => expr_silent(cs, cond) && block_silent(cs, body),
        AStmt::For { var, lo, hi, body, span } => expr_silent(cs, lo) && expr_silent(cs, hi)
            && block_silent(cs, body),
        AStmt::Return { value, span } => match value {
            Some(e) => expr_silent(cs, e),
            None => true,
        },
        AStmt::Expr(e) => expr_silent(cs, e),
    }
}

pub open spec fn stmts_silent(cs: Table<TConst>, sts: Seq<AStmt>) -> bool
    decreases sts, 0int,
{
    forall|i: int| 0 <= i < sts.len() ==> stmt_silent(cs, #[trigger] sts[i])
}

pub open spec fn block_silent(cs: Table<TConst>, b: ABlock) -> bool
    decreases b, 0int,
{
    stmts_silent(cs, b.stmts) && match b.tail {
        Some(e) => expr_silent(cs, *e),
        None => true,
    }
}

// ---- checking -----------------------------------------------------------

/// Whether `s` and `z` differ in no more than what the names of `cs` stand for as
/// constants.
pub open spec fn agree(cs: Table<TConst>, s: Site, z: Site) -> bool {
    &&& z.module == s.module
    &&& z.ret == s.ret
    &&& z.defs == (Defs { consts: z.defs.consts, ..s.defs })
    &&& forall|segs: Seq<Text>|
        name_map::find(cs, typing::path_text(segs)) is None ==> #[trigger] typing::look_up(
            s.defs.consts,
            s.defs.imports,
            s.module,
            segs,
        ) == typing::look_up(z.defs.consts, s.defs.imports, s.module, segs)
}

proof fn same_check_pattern(cs: Table<TConst>, s: Site, z: Site, p: APattern, ty: TType, vars: Vars)
    requires
        agree(cs, s, z),
    ensures
        typing::check_pattern(s, p, ty, vars) == typing::check_pattern(z, p, ty, vars),
    decreases p, 0int,
{
    match p {
        APattern::Int { value, span } => {
        },
        APattern::Range { lo, hi, inclusive, span } => {
            match typing::int_pattern(lo, ty, span, "range"@) {
                Ok(_) => {
                },
                _ => {},
            }
        },
        APattern::Variant { path, subpatterns, span } => {
            reveal(typing::variant_pattern);
            match typing::variant_pattern(s, path, ty, subpatterns.len(), span) {
                Ok((enum_name, tag, fields)) => {
                    same_check_patterns(cs, s, z, subpatterns, fields, 0, Seq::empty(), vars);
                },
                _ => {},
            }
        },
        APattern::Tuple { elems, span } => {
            if !(elems.len() == 0 && ty == TType::Unit) {
                if elems.len() == 1 {
                    same_check_pattern(cs, s, z, elems[0], ty, vars);
                } else {
                    match typing::tuple_pattern(ty, elems.len(), span) {
                        Ok(ts) => {
                            same_check_patterns(cs, s, z, elems, ts, 0, Seq::empty(), vars);
                        },
                        _ => {},
                    }
                }
            }
        },
        APattern::Or { alts, span } => {
            if !(alts.len() == 0) {
                same_check_pattern(cs, s, z, alts[0], ty, vars);
                match typing::check_pattern(s, alts[0], ty, vars) {
                    Ok((first, vars1)) => {
                        same_check_alts(
                            cs,
                            s,
                            z,
                            alts,
                            ty,
                            1,
                            seq![first],
                            vars,
                            vars1.subrange(vars.len() as int, vars1.len() as int),
                            span,
                        );
                    },
                    _ => {},
                }
            }
        },
        _ => {},
    }
}

proof fn same_check_patterns(
    cs: Table<TConst>,
    s: Site,
    z: Site,
    ps: Seq<APattern>,
    tys: Seq<TType>,
    i: int,
    acc: Seq<TPattern>,
    vars: Vars,
)
    requires
        agree(cs, s, z),
    ensures
        typing::check_patterns(s, ps, tys, i, acc, vars) == typing::check_patterns(
            z,
            ps,
            tys,
            i,
            acc,
            vars,
        ),
    decreases ps, ps.len() - i,
{
    if !(i < 0 || i >= ps.len() || i >= tys.len()) {
        same_check_pattern(cs, s, z, ps[i], tys[i], vars);
        match typing::check_pattern(s, ps[i], tys[i], vars) {
            Ok((p, vars1)) => {
                same_check_patterns(cs, s, z, ps, tys, i + 1, acc.push(p), vars1);
            },
            _ => {},
        }
    }
}

proof fn same_check_alts(
    cs: Table<TConst>,
    s: Site,
    z: Site,
    ps: Seq<APattern>,
    ty: TType,
    i: int,
    acc: Seq<TPattern>,
    vars: Vars,
    bound: Vars,
    span: Span,
)
    requires
        agree(cs, s, z),
    ensures
        typing::check_alts(s, ps, ty, i, acc, vars, bound, span) == typing::check_alts(
            z,
            ps,
            ty,
            i,
            acc,
            vars,
            bound,
            span,
        ),
    decreases ps, ps.len() - i,
{
    if !(i < 0 || i >= ps.len()) {
        same_check_pattern(cs, s, z, ps[i], ty, vars);
        match typing::check_pattern(s, ps[i], ty, vars) {
            Ok((p, vars1)) => {
                let mine = vars1.subrange(vars.len() as int, vars1.len() as int);
                if typing::binds_within(bound, mine) && typing::binds_within(mine, bound) {
                    same_check_alts(cs, s, z, ps, ty, i + 1, acc.push(p), vars, bound, span);
                }
            },
            _ => {},
        }
    }
}

proof fn same_check_args(
    cs: Table<TConst>,
    s: Site,
    z: Site,
    vars: Vars,
    args: Seq<AExpr>,
    tys: Seq<TType>,
    what: Text,
    i: int,
    acc: Seq<TExpr>,
)
    requires
        agree(cs, s, z),
        all_silent(cs, args),
    ensures
        typing::check_args(s, vars, args, tys, what, i, acc) == typing::check_args(
            z,
            vars,
            args,
            tys,
            what,
            i,
            acc,
        ),
    decreases args, args.len() - i,
{
    if !(i < 0 || i >= args.len() || i >= tys.len()) {
        same_check_expr(cs, s, z, vars, args[i], Some(tys[i]));
        match typing::check_expr(s, vars, args[i], Some(tys[i])) {
            Ok(e) => {
                match typing::arg_rule(e.ty, tys[i], what, args[i].span()) {
                    Ok(_) => {
                        same_check_args(cs, s, z, vars, args, tys, what, i + 1, acc.push(e));
                    },
                    _ => {},
                }
            },
            _ => {},
        }
    }
}

proof fn same_check_elems(
    cs: Table<TConst>,
    s: Site,
    z: Site,
    vars: Vars,
    elems: Seq<AExpr>,
    i: int,
    acc: Seq<TExpr>,
    ty: Option<TType>,
)
    requires
        agree(cs, s, z),
        all_silent(cs, elems),
    ensures
        typing::check_elems(s, vars, elems, i, acc, ty) == typing::check_elems(
            z,
            vars,
            elems,
            i,
            acc,
            ty,
        ),
    decreases elems, elems.len() - i,
{
    if !(i < 0 || i >= elems.len()) {
        same_check_expr(cs, s, z, vars, elems[i], ty);
        match typing::check_expr(s, vars, elems[i], ty) {
            Ok(e) => {
                match ty {
                    Some(t) => {
                        if t == e.ty {
                            same_check_elems(cs, s, z, vars, elems, i + 1, acc.push(e), ty);
                        } else {
                        }
                    },
                    None => {
                        same_check_elems(cs, s, z, vars, elems, i + 1, acc.push(e), Some(e.ty));
                    },
                }
            },
            _ => {},
        }
    }
}

proof fn same_check_parts(
    cs: Table<TConst>,
    s: Site,
    z: Site,
    vars: Vars,
    elems: Seq<AExpr>,
    expected: Option<TType>,
    i: int,
    acc: Seq<TExpr>,
)
    requires
        agree(cs, s, z),
        all_silent(cs, elems),
    ensures
        typing::check_parts(s, vars, elems, expected, i, acc) == typing::check_parts(
            z,
            vars,
            elems,
            expected,
            i,
            acc,
        ),
    decreases elems, elems.len() - i,
{
    if !(i < 0 || i >= elems.len()) {
        same_check_expr(cs, s, z, vars, elems[i], typing::tuple_context(expected, i, elems.len()));
        match typing::check_expr(
            s,
            vars,
            elems[i],
            typing::tuple_context(expected, i, elems.len()),
        ) {
            Ok(e) => {
                same_check_parts(cs, s, z, vars, elems, expected, i + 1, acc.push(e));
            },
            _ => {},
        }
    }
}

proof fn same_check_inits(
    cs: Table<TConst>,
    s: Site,
    z: Site,
    vars: Vars,
    fields: Seq<(Text, AExpr)>,
    sd: Seq<TField>,
    name: Text,
    span: Span,
    i: int,
    acc: Seq<TExpr>,
)
    requires
        agree(cs, s, z),
        inits_silent(cs, fields),
    ensures
        typing::check_inits(s, vars, fields, sd, name, span, i, acc) == typing::check_inits(
            z,
            vars,
            fields,
            sd,
            name,
            span,
            i,
            acc,
        ),
    decreases fields, sd.len() - i,
{
    if !(i < 0 || i >= sd.len()) {
        match typing::init_of(fields, sd[i].name, 0) {
            None => {
            },
            Some(k) => {
                if 0 <= k < fields.len() {
                    same_check_expr(cs, s, z, vars, fields[k].1, Some(sd[i].ty));
                    match typing::check_expr(s, vars, fields[k].1, Some(sd[i].ty)) {
                        Ok(e) => {
                            match typing::field_rule(sd[i], name, e.ty, fields[k].1.span()) {
                                Ok(_) => {
                                    same_check_inits(
                                        cs,
                                        s,
                                        z,
                                        vars,
                                        fields,
                                        sd,
                                        name,
                                        span,
                                        i + 1,
                                        acc.push(e),
                                    );
                                },
                                _ => {},
                            }
                        },
                        _ => {},
                    }
                } else {
                }
            },
        }
    }
}

proof fn same_check_arms(
    cs: Table<TConst>,
    s: Site,
    z: Site,
    vars: Vars,
    arms: Seq<AMatchArm>,
    sty: TType,
    i: int,
    acc: Seq<TArm>,
    ty: Option<TType>,
)
    requires
        agree(cs, s, z),
        arms_silent(cs, arms),
    ensures
        typing::check_arms(s, vars, arms, sty, i, acc, ty) == typing::check_arms(
            z,
            vars,
            arms,
            sty,
            i,
            acc,
            ty,
        ),
    decreases arms, arms.len() - i,
{
    if !(i < 0 || i >= arms.len()) {
        same_check_arm(cs, s, z, vars, arms[i], sty, ty);
        match typing::check_arm(s, vars, arms[i], sty, ty) {
            Ok(a) => {
                match ty {
                    Some(t) => {
                        if t == a.body.ty {
                            same_check_arms(cs, s, z, vars, arms, sty, i + 1, acc.push(a), ty);
                        } else {
                        }
                    },
                    None => {
                        same_check_arms(
                            cs,
                            s,
                            z,
                            vars,
                            arms,
                            sty,
                            i + 1,
                            acc.push(a),
                            Some(a.body.ty),
                        );
                    },
                }
            },
            _ => {},
        }
    }
}

proof fn same_check_arm(
    cs: Table<TConst>,
    s: Site,
    z: Site,
    vars: Vars,
    arm: AMatchArm,
    sty: TType,
    ty: Option<TType>,
)
    requires
        agree(cs, s, z),
        arm_silent(cs, arm),
    ensures
        typing::check_arm(s, vars, arm, sty, ty) == typing::check_arm(z, vars, arm, sty, ty),
    decreases arm, 0int,
{
    same_check_pattern(cs, s, z, arm.pattern, sty, vars);
    let p = typing::check_pattern(s, arm.pattern, sty, vars);
    match arm.guard {
        Some(g) => {
            same_check_expr(cs, s, z, typing::vars_of(p), g, Some(TType::Bool));
        },
        _ => {},
    }
    same_check_expr(cs, s, z, typing::vars_of(p), arm.body, ty);
}

proof fn same_check_else(
    cs: Table<TConst>,
    s: Site,
    z: Site,
    vars: Vars,
    b: AElseBranch,
    expected: Option<TType>,
)
    requires
        agree(cs, s, z),
        else_silent(cs, b),
    ensures
        typing::check_else(s, vars, b, expected) == typing::check_else(z, vars, b, expected),
    decreases b, 0int,
{
    match b {
        AElseBranch::Block(b) => {
            same_check_block(cs, s, z, vars, b, expected);
        },
        AElseBranch::If(e) => {
            same_check_expr(cs, s, z, vars, e, expected);
        },
    }
}

#[verifier::rlimit(60)]
proof fn same_check_expr(
    cs: Table<TConst>,
    s: Site,
    z: Site,
    vars: Vars,
    e: AExpr,
    expected: Option<TType>,
)
    requires
        agree(cs, s, z),
        expr_silent(cs, e),
    ensures
        typing::check_expr(s, vars, e, expected) == typing::check_expr(z, vars, e, expected),
    decreases e, 0int,
{
    match e {
        AExpr::Int { value, span } => {
        },
        AExpr::Ident { name, span } => {
            reveal(typing::global_rule);
            reveal(typing::ident_rule);
        },
        AExpr::Path { segments, span } => {
            reveal(typing::global_rule);
        },
        AExpr::Unary { op, expr, span } => {
            same_check_expr(cs, s, z, vars, *expr, expected);
        },
        AExpr::Binary { op, lhs, rhs, span } => {
            if typing::lower_op(op).logical() {
                same_check_expr(cs, s, z, vars, *lhs, Some(TType::Bool));
                same_check_expr(cs, s, z, vars, *rhs, Some(TType::Bool));
            } else {
                if op is Shl || op is Shr {
                    same_check_expr(cs, s, z, vars, *lhs, expected);
                    let l = typing::check_expr(s, vars, *lhs, expected);
                    same_check_expr(
                        cs,
                        s,
                        z,
                        vars,
                        *rhs,
                        typing::amount_context(*rhs, typing::type_of(l)),
                    );
                } else {
                    same_check_expr(cs, s, z, vars, *lhs, None);
                    same_check_expr(cs, s, z, vars, *rhs, None);
                    let target = typing::operand_type(
                        typing::wanted_type(op, expected),
                        *lhs,
                        *rhs,
                        typing::check_expr(s, vars, *lhs, None),
                        typing::check_expr(s, vars, *rhs, None),
                    );
                    same_check_expr(cs, s, z, vars, *lhs, typing::context_of(target));
                    same_check_expr(cs, s, z, vars, *rhs, typing::context_of(target));
                }
            }
        },
        AExpr::Call { callee, args, span } => {
            reveal(typing::callee_of);
            reveal(typing::callee_rule);
            let c = typing::callee_of(s, *callee, args.len(), span);
            if args.len() == 1 {
                assert(all_silent(cs, args));
                assert(expr_silent(cs, args[0]));
                same_check_expr(cs, s, z, vars, args[0], None);
            }
            same_check_args(
                cs,
                s,
                z,
                vars,
                args,
                typing::param_types_of(c),
                typing::argument_kind(c),
                0,
                Seq::empty(),
            );
        },
        AExpr::Field { base, field, span } => {
            same_check_expr(cs, s, z, vars, *base, None);
            reveal(typing::field_flow);
            reveal(typing::field_type);
        },
        AExpr::TupleField { base, index, span } => {
            same_check_expr(cs, s, z, vars, *base, None);
        },
        AExpr::Index { base, index, span } => {
            same_check_expr(cs, s, z, vars, *base, None);
            same_check_expr(cs, s, z, vars, *index, None);
        },
        AExpr::Array { elems, span } => {
            same_check_elems(
                cs,
                s,
                z,
                vars,
                elems,
                0,
                Seq::empty(),
                typing::array_context(expected),
            );
        },
        AExpr::Tuple { elems, span } => {
            same_check_parts(cs, s, z, vars, elems, expected, 0, Seq::empty());
        },
        AExpr::StructLit { path, fields, span } => {
            reveal(typing::struct_of);
            let sd = typing::struct_of(s, path, fields, span);
            same_check_inits(
                cs,
                s,
                z,
                vars,
                fields,
                typing::fields_of_struct(sd),
                typing::path_text(path),
                span,
                0,
                Seq::empty(),
            );
        },
        AExpr::If { cond, then_branch, else_branch, span } => {
            same_check_expr(cs, s, z, vars, *cond, Some(TType::Bool));
            same_check_block(
                cs,
                s,
                z,
                vars,
                then_branch,
                if else_branch is Some { expected } else { Some(TType::Unit) },
            );
            match else_branch {
                Some(eb) => {
                    same_check_else(cs, s, z, vars, *eb, expected);
                },
                _ => {},
            }
        },
        AExpr::Match { scrutinee, arms, span } => {
            same_check_expr(cs, s, z, vars, *scrutinee, None);
            let sc = typing::check_expr(s, vars, *scrutinee, None);
            same_check_arms(cs, s, z, vars, arms, typing::type_of(sc), 0, Seq::empty(), expected);
            reveal(typing::exhaustive);
            reveal(typing::match_flow);
        },
        AExpr::Block(b) => {
            same_check_block(cs, s, z, vars, b, expected);
        },
        _ => {},
    }
}

proof fn same_check_place(cs: Table<TConst>, s: Site, z: Site, vars: Vars, e: AExpr)
    requires
        agree(cs, s, z),
        place_silent(cs, e),
    ensures
        typing::check_place(s, vars, e) == typing::check_place(z, vars, e),
    decreases e, 1int,
{
    match e {
        AExpr::Ident { name, span } => {
        },
        AExpr::Field { base, field, span } => {
            same_check_place(cs, s, z, vars, *base);
            reveal(typing::field_place);
            reveal(typing::field_type);
        },
        AExpr::TupleField { base, index, span } => {
            same_check_place(cs, s, z, vars, *base);
        },
        AExpr::Index { base, index, span } => {
            same_check_place(cs, s, z, vars, *base);
            same_check_expr(cs, s, z, vars, *index, None);
        },
        _ => {},
    }
}

#[verifier::rlimit(60)]
proof fn same_check_stmt(cs: Table<TConst>, s: Site, z: Site, vars: Vars, st: AStmt)
    requires
        agree(cs, s, z),
        stmt_silent(cs, st),
    ensures
        typing::check_stmt(s, vars, st) == typing::check_stmt(z, vars, st),
    decreases st, 0int,
{
    match st {
        AStmt::Let { name, mutable, ty, init, span } => {
            reveal(typing::annotated);
            match ty {
                Some(t) => safety::lemma_resolve(s.defs, z.defs, s.module, t, span),
                None => {},
            }
            let want = typing::annotated(s, ty, span);
            same_check_expr(cs, s, z, vars, init, typing::annotation_context(want));
        },
        AStmt::Assign { target, value, span } => {
            same_check_place(cs, s, z, vars, target);
            let place = typing::check_place(s, vars, target);
            same_check_expr(cs, s, z, vars, value, Some(typing::place_type(place)));
        },
        AStmt::While { cond, body, span } => {
            same_check_expr(cs, s, z, vars, cond, Some(TType::Bool));
            same_check_block(cs, s, z, vars, body, None);
        },
        AStmt::For { var, lo, hi, body, span } => {
            same_check_expr(cs, s, z, vars, lo, None);
            let l = typing::check_expr(s, vars, lo, None);
            same_check_expr(cs, s, z, vars, hi, Some(typing::type_of(l)));
            same_check_block(
                cs,
                s,
                z,
                vars.push((var, Var { ty: typing::type_of(l), mutable: false })),
                body,
                None,
            );
        },
        AStmt::Return { value, span } => {
            match value {
                Some(e) => {
                    same_check_expr(cs, s, z, vars, e, Some(s.ret));
                },
                _ => {},
            }
        },
        AStmt::Expr(e) => {
            same_check_expr(cs, s, z, vars, e, None);
        },
    }
}

proof fn same_check_stmts(
    cs: Table<TConst>,
    s: Site,
    z: Site,
    vars: Vars,
    sts: Seq<AStmt>,
    i: int,
    acc: Seq<TStmt>,
)
    requires
        agree(cs, s, z),
        stmts_silent(cs, sts),
    ensures
        typing::check_stmts(s, vars, sts, i, acc) == typing::check_stmts(z, vars, sts, i, acc),
    decreases sts, sts.len() - i,
{
    if !(i < 0 || i >= sts.len()) {
        same_check_stmt(cs, s, z, vars, sts[i]);
        match typing::check_stmt(s, vars, sts[i]) {
            Ok((t, vars1)) => {
                same_check_stmts(cs, s, z, vars1, sts, i + 1, acc.push(t));
            },
            _ => {},
        }
    }
}

pub proof fn same_check_block(
    cs: Table<TConst>,
    s: Site,
    z: Site,
    vars: Vars,
    b: ABlock,
    expected: Option<TType>,
)
    requires
        agree(cs, s, z),
        block_silent(cs, b),
    ensures
        typing::check_block(s, vars, b, expected) == typing::check_block(z, vars, b, expected),
    decreases b, 0int,
{
    same_check_stmts(cs, s, z, vars, b.stmts, 0, Seq::empty());
    let stmts = typing::check_stmts(s, vars, b.stmts, 0, Seq::empty());
    match b.tail {
        Some(e) => {
            same_check_expr(cs, s, z, typing::vars_of(stmts), *e, expected);
        },
        _ => {},
    }
}

// ---- functions ----------------------------------------------------------

proof fn lemma_params(a: Defs, b: Defs, m: Text, ps: Seq<AParam>, i: int, acc: Seq<TParam>)
    requires
        safety::same_types(a, b),
    ensures
        program::check_params(a, m, ps, i, acc) == program::check_params(b, m, ps, i, acc),
    decreases ps.len() - i,
{
    if 0 <= i < ps.len() {
        safety::lemma_resolve(a, b, m, ps[i].ty, ps[i].span);
        match typing::resolve(a, m, ps[i].ty, ps[i].span) {
            Ok(ty) => lemma_params(
                a,
                b,
                m,
                ps,
                i + 1,
                acc.push(TParam { name: ps[i].name, ty }),
            ),
            Err(_) => {},
        }
    }
}

/// A function at the root whose body names no constant of `cs` is checked alike with
/// those constants and with none, where there are no imports.
pub proof fn lemma_func(cs: Table<TConst>, d: Defs, f: AFunc)
    requires
        d.imports.len() == 0,
        forall|n: Text| #[trigger]
            name_map::find(d.consts, n) is Some ==> name_map::find(cs, n) is Some,
        block_silent(cs, f.body),
    ensures
        program::check_func(d, Seq::empty(), f) == program::check_func(
            Defs { consts: Seq::empty(), ..d },
            Seq::empty(),
            f,
        ),
{
    reveal(program::check_func);
    let z = Defs { consts: Seq::empty(), ..d };
    let m = Seq::<char>::empty();
    lemma_params(d, z, m, f.params, 0, Seq::empty());
    match f.ret {
        Some(t) => safety::lemma_resolve(d, z, m, t, f.span),
        None => {},
    }
    match program::check_params(d, m, f.params, 0, Seq::empty()) {
        Ok(params) => match program::return_type(d, m, f.ret, f.span) {
            Ok(ret) => {
                let s1 = Site { defs: d, module: m, ret };
                let s2 = Site { defs: z, module: m, ret };
                assert(agree(cs, s1, s2));
                same_check_block(cs, s1, s2, program::param_vars(params), f.body, Some(ret));
            },
            Err(_) => {},
        },
        Err(_) => {},
    }
}

} // verus!
