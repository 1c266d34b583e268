//! Of which stage diagnostics are: each stage of the front end complains of its own,
//! and one that fails complains of something.

use crate::ast::{
    AElseBranch, ABlock, AConstDef, AExpr, AFieldDef, AFunc, AItem, AMatchArm, AParam, APattern,
    AProgram, AStmt, ATypeExpr, AVariantDef,
};
use crate::blame;
use crate::diagnostic::{Diag, Stage};
use crate::grammar;
use crate::ir::{TArm, TExpr, TField, TParam, TPattern, TStmt, TType, TVariant};
use crate::lexer;
use crate::name_map;
use crate::program::{self, Built, Gathered, Placed};
use crate::span::Span;
use crate::text::Text;
use crate::token::KToken;
use crate::typing::{self, Defs, Site, Var, Vars};
use vstd::prelude::*;

verus! {

// ---- checking -----------------------------------------------------------

/// Whether a failure is one of the type checker.
pub open spec fn staged<A>(r: Result<A, Diag>) -> bool {
    r matches Err(d) ==> d.stage is Type
}

proof fn staged_resolve(defs: Defs, m: Text, t: ATypeExpr, span: Span)
    ensures
        staged(typing::resolve(defs, m, t, span)),
    decreases t, 0int,
{
    match t {
        ATypeExpr::Array { elem, len } => {
            staged_resolve(defs, m, *elem, span);
        },
        ATypeExpr::Tuple(ts) => {
            staged_resolve_all(defs, m, ts, span, 0, Seq::empty());
        },
        _ => {},
    }
}

proof fn staged_resolve_all(
    defs: Defs,
    m: Text,
    ts: Seq<ATypeExpr>,
    span: Span,
    i: int,
    acc: Seq<TType>,
)
    ensures
        staged(typing::resolve_all(defs, m, ts, span, i, acc)),
    decreases ts, ts.len() - i,
{
    if !(i < 0 || i >= ts.len()) {
        staged_resolve(defs, m, ts[i], span);
        match typing::resolve(defs, m, ts[i], span) {
            Ok(t) => {
                staged_resolve_all(defs, m, ts, span, i + 1, acc.push(t));
            },
            _ => {},
        }
    }
}

proof fn staged_check_pattern(s: Site, p: APattern, ty: TType, vars: Vars)
    ensures
        staged(typing::check_pattern(s, p, ty, vars)),
    decreases p, 0int,
{
    match p {
        APattern::Int { value, span } => {
            reveal(typing::int_pattern);
        },
        APattern::Range { lo, hi, inclusive, span } => {
            reveal(typing::int_pattern);
            match typing::int_pattern(lo, ty, span, "range"@) {
                Ok(_) => {
                    reveal(typing::int_pattern);
                },
                _ => {},
            }
        },
        APattern::Variant { path, subpatterns, span } => {
            reveal(typing::variant_pattern);
            match typing::variant_pattern(s, path, ty, subpatterns.len(), span) {
                Ok((enum_name, tag, fields)) => {
                    staged_check_patterns(s, subpatterns, fields, 0, Seq::empty(), vars);
                },
                _ => {},
            }
        },
        APattern::Tuple { elems, span } => {
            if !(elems.len() == 0 && ty == TType::Unit) {
                if elems.len() == 1 {
                    staged_check_pattern(s, elems[0], ty, vars);
                } else {
                    reveal(typing::tuple_pattern);
                    match typing::tuple_pattern(ty, elems.len(), span) {
                        Ok(ts) => {
                            staged_check_patterns(s, elems, ts, 0, Seq::empty(), vars);
                        },
                        _ => {},
                    }
                }
            }
        },
        APattern::Or { alts, span } => {
            if !(alts.len() == 0) {
                staged_check_pattern(s, alts[0], ty, vars);
                match typing::check_pattern(s, alts[0], ty, vars) {
                    Ok((first, vars1)) => {
                        staged_check_alts(
                            s,
                            alts,
                            ty,
                            1,
                            seq![first],
                            vars,
                            vars1.subrange(vars.len() as int, vars1.len() as int),
                            span,
                        );
                    },
                    _ => {},
                }
            }
        },
        _ => {},
    }
}

proof fn staged_check_patterns(
    s: Site,
    ps: Seq<APattern>,
    tys: Seq<TType>,
    i: int,
    acc: Seq<TPattern>,
    vars: Vars,
)
    ensures
        staged(typing::check_patterns(s, ps, tys, i, acc, vars)),
    decreases ps, ps.len() - i,
{
    if !(i < 0 || i >= ps.len() || i >= tys.len()) {
        staged_check_pattern(s, ps[i], tys[i], vars);
        match typing::check_pattern(s, ps[i], tys[i], vars) {
            Ok((p, vars1)) => {
                staged_check_patterns(s, ps, tys, i + 1, acc.push(p), vars1);
            },
            _ => {},
        }
    }
}

proof fn staged_check_alts(
    s: Site,
    ps: Seq<APattern>,
    ty: TType,
    i: int,
    acc: Seq<TPattern>,
    vars: Vars,
    bound: Vars,
    span: Span,
)
    ensures
        staged(typing::check_alts(s, ps, ty, i, acc, vars, bound, span)),
    decreases ps, ps.len() - i,
{
    if !(i < 0 || i >= ps.len()) {
        staged_check_pattern(s, ps[i], ty, vars);
        match typing::check_pattern(s, ps[i], ty, vars) {
            Ok((p, vars1)) => {
                let mine = vars1.subrange(vars.len() as int, vars1.len() as int);
                if typing::binds_within(bound, mine) && typing::binds_within(mine, bound) {
                    staged_check_alts(s, ps, ty, i + 1, acc.push(p), vars, bound, span);
                }
            },
            _ => {},
        }
    }
}

proof fn staged_check_args(
    s: Site,
    vars: Vars,
    args: Seq<AExpr>,
    tys: Seq<TType>,
    what: Text,
    i: int,
    acc: Seq<TExpr>,
)
    ensures
        staged(typing::check_args(s, vars, args, tys, what, i, acc)),
    decreases args, args.len() - i,
{
    if !(i < 0 || i >= args.len() || i >= tys.len()) {
        staged_check_expr(s, vars, args[i], Some(tys[i]));
        match typing::check_expr(s, vars, args[i], Some(tys[i])) {
            Ok(e) => {
                reveal(typing::arg_rule);
                match typing::arg_rule(e.ty, tys[i], what, args[i].span()) {
                    Ok(_) => {
                        staged_check_args(s, vars, args, tys, what, i + 1, acc.push(e));
                    },
                    _ => {},
                }
            },
            _ => {},
        }
    }
}

proof fn staged_check_elems(
    s: Site,
    vars: Vars,
    elems: Seq<AExpr>,
    i: int,
    acc: Seq<TExpr>,
    ty: Option<TType>,
)
    ensures
        staged(typing::check_elems(s, vars, elems, i, acc, ty)),
    decreases elems, elems.len() - i,
{
    if !(i < 0 || i >= elems.len()) {
        staged_check_expr(s, vars, elems[i], ty);
        match typing::check_expr(s, vars, elems[i], ty) {
            Ok(e) => {
                match ty {
                    Some(t) => {
                        if t == e.ty {
                            staged_check_elems(s, vars, elems, i + 1, acc.push(e), ty);
                        } else {
                            reveal(typing::elements_differ);
                        }
                    },
                    None => {
                        staged_check_elems(s, vars, elems, i + 1, acc.push(e), Some(e.ty));
                    },
                }
            },
            _ => {},
        }
    }
}

proof fn staged_check_parts(
    s: Site,
    vars: Vars,
    elems: Seq<AExpr>,
    expected: Option<TType>,
    i: int,
    acc: Seq<TExpr>,
)
    ensures
        staged(typing::check_parts(s, vars, elems, expected, i, acc)),
    decreases elems, elems.len() - i,
{
    if !(i < 0 || i >= elems.len()) {
        staged_check_expr(s, vars, elems[i], typing::tuple_context(expected, i, elems.len()));
        match typing::check_expr(
            s,
            vars,
            elems[i],
            typing::tuple_context(expected, i, elems.len()),
        ) {
            Ok(e) => {
                staged_check_parts(s, vars, elems, expected, i + 1, acc.push(e));
            },
            _ => {},
        }
    }
}

proof fn staged_check_inits(
    s: Site,
    vars: Vars,
    fields: Seq<(Text, AExpr)>,
    sd: Seq<TField>,
    name: Text,
    span: Span,
    i: int,
    acc: Seq<TExpr>,
)
    ensures
        staged(typing::check_inits(s, vars, fields, sd, name, span, i, acc)),
    decreases fields, sd.len() - i,
{
    if !(i < 0 || i >= sd.len()) {
        match typing::init_of(fields, sd[i].name, 0) {
            None => {
                reveal(typing::missing_field);
            },
            Some(k) => {
                if 0 <= k < fields.len() {
                    staged_check_expr(s, vars, fields[k].1, Some(sd[i].ty));
                    match typing::check_expr(s, vars, fields[k].1, Some(sd[i].ty)) {
                        Ok(e) => {
                            reveal(typing::field_rule);
                            match typing::field_rule(sd[i], name, e.ty, fields[k].1.span()) {
                                Ok(_) => {
                                    staged_check_inits(
                                        s,
                                        vars,
                                        fields,
                                        sd,
                                        name,
                                        span,
                                        i + 1,
                                        acc.push(e),
                                    );
                                },
                                _ => {},
                            }
                        },
                        _ => {},
                    }
                } else {
                    reveal(typing::missing_field);
                }
            },
        }
    }
}

proof fn staged_check_arms(
    s: Site,
    vars: Vars,
    arms: Seq<AMatchArm>,
    sty: TType,
    i: int,
    acc: Seq<TArm>,
    ty: Option<TType>,
)
    ensures
        staged(typing::check_arms(s, vars, arms, sty, i, acc, ty)),
    decreases arms, arms.len() - i,
{
    if !(i < 0 || i >= arms.len()) {
        staged_check_arm(s, vars, arms[i], sty, ty);
        match typing::check_arm(s, vars, arms[i], sty, ty) {
            Ok(a) => {
                match ty {
                    Some(t) => {
                        if t == a.body.ty {
                            staged_check_arms(s, vars, arms, sty, i + 1, acc.push(a), ty);
                        } else {
                            reveal(typing::arms_differ);
                        }
                    },
                    None => {
                        staged_check_arms(s, vars, arms, sty, i + 1, acc.push(a), Some(a.body.ty));
                    },
                }
            },
            _ => {},
        }
    }
}

proof fn staged_check_arm(s: Site, vars: Vars, arm: AMatchArm, sty: TType, ty: Option<TType>)
    ensures
        staged(typing::check_arm(s, vars, arm, sty, ty)),
    decreases arm, 0int,
{
    staged_check_pattern(s, arm.pattern, sty, vars);
    let p = typing::check_pattern(s, arm.pattern, sty, vars);
    match arm.guard {
        Some(g) => {
            staged_check_expr(s, typing::vars_of(p), g, Some(TType::Bool));
        },
        _ => {},
    }
    staged_check_expr(s, typing::vars_of(p), arm.body, ty);
    reveal(typing::arm_flow);
    reveal(typing::expect_type);
}

proof fn staged_check_else(s: Site, vars: Vars, b: AElseBranch, expected: Option<TType>)
    ensures
        staged(typing::check_else(s, vars, b, expected)),
    decreases b, 0int,
{
    match b {
        AElseBranch::Block(b) => {
            staged_check_block(s, vars, b, expected);
        },
        AElseBranch::If(e) => {
            staged_check_expr(s, vars, e, expected);
            reveal(typing::else_flow);
        },
    }
}

#[verifier::rlimit(60)]
proof fn staged_check_expr(s: Site, vars: Vars, e: AExpr, expected: Option<TType>)
    ensures
        staged(typing::check_expr(s, vars, e, expected)),
    decreases e, 0int,
{
    match e {
        AExpr::Int { value, span } => {
            reveal(typing::int_rule);
        },
        AExpr::Ident { name, span } => {
            reveal(typing::global_rule);
            reveal(typing::ident_rule);
        },
        AExpr::Path { segments, span } => {
            reveal(typing::global_rule);
        },
        AExpr::Unary { op, expr, span } => {
            staged_check_expr(s, vars, *expr, expected);
            reveal(typing::unary_flow);
            reveal(typing::unary_rule);
        },
        AExpr::Binary { op, lhs, rhs, span } => {
            if typing::lower_op(op).logical() {
                staged_check_expr(s, vars, *lhs, Some(TType::Bool));
                staged_check_expr(s, vars, *rhs, Some(TType::Bool));
                reveal(typing::expect_type);
                reveal(typing::logical_flow);
            } else {
                if op is Shl || op is Shr {
                    staged_check_expr(s, vars, *lhs, expected);
                    let l = typing::check_expr(s, vars, *lhs, expected);
                    staged_check_expr(
                        s,
                        vars,
                        *rhs,
                        typing::amount_context(*rhs, typing::type_of(l)),
                    );
                    reveal(typing::op_error);
                    reveal(typing::shift_flow);
                } else {
                    staged_check_expr(s, vars, *lhs, None);
                    staged_check_expr(s, vars, *rhs, None);
                    reveal(typing::operand_type);
                    let target = typing::operand_type(
                        typing::wanted_type(op, expected),
                        *lhs,
                        *rhs,
                        typing::check_expr(s, vars, *lhs, None),
                        typing::check_expr(s, vars, *rhs, None),
                    );
                    staged_check_expr(s, vars, *lhs, typing::context_of(target));
                    staged_check_expr(s, vars, *rhs, typing::context_of(target));
                    reveal(typing::op_error);
                    reveal(typing::operator_flow);
                    reveal(typing::operator_rule);
                }
            }
        },
        AExpr::Call { callee, args, span } => {
            reveal(typing::callee_of);
            reveal(typing::callee_rule);
            let c = typing::callee_of(s, *callee, args.len(), span);
            if args.len() == 1 {
                staged_check_expr(s, vars, args[0], None);
            }
            staged_check_args(
                s,
                vars,
                args,
                typing::param_types_of(c),
                typing::argument_kind(c),
                0,
                Seq::empty(),
            );
            reveal(typing::call_flow);
            reveal(typing::print_rule);
        },
        AExpr::Field { base, field, span } => {
            staged_check_expr(s, vars, *base, None);
            reveal(typing::field_flow);
            reveal(typing::field_type);
        },
        AExpr::TupleField { base, index, span } => {
            staged_check_expr(s, vars, *base, None);
            reveal(typing::part_flow);
            reveal(typing::part_type);
        },
        AExpr::Index { base, index, span } => {
            staged_check_expr(s, vars, *base, None);
            staged_check_expr(s, vars, *index, None);
            reveal(typing::element_type);
            reveal(typing::index_flow);
            reveal(typing::index_type);
        },
        AExpr::Array { elems, span } => {
            staged_check_elems(s, vars, elems, 0, Seq::empty(), typing::array_context(expected));
            reveal(typing::array_flow);
            reveal(typing::empty_array);
        },
        AExpr::Tuple { elems, span } => {
            staged_check_parts(s, vars, elems, expected, 0, Seq::empty());
            reveal(typing::tuple_flow);
        },
        AExpr::StructLit { path, fields, span } => {
            reveal(typing::struct_of);
            reveal(typing::twice_field);
            let sd = typing::struct_of(s, path, fields, span);
            staged_check_inits(
                s,
                vars,
                fields,
                typing::fields_of_struct(sd),
                typing::path_text(path),
                span,
                0,
                Seq::empty(),
            );
            reveal(typing::no_such_field);
            reveal(typing::struct_flow);
            reveal(typing::struct_rule);
        },
        AExpr::If { cond, then_branch, else_branch, span } => {
            staged_check_expr(s, vars, *cond, Some(TType::Bool));
            staged_check_block(
                s,
                vars,
                then_branch,
                if else_branch is Some { expected } else { Some(TType::Unit) },
            );
            match else_branch {
                Some(eb) => {
                    staged_check_else(s, vars, *eb, expected);
                },
                _ => {},
            }
            reveal(typing::branches_rule);
            reveal(typing::expect_type);
            reveal(typing::if_flow);
            reveal(typing::lone_if_rule);
        },
        AExpr::Match { scrutinee, arms, span } => {
            staged_check_expr(s, vars, *scrutinee, None);
            let sc = typing::check_expr(s, vars, *scrutinee, None);
            staged_check_arms(s, vars, arms, typing::type_of(sc), 0, Seq::empty(), expected);
            reveal(typing::exhaustive);
            reveal(typing::match_flow);
        },
        AExpr::Block(b) => {
            staged_check_block(s, vars, b, expected);
            reveal(typing::block_flow);
        },
        _ => {},
    }
}

proof fn staged_check_place(s: Site, vars: Vars, e: AExpr)
    ensures
        staged(typing::check_place(s, vars, e)),
    decreases e, 1int,
{
    match e {
        AExpr::Ident { name, span } => {
            reveal(typing::place_rule);
        },
        AExpr::Field { base, field, span } => {
            staged_check_place(s, vars, *base);
            reveal(typing::field_place);
            reveal(typing::field_type);
        },
        AExpr::TupleField { base, index, span } => {
            staged_check_place(s, vars, *base);
            reveal(typing::part_place);
            reveal(typing::part_type);
        },
        AExpr::Index { base, index, span } => {
            staged_check_place(s, vars, *base);
            staged_check_expr(s, vars, *index, None);
            reveal(typing::element_type);
            reveal(typing::index_place);
            reveal(typing::index_type);
        },
        _ => {},
    }
}

#[verifier::rlimit(60)]
proof fn staged_check_stmt(s: Site, vars: Vars, st: AStmt)
    ensures
        staged(typing::check_stmt(s, vars, st)),
    decreases st, 0int,
{
    match st {
        AStmt::Let { name, mutable, ty, init, span } => {
            reveal(typing::annotated);
            match ty {
                Some(t) => staged_resolve(s.defs, s.module, t, span),
                None => {},
            }
            let want = typing::annotated(s, ty, span);
            staged_check_expr(s, vars, init, typing::annotation_context(want));
            reveal(typing::let_flow);
            reveal(typing::let_rule);
        },
        AStmt::Assign { target, value, span } => {
            staged_check_place(s, vars, target);
            let place = typing::check_place(s, vars, target);
            staged_check_expr(s, vars, value, Some(typing::place_type(place)));
            reveal(typing::assign_flow);
            reveal(typing::assign_rule);
        },
        AStmt::While { cond, body, span } => {
            staged_check_expr(s, vars, cond, Some(TType::Bool));
            staged_check_block(s, vars, body, None);
            reveal(typing::expect_type);
            reveal(typing::while_flow);
        },
        AStmt::For { var, lo, hi, body, span } => {
            staged_check_expr(s, vars, lo, None);
            let l = typing::check_expr(s, vars, lo, None);
            staged_check_expr(s, vars, hi, Some(typing::type_of(l)));
            staged_check_block(
                s,
                vars.push((var, Var { ty: typing::type_of(l), mutable: false })),
                body,
                None,
            );
            reveal(typing::bound_rule);
            reveal(typing::bounds_rule);
            reveal(typing::for_flow);
        },
        AStmt::Return { value, span } => {
            match value {
                Some(e) => {
                    staged_check_expr(s, vars, e, Some(s.ret));
                },
                _ => {},
            }
            reveal(typing::return_flow);
            reveal(typing::return_rule);
        },
        AStmt::Expr(e) => {
            staged_check_expr(s, vars, e, None);
            reveal(typing::effect_flow);
        },
    }
}

proof fn staged_check_stmts(s: Site, vars: Vars, sts: Seq<AStmt>, i: int, acc: Seq<TStmt>)
    ensures
        staged(typing::check_stmts(s, vars, sts, i, acc)),
    decreases sts, sts.len() - i,
{
    if !(i < 0 || i >= sts.len()) {
        staged_check_stmt(s, vars, sts[i]);
        match typing::check_stmt(s, vars, sts[i]) {
            Ok((t, vars1)) => {
                staged_check_stmts(s, vars1, sts, i + 1, acc.push(t));
            },
            _ => {},
        }
    }
}

proof fn staged_check_block(s: Site, vars: Vars, b: ABlock, expected: Option<TType>)
    ensures
        staged(typing::check_block(s, vars, b, expected)),
    decreases b, 0int,
{
    staged_check_stmts(s, vars, b.stmts, 0, Seq::empty());
    let stmts = typing::check_stmts(s, vars, b.stmts, 0, Seq::empty());
    match b.tail {
        Some(e) => {
            staged_check_expr(s, typing::vars_of(stmts), *e, expected);
        },
        _ => {},
    }
    reveal(typing::tail_flow);
}

// ---- items --------------------------------------------------------------

pub open spec fn all_of(ds: Seq<Diag>, st: Stage) -> bool {
    forall|i: int| 0 <= i < ds.len() ==> (#[trigger] ds[i]).stage == st
}

proof fn staged_declare_all(g: Gathered, its: Seq<Placed>, i: int)
    requires
        all_of(g.diags, Stage::Type),
    ensures
        all_of(program::declare_all(g, its, i).diags, Stage::Type),
    decreases its.len() - i,
{
    if 0 <= i < its.len() {
        reveal(program::declare);
        staged_declare_all(program::declare(g, its[i]), its, i + 1);
    }
}

proof fn staged_struct_fields(
    defs: Defs,
    m: Text,
    full: Text,
    fs: Seq<AFieldDef>,
    i: int,
    acc: Seq<TField>,
    ds: Seq<Diag>,
)
    requires
        all_of(ds, Stage::Type),
    ensures
        all_of(program::struct_fields(defs, m, full, fs, i, acc, ds).1, Stage::Type),
    decreases fs.len() - i,
{
    if 0 <= i < fs.len() {
        let f = fs[i];
        let ds1 = if program::named_before(fs, f.name, i) {
            ds.push(
                typing::type_error(
                    "duplicate field `"@ + f.name + "` in struct `"@ + full + "`"@,
                    f.span,
                ),
            )
        } else {
            ds
        };
        staged_resolve(defs, m, f.ty, f.span);
        match typing::resolve(defs, m, f.ty, f.span) {
            Ok(ty) => staged_struct_fields(
                defs,
                m,
                full,
                fs,
                i + 1,
                acc.push(TField { name: f.name, ty }),
                ds1,
            ),
            Err(d) => staged_struct_fields(defs, m, full, fs, i + 1, acc, ds1.push(d)),
        }
    }
}

proof fn staged_payload(
    defs: Defs,
    m: Text,
    ts: Seq<ATypeExpr>,
    span: Span,
    i: int,
    acc: Seq<TType>,
    ds: Seq<Diag>,
)
    requires
        all_of(ds, Stage::Type),
    ensures
        all_of(program::payload(defs, m, ts, span, i, acc, ds).1, Stage::Type),
    decreases ts.len() - i,
{
    if 0 <= i < ts.len() {
        staged_resolve(defs, m, ts[i], span);
        match typing::resolve(defs, m, ts[i], span) {
            Ok(t) => staged_payload(defs, m, ts, span, i + 1, acc.push(t), ds),
            Err(d) => staged_payload(defs, m, ts, span, i + 1, acc, ds.push(d)),
        }
    }
}

proof fn staged_enum_variants(
    g: Gathered,
    m: Text,
    full: Text,
    vs: Seq<AVariantDef>,
    i: int,
    acc: Seq<TVariant>,
)
    requires
        all_of(g.diags, Stage::Type),
    ensures
        all_of(program::enum_variants(g, m, full, vs, i, acc).0.diags, Stage::Type),
    decreases vs.len() - i,
{
    if 0 <= i < vs.len() {
        reveal(program::add_variant);
        let v = vs[i];
        let own = typing::qualify(m, v.name);
        let ds = match name_map::find(g.defs.variants, own) {
            Some((prev, _)) => g.diags.push(
                typing::type_error(
                    "variant name `"@ + v.name + "` already used (in enum `"@ + prev
                        + "`); variant names must be unique"@,
                    v.span,
                ),
            ),
            None => g.diags,
        };
        let (g1, x) = program::add_variant(g, m, full, v, i as usize);
        staged_payload(g1.defs, m, v.fields, v.span, 0, Seq::empty(), ds);
        staged_enum_variants(g1, m, full, vs, i + 1, acc.push(x));
    }
}

proof fn staged_fill_all(g: Gathered, its: Seq<Placed>, i: int)
    requires
        all_of(g.diags, Stage::Type),
    ensures
        all_of(program::fill_all(g, its, i).diags, Stage::Type),
    decreases its.len() - i,
{
    if 0 <= i < its.len() {
        reveal(program::fill);
        match its[i].1 {
            AItem::Struct(s) => {
                let full = typing::qualify(its[i].0, s.name);
                staged_struct_fields(g.defs, its[i].0, full, s.fields, 0, Seq::empty(), g.diags);
            },
            AItem::Enum(e) => {
                let full = typing::qualify(its[i].0, e.name);
                staged_enum_variants(g, its[i].0, full, e.variants, 0, Seq::empty());
            },
            _ => {},
        }
        staged_fill_all(program::fill(g, its[i]), its, i + 1);
    }
}

proof fn staged_announce_all(g: Gathered, its: Seq<Placed>, i: int)
    requires
        all_of(g.diags, Stage::Type),
    ensures
        all_of(program::announce_all(g, its, i).diags, Stage::Type),
    decreases its.len() - i,
{
    if 0 <= i < its.len() {
        reveal(program::announce);
        staged_announce_all(program::announce(g, its[i]), its, i + 1);
    }
}

proof fn staged_check_params(
    defs: Defs,
    m: Text,
    ps: Seq<AParam>,
    i: int,
    acc: Seq<TParam>,
)
    ensures
        staged(program::check_params(defs, m, ps, i, acc)),
    decreases ps.len() - i,
{
    if 0 <= i < ps.len() {
        staged_resolve(defs, m, ps[i].ty, ps[i].span);
        match typing::resolve(defs, m, ps[i].ty, ps[i].span) {
            Ok(ty) => staged_check_params(
                defs,
                m,
                ps,
                i + 1,
                acc.push(TParam { name: ps[i].name, ty }),
            ),
            Err(_) => {},
        }
    }
}

proof fn staged_check_func(defs: Defs, m: Text, f: AFunc)
    ensures
        staged(program::check_func(defs, m, f)),
{
    reveal(program::check_func);
    staged_check_params(defs, m, f.params, 0, Seq::empty());
    match program::check_params(defs, m, f.params, 0, Seq::empty()) {
        Ok(params) => {
            match f.ret {
                Some(t) => staged_resolve(defs, m, t, f.span),
                None => {},
            }
            match program::return_type(defs, m, f.ret, f.span) {
                Ok(ret) => staged_check_block(
                    Site { defs, module: m, ret },
                    program::param_vars(params),
                    f.body,
                    Some(ret),
                ),
                Err(_) => {},
            }
        },
        Err(_) => {},
    }
}

proof fn staged_check_const(defs: Defs, m: Text, c: AConstDef)
    ensures
        staged(program::check_const(defs, m, c)),
{
    reveal(program::check_const);
    reveal(typing::expect_type);
    staged_resolve(defs, m, c.ty, c.span);
    match typing::resolve(defs, m, c.ty, c.span) {
        Ok(ty) => staged_check_expr(
            Site { defs, module: m, ret: TType::Unit },
            Seq::empty(),
            c.init,
            Some(ty),
        ),
        Err(_) => {},
    }
}

proof fn staged_build_all(defs: Defs, b: Built, its: Seq<Placed>, i: int)
    requires
        all_of(b.diags, Stage::Type),
    ensures
        all_of(program::build_all(defs, b, its, i).diags, Stage::Type),
    decreases its.len() - i,
{
    if 0 <= i < its.len() {
        reveal(program::build);
        match its[i].1 {
            AItem::Func(f) => staged_check_func(defs, its[i].0, f),
            AItem::Const(c) => staged_check_const(defs, its[i].0, c),
            _ => {},
        }
        staged_build_all(defs, program::build(defs, b, its[i]), its, i + 1);
    }
}

/// A program that is not accepted gets at least one diagnostic, and all of them are
/// of the type checker.
pub proof fn law_rejected_programs_are_diagnosed(p: AProgram)
    ensures
        program::check_program(p) matches Err(ds) ==> ds.len() > 0 && all_of(ds, Stage::Type),
{
    let its = program::flatten(Seq::empty(), p.items, 0);
    let g0 = Gathered { defs: Defs::none(), diags: Seq::empty() };
    let g1 = program::declare_all(g0, its, 0);
    let g2 = program::lengthen(program::fill_all(g1, its, 0));
    let g = program::announce_all(g2, its, 0);
    staged_declare_all(g0, its, 0);
    staged_fill_all(g1, its, 0);
    staged_announce_all(g2, its, 0);
    staged_build_all(
        g.defs,
        Built { funcs: Seq::empty(), consts: Seq::empty(), diags: Seq::empty() },
        its,
        0,
    );
}

// ---- compiling ----------------------------------------------------------

proof fn lemma_lex_stage(b: Seq<u8>, i: int, acc: Seq<KToken>)
    ensures
        lexer::lex_from(b, i, acc) matches Err(d) ==> d.stage is Lex,
    decreases b.len() - i,
{
    if 0 <= i < b.len() {
        if lexer::is_space(b[i]) {
            lemma_lex_stage(b, i + 1, acc);
        } else if b[i] == 0x2f && i + 1 < b.len() && b[i + 1] == 0x2f {
            let j = lexer::comment_end(b, i);
            if i < j <= b.len() {
                lemma_lex_stage(b, j, acc);
            }
        } else if b[i] == 0x2f && i + 1 < b.len() && b[i + 1] == 0x2a {
            match lexer::block_end(b, i + 2) {
                Some(j) => if i < j <= b.len() {
                    lemma_lex_stage(b, j, acc);
                },
                None => {},
            }
        } else if lexer::is_digit(b[i]) {
            match lexer::number_at(b, i) {
                Ok((v, j)) => if i < j <= b.len() {
                    let t = lexer::tok_span(crate::token::KTok::Int(v), i, j);
                    lemma_lex_stage(b, j, acc.push(t));
                },
                Err(_) => {},
            }
        } else if lexer::is_gap(b[i]) || lexer::is_letter(b[i]) {
            let j = lexer::word_end(b, i + 1);
            if i < j <= b.len() {
                let t = lexer::tok_span(
                    lexer::word_token(lexer::word_text(b, i, j)),
                    i,
                    j,
                );
                lemma_lex_stage(b, j, acc.push(t));
            }
        } else {
            match lexer::operator_at(b, i) {
                Some((t, n)) => if n > 0 {
                    lemma_lex_stage(b, i + n, acc.push(lexer::tok_span(t, i, i + n)));
                },
                None => {},
            }
        }
    }
}

/// A source that does not compile gets at least one diagnostic, and all of them are of
/// the stage that failed: the lexer, the parser or the type checker.
pub proof fn law_failures_are_of_one_stage(src: Text)
    requires
        vstd::utf8::encode_utf8(src).len() <= usize::MAX,
    ensures
        crate::compiled(src) matches Err(ds) ==> ds.len() > 0 && all_of(
            ds,
            if lexer::tokens_of_text(src) is Err {
                Stage::Lex
            } else if grammar::program(lexer::tokens_of_text(src)->Ok_0) is Err {
                Stage::Parse
            } else {
                Stage::Type
            },
        ),
{
    lemma_lex_stage(vstd::utf8::encode_utf8(src), 0, Seq::empty());
    match lexer::tokens_of_text(src) {
        Ok(ts) => {
            blame::law_parse_errors_lie_in_the_source(src);
            match grammar::program(ts) {
                Ok(p) => law_rejected_programs_are_diagnosed(p),
                Err(_) => {},
            }
        },
        Err(_) => {},
    }
}

} // verus!
