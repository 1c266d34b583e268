//! # Typechecker
//!
//! Lowers the untyped syntax tree into the typed core IR, exactly as
//! [`crate::typing`] states: every name is resolved, every integer width is
//! committed, and every `match` is exhaustive.
//!
//! Every failure is a located [`Diagnostic`]. Each top-level item is checked
//! independently, so an error in one function does not hide errors in others.

use crate::ast::{self, AExpr, APattern};
use crate::context::{path_text, qualify, resolve, type_error, Context, Local, Locals, Spot};
use crate::diagnostic::{Diag, Diagnostic};
use crate::env::{self, find_slot};
use crate::gather::{self, context_of, flatten, gather, return_type};
use crate::ir::{self, Arm, Block, ConstDef, EnumDef, Expr, ExprKind, Field, Func, Module, Param, Pattern, Place, Stmt, StructDef, TArm, TBlock, TExpr, TModule, TParam, TPattern, TPlace, TStmt, TType, Type};
use crate::model;
use crate::name_map::NameMap;
use crate::program::{self, Built};
use crate::rules::{self, amount_fits, arg_rule, arms_differ, array_context, assign_rule, binary_expr, binds_within, bound_rule, bounds_rule, branches_rule, callee_path, callee_rule, check_exhaustive, element_type, elements_differ, empty_array, expect_type, field_rule, field_type, global_rule, hint, i32_type, ident_rule, index_type, init_of, int_pattern, int_rule, is_int_literalish, let_rule, lone_if_rule, lower_binop, missing_field, op_type_err, operator_rule, part_type, print_rule, return_rule, said, struct_of, struct_rule, tail_block, tuple_context, tuple_expr, tuple_pattern, unary_rule, variant_pattern, Target};
use crate::scan::{scan_expr, Seek};
use crate::span::Span;
use crate::text::{self, cat3, cat7, Text};
use crate::typing::{self, Var, Vars};
use vstd::prelude::*;

verus! {

broadcast use {
    ir::group_model,
    ir::group_built,
    ast::group_model,
    ast::group_built,
    text::group_texts,
    env::group_locals,
};

/// The variables `b` are those of `a` and further ones.
pub open spec fn kept(a: Vars, b: Vars) -> bool {
    a.len() <= b.len() && b.subrange(0, a.len() as int) == a
}

proof fn lemma_kept_trans(a: Vars, b: Vars, c: Vars)
    requires
        kept(a, b),
        kept(b, c),
    ensures
        kept(a, c),
{
    assert(c.subrange(0, a.len() as int) =~= b.subrange(0, a.len() as int));
}

proof fn lemma_kept_push(a: Vars, x: (Text, Var))
    ensures
        kept(a, a.push(x)),
        kept(a, a),
{
    assert(a.push(x).subrange(0, a.len() as int) =~= a);
    assert(a.subrange(0, a.len() as int) =~= a);
}

pub open spec fn placed(r: Result<Place, Diagnostic>) -> Result<TPlace, Diag> {
    match r {
        Ok(e) => Ok(e@),
        Err(d) => Err(d@),
    }
}

pub open spec fn said_all(r: Result<Vec<Expr>, Diagnostic>) -> Result<Seq<TExpr>, Diag> {
    match r {
        Ok(es) => Ok(ir::exprs_of(es@)),
        Err(d) => Err(d@),
    }
}

pub open spec fn said_block(r: Result<Block, Diagnostic>) -> Result<TBlock, Diag> {
    match r {
        Ok(b) => Ok(b@),
        Err(d) => Err(d@),
    }
}

pub open spec fn said_arm(r: Result<Arm, Diagnostic>) -> Result<TArm, Diag> {
    match r {
        Ok(b) => Ok(b@),
        Err(d) => Err(d@),
    }
}

fn cut_vars(vars: &mut Locals, n: usize)
    requires
        n <= old(vars).len(),
    ensures
        env::locals(final(vars)@) == env::locals(old(vars)@).subrange(0, n as int),
{
    vars.truncate(n);
}

/// Copies of the variables from position `n` on.
fn vars_from(vars: &Locals, n: usize) -> (r: Locals)
    requires
        n <= vars.len(),
    ensures
        env::locals(r@) == env::locals(vars@).subrange(n as int, vars.len() as int),
{
    let mut out: Locals = Vec::new();
    let mut i: usize = n;
    while i < vars.len()
        invariant
            n <= i <= vars.len(),
            env::locals(out@) == env::locals(vars@).subrange(n as int, i as int),
        decreases vars.len() - i,
    {
        assert(env::locals(vars@)[i as int] == (vars[i as int].0@, vars[i as int].1@));
        out.push(
            (vars[i].0.clone(), Local { ty: vars[i].1.ty.dup(), mutable: vars[i].1.mutable }),
        );
        i += 1;
        assert(env::locals(out@) =~= env::locals(vars@).subrange(n as int, i as int));
    }
    out
}

// ---- patterns -----------------------------------------------------------

fn check_pattern(s: &Spot, p: &ast::Pattern, ty: &Type, vars: &mut Locals) -> (r: Result<
    Pattern,
    Diagnostic,
>)
    ensures
        match r {
            Ok(x) => typing::check_pattern(s@, p@, ty@, env::locals(old(vars)@)) == Ok::<
                (TPattern, Vars),
                Diag,
            >((x@, env::locals(final(vars)@))) && kept(
                env::locals(old(vars)@),
                env::locals(final(vars)@),
            ),
            Err(d) => typing::check_pattern(s@, p@, ty@, env::locals(old(vars)@)) == Err::<
                (TPattern, Vars),
                Diag,
            >(d@),
        },
    decreases p, 0int,
{
    let ghost v0 = env::locals(vars@);
    proof {
        ir::lemma_plain_nodes();
        lemma_kept_push(v0, arbitrary());
    }
    match p {
        ast::Pattern::Wildcard { span } => {
            assert(*p == ast::Pattern::Wildcard { span: *span });
            Ok(Pattern::Wildcard)
        },
        ast::Pattern::Binding { name, span } => {
            assert(*p == ast::Pattern::Binding { name: *name, span: *span });
            vars.push((name.clone(), Local { ty: ty.dup(), mutable: false }));
            proof {
                lemma_kept_push(v0, (name@, Var { ty: ty@, mutable: false }));
            }
            Ok(Pattern::Binding { name: name.clone(), ty: ty.dup() })
        },
        ast::Pattern::Int { value, span } => {
            assert(*p == ast::Pattern::Int { value: *value, span: *span });
            int_pattern(*value, ty, *span, "integer")?;
            Ok(Pattern::Int(*value))
        },
        ast::Pattern::Bool { value, span } => {
            assert(*p == ast::Pattern::Bool { value: *value, span: *span });
            if ty.same(&Type::Bool) {
                Ok(Pattern::Bool(*value))
            } else {
                let t = ty.to_text();
                Err(
                    type_error(
                        cat3("boolean pattern cannot match a value of type `", t.as_str(), "`"),
                        *span,
                    ),
                )
            }
        },
        ast::Pattern::Range { lo, hi, inclusive, span } => {
            assert(*p == ast::Pattern::Range {
                lo: *lo,
                hi: *hi,
                inclusive: *inclusive,
                span: *span,
            });
            int_pattern(*lo, ty, *span, "range")?;
            int_pattern(*hi, ty, *span, "range")?;
            Ok(Pattern::Range { lo: *lo, hi: *hi, inclusive: *inclusive })
        },
        ast::Pattern::Variant { path, subpatterns, span } => {
            assert(*p == ast::Pattern::Variant {
                path: *path,
                subpatterns: *subpatterns,
                span: *span,
            });
            let (enum_name, tag, fields) = variant_pattern(s, path, ty, subpatterns.len(), *span)?;
            let subs = check_patterns(s, subpatterns, fields, vars)?;
            Ok(Pattern::Variant { enum_name, tag, subpatterns: subs })
        },
        ast::Pattern::Tuple { elems, span } => {
            assert(*p == ast::Pattern::Tuple { elems: *elems, span: *span });
            if elems.len() == 0 && ty.same(&Type::Unit) {
                return Ok(Pattern::Wildcard);
            }
            if elems.len() == 1 {
                assert(ast::patterns_of(elems@)[0] == elems[0]@);
                return check_pattern(s, &elems[0], ty, vars);
            }
            let ts = tuple_pattern(ty, elems.len(), *span)?;
            let subs = check_patterns(s, elems, ts, vars)?;
            Ok(Pattern::Tuple(subs))
        },
        ast::Pattern::Or { alts, span } => {
            assert(*p == ast::Pattern::Or { alts: *alts, span: *span });
            check_alts(s, alts, ty, *span, vars)
        },
    }
}

fn check_patterns(s: &Spot, ps: &Vec<ast::Pattern>, tys: &Vec<Type>, vars: &mut Locals) -> (r:
    Result<Vec<Pattern>, Diagnostic>)
    ensures
        match r {
            Ok(x) => typing::check_patterns(
                s@,
                ast::patterns_of(ps@),
                ir::types_of(tys@),
                0,
                Seq::empty(),
                env::locals(old(vars)@),
            ) == Ok::<(Seq<TPattern>, Vars), Diag>((ir::patterns_of(x@), env::locals(final(vars)@)))
                && kept(env::locals(old(vars)@), env::locals(final(vars)@)),
            Err(d) => typing::check_patterns(
                s@,
                ast::patterns_of(ps@),
                ir::types_of(tys@),
                0,
                Seq::empty(),
                env::locals(old(vars)@),
            ) == Err::<(Seq<TPattern>, Vars), Diag>(d@),
        },
    decreases ps, 1int,
{
    let ghost v0 = env::locals(vars@);
    let ghost mps = ast::patterns_of(ps@);
    let ghost mts = ir::types_of(tys@);
    proof {
        lemma_kept_push(v0, arbitrary());
    }
    let mut acc: Vec<Pattern> = Vec::new();
    assert(ir::patterns_of(acc@) =~= Seq::<TPattern>::empty());
    let mut i: usize = 0;
    while i < ps.len() && i < tys.len()
        invariant
            i <= ps.len(),
            i <= tys.len(),
            v0 == env::locals(old(vars)@),
            mps == ast::patterns_of(ps@),
            mts == ir::types_of(tys@),
            kept(v0, env::locals(vars@)),
            typing::check_patterns(s@, mps, mts, 0, Seq::empty(), v0) == typing::check_patterns(
                s@,
                mps,
                mts,
                i as int,
                ir::patterns_of(acc@),
                env::locals(vars@),
            ),
        decreases ps.len() - i,
    {
        assert(mps[i as int] == ps[i as int]@ && mts[i as int] == tys[i as int]@);
        let ghost before = ir::patterns_of(acc@);
        let ghost v1 = env::locals(vars@);
        let x = check_pattern(s, &ps[i], &tys[i], vars)?;
        proof {
            lemma_kept_trans(v0, v1, env::locals(vars@));
        }
        let ghost added = x@;
        acc.push(x);
        assert(ir::patterns_of(acc@) =~= before.push(added));
        i += 1;
    }
    Ok(acc)
}

fn check_alts(s: &Spot, alts: &Vec<ast::Pattern>, ty: &Type, span: Span, vars: &mut Locals) -> (r:
    Result<Pattern, Diagnostic>)
    ensures
        match r {
            Ok(x) => typing::check_pattern(
                s@,
                APattern::Or { alts: ast::patterns_of(alts@), span },
                ty@,
                env::locals(old(vars)@),
            ) == Ok::<(TPattern, Vars), Diag>((x@, env::locals(final(vars)@))) && kept(
                env::locals(old(vars)@),
                env::locals(final(vars)@),
            ),
            Err(d) => typing::check_pattern(
                s@,
                APattern::Or { alts: ast::patterns_of(alts@), span },
                ty@,
                env::locals(old(vars)@),
            ) == Err::<(TPattern, Vars), Diag>(d@),
        },
    decreases alts, 1int,
{
    let ghost v0 = env::locals(vars@);
    let ghost mps = ast::patterns_of(alts@);
    let n = vars.len();
    if alts.len() == 0 {
        return Err(type_error("an or-pattern needs an alternative".to_string(), span));
    }
    assert(mps[0] == alts[0]@);
    let first = check_pattern(s, &alts[0], ty, vars)?;
    let ghost v1 = env::locals(vars@);
    let ghost mfirst = first@;
    let bound = vars_from(vars, n);
    let ghost b = env::locals(bound@);
    let mut acc: Vec<Pattern> = Vec::new();
    acc.push(first);
    assert(ir::patterns_of(acc@) =~= seq![mfirst]);
    cut_vars(vars, n);
    let mut i: usize = 1;
    while i < alts.len()
        invariant
            1 <= i <= alts.len(),
            n == v0.len(),
            mps == ast::patterns_of(alts@),
            env::locals(vars@) == v0,
            b == env::locals(bound@),
            typing::check_alts(s@, mps, ty@, 1, seq![mfirst], v0, b, span) == typing::check_alts(
                s@,
                mps,
                ty@,
                i as int,
                ir::patterns_of(acc@),
                v0,
                b,
                span,
            ),
            forall|d: Diag|
                typing::check_alts(s@, mps, ty@, 1, seq![mfirst], v0, b, span) == Err::<
                    Seq<TPattern>,
                    Diag,
                >(d) ==> typing::check_pattern(
                    s@,
                    APattern::Or { alts: ast::patterns_of(alts@), span },
                    ty@,
                    env::locals(old(vars)@),
                ) == Err::<(TPattern, Vars), Diag>(d),
        decreases alts.len() - i,
    {
        assert(mps[i as int] == alts[i as int]@);
        let ghost before = ir::patterns_of(acc@);
        let x = check_pattern(s, &alts[i], ty, vars)?;
        let mine = vars_from(vars, n);
        if !(binds_within(&bound, &mine) && binds_within(&mine, &bound)) {
            return Err(
                type_error(
                    "or-pattern alternatives must bind the same names with the same types".to_string(),
                    span,
                ),
            );
        }
        let ghost added = x@;
        acc.push(x);
        assert(ir::patterns_of(acc@) =~= before.push(added));
        cut_vars(vars, n);
        i += 1;
    }
    let mut more = bound;
    vars.append(&mut more);
    assert(v0 + v1.subrange(n as int, v1.len() as int) =~= v1);
    Ok(Pattern::Or(acc))
}

// ---- expressions --------------------------------------------------------

fn check_args(
    s: &Spot,
    vars: &mut Locals,
    args: &Vec<ast::Expr>,
    tys: &Vec<Type>,
    what: &str,
) -> (r: Result<Vec<Expr>, Diagnostic>)
    ensures
        said_all(r) == typing::check_args(
            s@,
            env::locals(old(vars)@),
            ast::exprs_of(args@),
            ir::types_of(tys@),
            what@,
            0,
            Seq::empty(),
        ),
        r is Ok ==> env::locals(final(vars)@) == env::locals(old(vars)@),
    decreases args, 1int,
{
    let ghost v0 = env::locals(vars@);
    let ghost margs = ast::exprs_of(args@);
    let ghost mts = ir::types_of(tys@);
    let mut acc: Vec<Expr> = Vec::new();
    assert(ir::exprs_of(acc@) =~= Seq::<TExpr>::empty());
    let mut i: usize = 0;
    while i < args.len() && i < tys.len()
        invariant
            i <= args.len(),
            i <= tys.len(),
            v0 == env::locals(old(vars)@),
            env::locals(vars@) == v0,
            margs == ast::exprs_of(args@),
            mts == ir::types_of(tys@),
            typing::check_args(s@, v0, margs, mts, what@, 0, Seq::empty()) == typing::check_args(
                s@,
                v0,
                margs,
                mts,
                what@,
                i as int,
                ir::exprs_of(acc@),
            ),
        decreases args.len() - i,
    {
        assert(margs[i as int] == args[i as int]@ && mts[i as int] == tys[i as int]@);
        let ghost before = ir::exprs_of(acc@);
        let e = check_expr(s, vars, &args[i], Some(&tys[i]))?;
        proof {
            rules::lemma_expr_type(e);
        }
        arg_rule(&e.ty, &tys[i], what, args[i].span())?;
        let ghost added = e@;
        acc.push(e);
        assert(ir::exprs_of(acc@) =~= before.push(added));
        i += 1;
    }
    Ok(acc)
}

fn check_array(
    s: &Spot,
    vars: &mut Locals,
    elems: &Vec<ast::Expr>,
    span: Span,
    expected: Option<&Type>,
) -> (r: Result<Expr, Diagnostic>)
    ensures
        said(r) == typing::check_expr(
            s@,
            env::locals(old(vars)@),
            AExpr::Array { elems: ast::exprs_of(elems@), span },
            hint(expected),
        ),
        r is Ok ==> env::locals(final(vars)@) == env::locals(old(vars)@),
    decreases elems, 1int,
{
    reveal(typing::array_flow);
    if elems.len() == 0 {
        return empty_array(expected, span);
    }
    let ghost v0 = env::locals(vars@);
    let ghost mes = ast::exprs_of(elems@);
    let ghost whole = typing::check_expr(
        s@,
        v0,
        AExpr::Array { elems: mes, span },
        hint(expected),
    );
    let context = array_context(expected);
    let ghost c0 = text::option_view(context);
    let mut ty: Option<Type> = context;
    let mut acc: Vec<Expr> = Vec::new();
    assert(ir::exprs_of(acc@) =~= Seq::<TExpr>::empty());
    let mut i: usize = 0;
    while i < elems.len()
        invariant
            i <= elems.len(),
            v0 == env::locals(old(vars)@),
            env::locals(vars@) == v0,
            mes == ast::exprs_of(elems@),
            typing::check_elems(s@, v0, mes, 0, Seq::empty(), c0) == typing::check_elems(
                s@,
                v0,
                mes,
                i as int,
                ir::exprs_of(acc@),
                text::option_view(ty),
            ),
            typing::check_elems(s@, v0, mes, 0, Seq::empty(), c0) matches Err(d) ==> whole == Err::<
                TExpr,
                Diag,
            >(d),
            whole == typing::check_expr(
                s@,
                env::locals(old(vars)@),
                AExpr::Array { elems: ast::exprs_of(elems@), span },
                hint(expected),
            ),
        decreases elems.len() - i,
    {
        assert(mes[i as int] == elems[i as int]@);
        let ghost before = ir::exprs_of(acc@);
        let e = check_expr(s, vars, &elems[i], ty.as_ref())?;
        proof {
            rules::lemma_expr_type(e);
        }
        match &ty {
            Some(t) => {
                if !t.same(&e.ty) {
                    return Err(elements_differ(t, &e.ty, elems[i].span()));
                }
            },
            None => {
                ty = Some(e.ty.dup());
            },
        }
        let ghost added = e@;
        acc.push(e);
        assert(ir::exprs_of(acc@) =~= before.push(added));
        i += 1;
    }
    match ty {
        None => empty_array(expected, span),
        Some(t) => Ok(Expr::new(ExprKind::Array(acc), Type::Array(Box::new(t), elems.len() as u64))),
    }
}

fn check_parts(
    s: &Spot,
    vars: &mut Locals,
    elems: &Vec<ast::Expr>,
    expected: Option<&Type>,
) -> (r: Result<Vec<Expr>, Diagnostic>)
    ensures
        said_all(r) == typing::check_parts(
            s@,
            env::locals(old(vars)@),
            ast::exprs_of(elems@),
            hint(expected),
            0,
            Seq::empty(),
        ),
        r is Ok ==> env::locals(final(vars)@) == env::locals(old(vars)@),
    decreases elems, 1int,
{
    let ghost v0 = env::locals(vars@);
    let ghost mes = ast::exprs_of(elems@);
    let mut acc: Vec<Expr> = Vec::new();
    assert(ir::exprs_of(acc@) =~= Seq::<TExpr>::empty());
    let mut i: usize = 0;
    while i < elems.len()
        invariant
            i <= elems.len(),
            v0 == env::locals(old(vars)@),
            env::locals(vars@) == v0,
            mes == ast::exprs_of(elems@),
            typing::check_parts(s@, v0, mes, hint(expected), 0, Seq::empty())
                == typing::check_parts(
                s@,
                v0,
                mes,
                hint(expected),
                i as int,
                ir::exprs_of(acc@),
            ),
        decreases elems.len() - i,
    {
        assert(mes[i as int] == elems[i as int]@);
        let ghost before = ir::exprs_of(acc@);
        let e = check_expr(s, vars, &elems[i], tuple_context(expected, i, elems.len()))?;
        let ghost added = e@;
        acc.push(e);
        assert(ir::exprs_of(acc@) =~= before.push(added));
        i += 1;
    }
    Ok(acc)
}

fn check_inits(
    s: &Spot,
    vars: &mut Locals,
    fields: &Vec<(String, ast::Expr)>,
    sd: &Vec<Field>,
    name: &String,
    span: Span,
) -> (r: Result<Vec<Expr>, Diagnostic>)
    ensures
        said_all(r) == typing::check_inits(
            s@,
            env::locals(old(vars)@),
            ast::inits_of(fields@),
            ir::fields_of(sd@),
            name@,
            span,
            0,
            Seq::empty(),
        ),
        r is Ok ==> env::locals(final(vars)@) == env::locals(old(vars)@),
    decreases fields, 1int,
{
    let ghost v0 = env::locals(vars@);
    let ghost mfs = ast::inits_of(fields@);
    let ghost msd = ir::fields_of(sd@);
    let mut acc: Vec<Expr> = Vec::new();
    assert(ir::exprs_of(acc@) =~= Seq::<TExpr>::empty());
    let mut i: usize = 0;
    while i < sd.len()
        invariant
            i <= sd.len(),
            v0 == env::locals(old(vars)@),
            env::locals(vars@) == v0,
            mfs == ast::inits_of(fields@),
            msd == ir::fields_of(sd@),
            typing::check_inits(s@, v0, mfs, msd, name@, span, 0, Seq::empty())
                == typing::check_inits(
                s@,
                v0,
                mfs,
                msd,
                name@,
                span,
                i as int,
                ir::exprs_of(acc@),
            ),
        decreases sd.len() - i,
    {
        assert(msd[i as int] == sd[i as int]@);
        let ghost before = ir::exprs_of(acc@);
        match init_of(fields, &sd[i].name) {
            None => {
                return Err(missing_field(&sd[i].name, name, span));
            },
            Some(k) => {
                assert(mfs[k as int] == (fields[k as int].0@, fields[k as int].1@));
                let e = check_expr(s, vars, &fields[k].1, Some(&sd[i].ty))?;
                proof {
                    rules::lemma_expr_type(e);
                }
                field_rule(&sd[i], name, &e.ty, fields[k].1.span())?;
                let ghost added = e@;
                acc.push(e);
                assert(ir::exprs_of(acc@) =~= before.push(added));
            },
        }
        i += 1;
    }
    Ok(acc)
}

fn check_call(
    s: &Spot,
    vars: &mut Locals,
    callee: &ast::Expr,
    args: &Vec<ast::Expr>,
    span: Span,
    expected: Option<&Type>,
) -> (r: Result<Expr, Diagnostic>)
    ensures
        said(r) == typing::check_expr(
            s@,
            env::locals(old(vars)@),
            AExpr::Call { callee: Box::new(callee@), args: ast::exprs_of(args@), span },
            hint(expected),
        ),
        r is Ok ==> env::locals(final(vars)@) == env::locals(old(vars)@),
    decreases args, 2int,
{
    reveal(typing::call_flow);
    reveal(typing::callee_of);
    match callee_path(callee) {
        None => Err(
            type_error(
                "only named functions and enum variants can be called".to_string(),
                callee.span(),
            ),
        ),
        Some(segs) => match callee_rule(s, &segs, args.len(), span)? {
            Target::Print => {
                if args.len() == 1 {
                    assert(ast::exprs_of(args@)[0] == args[0]@);
                    let a = check_expr(s, vars, &args[0], None)?;
                    print_rule(a, args[0].span())
                } else {
                    Err(type_error("`print` takes exactly 1 argument".to_string(), span))
                }
            },
            Target::Variant(en, tag, tys) => {
                let vs = check_args(s, vars, args, tys, "variant payload")?;
                Ok(Expr::new(ExprKind::MakeEnum { name: en.clone(), tag, args: vs }, Type::Enum(en)))
            },
            Target::Function(full, sig) => {
                let vs = check_args(s, vars, args, &sig.params, "argument")?;
                Ok(Expr::new(ExprKind::Call { func: full, args: vs }, sig.ret.dup()))
            },
        },
    }
}

fn check_arm(
    s: &Spot,
    vars: &mut Locals,
    arm: &ast::MatchArm,
    sty: &Type,
    ty: Option<&Type>,
) -> (r: Result<Arm, Diagnostic>)
    ensures
        said_arm(r) == typing::check_arm(s@, env::locals(old(vars)@), arm@, sty@, hint(ty)),
        r is Ok ==> env::locals(final(vars)@) == env::locals(old(vars)@),
    decreases arm, 0int,
{
    reveal(typing::arm_flow);
    let n = vars.len();
    proof {
        ir::lemma_plain_nodes();
        assert(*arm == ast::MatchArm {
            pattern: arm.pattern,
            guard: arm.guard,
            body: arm.body,
            span: arm.span,
        });
    }
    let p = check_pattern(s, &arm.pattern, sty, vars)?;
    match &arm.guard {
        None => {
            let b = check_expr(s, vars, &arm.body, ty)?;
            cut_vars(vars, n);
            Ok(Arm { pattern: p, guard: None, body: b })
        },
        Some(g) => {
            let c = check_expr(s, vars, g, Some(&Type::Bool))?;
            proof {
                rules::lemma_expr_type(c);
            }
            expect_type(&c.ty, &Type::Bool, g.span(), "match guard")?;
            let b = check_expr(s, vars, &arm.body, ty)?;
            cut_vars(vars, n);
            Ok(Arm { pattern: p, guard: Some(c), body: b })
        },
    }
}

fn check_match(
    s: &Spot,
    vars: &mut Locals,
    sc: Expr,
    arms: &Vec<ast::MatchArm>,
    span: Span,
    expected: Option<&Type>,
) -> (r: Result<Expr, Diagnostic>)
    requires
        arms.len() > 0,
    ensures
        said(r) == typing::match_flow(
            s@.defs,
            Ok(sc@),
            typing::check_arms(
                s@,
                env::locals(old(vars)@),
                ast::arms_of(arms@),
                sc@.ty,
                0,
                Seq::empty(),
                hint(expected),
            ),
            arms.len() as nat,
            span,
        ),
        r is Ok ==> env::locals(final(vars)@) == env::locals(old(vars)@),
    decreases arms, 1int,
{
    reveal(typing::match_flow);
    let ghost v0 = env::locals(vars@);
    let ghost marms = ast::arms_of(arms@);
    proof {
        rules::lemma_expr_type(sc);
        ir::lemma_plain_nodes();
    }
    let ghost c0 = hint(expected);
    let mut ty: Option<Type> = match expected {
        Some(t) => Some(t.dup()),
        None => None,
    };
    assert(text::option_view(ty) == c0);
    let mut acc: Vec<Arm> = Vec::new();
    assert(ir::arms_of(acc@) =~= Seq::<TArm>::empty());
    let mut i: usize = 0;
    while i < arms.len()
        invariant
            i <= arms.len(),
            v0 == env::locals(old(vars)@),
            env::locals(vars@) == v0,
            marms == ast::arms_of(arms@),
            sc@.ty == sc.ty@,
            c0 == hint(expected),
            typing::check_arms(s@, v0, marms, sc@.ty, 0, Seq::empty(), c0) == typing::check_arms(
                s@,
                v0,
                marms,
                sc@.ty,
                i as int,
                ir::arms_of(acc@),
                text::option_view(ty),
            ),
        decreases arms.len() - i,
    {
        reveal(typing::match_flow);
        assert(marms[i as int] == arms[i as int]@);
        assert(arms[i as int] == ast::MatchArm {
            pattern: arms[i as int].pattern,
            guard: arms[i as int].guard,
            body: arms[i as int].body,
            span: arms[i as int].span,
        });
        let ghost before = ir::arms_of(acc@);
        let a = check_arm(s, vars, &arms[i], &sc.ty, ty.as_ref())?;
        proof {
            assert(a == Arm { pattern: a.pattern, guard: a.guard, body: a.body });
            rules::lemma_expr_type(a.body);
        }
        match &ty {
            Some(t) => {
                if !t.same(&a.body.ty) {
                    return Err(arms_differ(t, &a.body.ty, arms[i].span));
                }
            },
            None => {
                ty = Some(a.body.ty.dup());
            },
        }
        let ghost added = a@;
        acc.push(a);
        assert(ir::arms_of(acc@) =~= before.push(added));
        i += 1;
    }
    check_exhaustive(s.defs, &sc.ty, &acc, span)?;
    let rt = match ty {
        Some(t) => t,
        None => Type::Unit,
    };
    Ok(Expr::new(ExprKind::Match { scrutinee: Box::new(sc), arms: acc }, rt))
}

fn check_else(s: &Spot, vars: &mut Locals, b: &ast::ElseBranch, expected: Option<&Type>) -> (r:
    Result<Block, Diagnostic>)
    ensures
        said_block(r) == typing::check_else(s@, env::locals(old(vars)@), b@, hint(expected)),
        r is Ok ==> env::locals(final(vars)@) == env::locals(old(vars)@),
    decreases b, 0int,
{
    reveal(typing::else_flow);
    match b {
        ast::ElseBranch::Block(x) => {
            assert(*b == ast::ElseBranch::Block(*x));
            check_block(s, vars, x, expected)
        },
        ast::ElseBranch::If(e) => {
            assert(*b == ast::ElseBranch::If(*e));
            let t = check_expr(s, vars, e, expected)?;
            Ok(tail_block(t))
        },
    }
}

/// The expected type, where it is an integer type.
fn only_integer(expected: Option<&Type>) -> (r: Option<Type>)
    ensures
        text::option_view(r) == typing::only_integer(hint(expected)),
{
    match expected {
        Some(t) => if t.is_integer() {
            Some(t.dup())
        } else {
            None
        },
        None => None,
    }
}

fn check_binary(
    s: &Spot,
    vars: &mut Locals,
    e: &ast::Expr,
    expected: Option<&Type>,
) -> (r: Result<Expr, Diagnostic>)
    requires
        e@ is Binary,
    ensures
        said(r) == typing::check_expr(s@, env::locals(old(vars)@), e@, hint(expected)),
        r is Ok ==> env::locals(final(vars)@) == env::locals(old(vars)@),
    decreases e, 1int,
{
    reveal(typing::logical_flow);
    reveal(typing::shift_flow);
    reveal(typing::operator_flow);
    reveal(typing::operand_type);
    proof {
        ir::lemma_plain_nodes();
    }
    match e {
        ast::Expr::Binary { op, lhs, rhs, span } => {
            assert(*e == ast::Expr::Binary { op: *op, lhs: *lhs, rhs: *rhs, span: *span });
            let irop = lower_binop(*op);
            if irop.is_logical() {
                let l = check_expr(s, vars, lhs, Some(&Type::Bool))?;
                proof {
                    rules::lemma_expr_type(l);
                }
                expect_type(&l.ty, &Type::Bool, lhs.span(), "operand of `&&`/`||`")?;
                let r = check_expr(s, vars, rhs, Some(&Type::Bool))?;
                proof {
                    rules::lemma_expr_type(r);
                }
                expect_type(&r.ty, &Type::Bool, rhs.span(), "operand of `&&`/`||`")?;
                return Ok(binary_expr(*op, l, r, Type::Bool));
            }
            let shift = match op {
                ast::BinOp::Shl => true,
                ast::BinOp::Shr => true,
                _ => false,
            };
            if shift {
                let l = check_expr(s, vars, lhs, expected)?;
                proof {
                    rules::lemma_expr_type(l);
                }
                if !l.ty.is_integer() {
                    return Err(op_type_err(*op, &l.ty, lhs.span()));
                }
                let r = if amount_fits(rhs, &l.ty) {
                    check_expr(s, vars, rhs, Some(&l.ty))?
                } else {
                    check_expr(s, vars, rhs, None)?
                };
                proof {
                    rules::lemma_expr_type(r);
                }
                if !r.ty.is_integer() {
                    return Err(op_type_err(*op, &r.ty, rhs.span()));
                }
                let ty = l.ty.dup();
                return Ok(binary_expr(*op, l, r, ty));
            }
            let wanted = if irop.is_comparison() {
                None
            } else {
                only_integer(expected)
            };
            let t = match wanted {
                Some(t) => t,
                None => if !is_int_literalish(lhs) {
                    let l = check_expr(s, vars, lhs, None)?;
                    proof {
                        rules::lemma_expr_type(l);
                    }
                    l.ty
                } else if !is_int_literalish(rhs) {
                    let r = check_expr(s, vars, rhs, None)?;
                    proof {
                        rules::lemma_expr_type(r);
                    }
                    r.ty
                } else {
                    i32_type()
                },
            };
            let l = check_expr(s, vars, lhs, Some(&t))?;
            let r = check_expr(s, vars, rhs, Some(&t))?;
            operator_rule(*op, l, r, lhs.span().merge(rhs.span()))
        },
        _ => {
            // Ruled out by the precondition.
            proof {
                reveal(ast::Expr::model);
            }
            Err(type_error(String::new(), e.span()))
        },
    }
}

fn check_expr(s: &Spot, vars: &mut Locals, e: &ast::Expr, expected: Option<&Type>) -> (r: Result<
    Expr,
    Diagnostic,
>)
    ensures
        said(r) == typing::check_expr(s@, env::locals(old(vars)@), e@, hint(expected)),
        r is Ok ==> env::locals(final(vars)@) == env::locals(old(vars)@),
    decreases e, 2int,
{
    reveal(typing::unary_flow);
    reveal(typing::field_flow);
    reveal(typing::part_flow);
    reveal(typing::index_flow);
    reveal(typing::tuple_flow);
    reveal(typing::struct_flow);
    reveal(typing::if_flow);
    reveal(typing::match_flow);
    reveal(typing::block_flow);
    proof {
        ir::lemma_plain_nodes();
    }
    match e {
        ast::Expr::Int { value, span } => {
            assert(*e == ast::Expr::Int { value: *value, span: *span });
            int_rule(*value, *span, expected)
        },
        ast::Expr::Bool { value, span } => {
            assert(*e == ast::Expr::Bool { value: *value, span: *span });
            Ok(Expr::new(ExprKind::Bool(*value), Type::Bool))
        },
        ast::Expr::Ident { name, span } => {
            assert(*e == ast::Expr::Ident { name: *name, span: *span });
            ident_rule(s, vars, name, *span)
        },
        ast::Expr::Path { segments, span } => {
            assert(*e == ast::Expr::Path { segments: *segments, span: *span });
            global_rule(s, segments, *span)
        },
        ast::Expr::Unary { op, expr, span } => {
            assert(*e == ast::Expr::Unary { op: *op, expr: *expr, span: *span });
            let inner = check_expr(s, vars, expr, expected)?;
            unary_rule(*op, inner, *span)
        },
        ast::Expr::Binary { op, lhs, rhs, span } => {
            assert(*e == ast::Expr::Binary { op: *op, lhs: *lhs, rhs: *rhs, span: *span });
            check_binary(s, vars, e, expected)
        },
        ast::Expr::Call { callee, args, span } => {
            assert(*e == ast::Expr::Call { callee: *callee, args: *args, span: *span });
            check_call(s, vars, callee, args, *span, expected)
        },
        ast::Expr::Field { base, field, span } => {
            assert(*e == ast::Expr::Field { base: *base, field: *field, span: *span });
            let b = check_expr(s, vars, base, None)?;
            proof {
                rules::lemma_expr_type(b);
            }
            let (index, ty) = field_type(s.defs, &b.ty, field, *span)?;
            Ok(Expr::new(ExprKind::Field { base: Box::new(b), index }, ty))
        },
        ast::Expr::TupleField { base, index, span } => {
            assert(*e == ast::Expr::TupleField { base: *base, index: *index, span: *span });
            let b = check_expr(s, vars, base, None)?;
            proof {
                rules::lemma_expr_type(b);
            }
            let (i, ty) = part_type(&b.ty, *index, *span)?;
            Ok(Expr::new(ExprKind::TupleField { base: Box::new(b), index: i }, ty))
        },
        ast::Expr::Index { base, index, span } => {
            assert(*e == ast::Expr::Index { base: *base, index: *index, span: *span });
            let b = check_expr(s, vars, base, None)?;
            proof {
                rules::lemma_expr_type(b);
            }
            let ty = element_type(&b.ty, *span)?;
            let i = check_expr(s, vars, index, None)?;
            proof {
                rules::lemma_expr_type(i);
            }
            index_type(&i.ty, index.span())?;
            Ok(Expr::new(ExprKind::Index { base: Box::new(b), index: Box::new(i) }, ty))
        },
        ast::Expr::Array { elems, span } => {
            assert(*e == ast::Expr::Array { elems: *elems, span: *span });
            check_array(s, vars, elems, *span, expected)
        },
        ast::Expr::Tuple { elems, span } => {
            assert(*e == ast::Expr::Tuple { elems: *elems, span: *span });
            let es = check_parts(s, vars, elems, expected)?;
            Ok(tuple_expr(es))
        },
        ast::Expr::StructLit { path, fields, span } => {
            assert(*e == ast::Expr::StructLit { path: *path, fields: *fields, span: *span });
            let (full, sd) = struct_of(s, path, fields, *span)?;
            let name = path_text(path);
            let vs = check_inits(s, vars, fields, sd, &name, *span)?;
            struct_rule(full, fields, sd, &name, vs)
        },
        ast::Expr::If { cond, then_branch, else_branch, span } => {
            assert(*e == ast::Expr::If {
                cond: *cond,
                then_branch: *then_branch,
                else_branch: *else_branch,
                span: *span,
            });
            let c = check_expr(s, vars, cond, Some(&Type::Bool))?;
            proof {
                rules::lemma_expr_type(c);
            }
            expect_type(&c.ty, &Type::Bool, cond.span(), "if condition")?;
            match else_branch {
                None => {
                    let t = check_block(s, vars, then_branch, Some(&Type::Unit))?;
                    lone_if_rule(c, t, *span)
                },
                Some(eb) => {
                    let t = check_block(s, vars, then_branch, expected)?;
                    let e2 = check_else(s, vars, eb, expected)?;
                    branches_rule(c, t, e2, *span)
                },
            }
        },
        ast::Expr::Match { scrutinee, arms, span } => {
            assert(*e == ast::Expr::Match { scrutinee: *scrutinee, arms: *arms, span: *span });
            let sc = check_expr(s, vars, scrutinee, None)?;
            if arms.len() == 0 {
                return Err(type_error("`match` must have at least one arm".to_string(), *span));
            }
            check_match(s, vars, sc, arms, *span, expected)
        },
        ast::Expr::Block(b) => {
            assert(*e == ast::Expr::Block(*b));
            let t = check_block(s, vars, b, expected)?;
            proof {
                rules::lemma_block_type(t);
            }
            let ty = t.ty.dup();
            Ok(Expr::new(ExprKind::Block(t), ty))
        },
    }
}

fn check_place(s: &Spot, vars: &mut Locals, e: &ast::Expr) -> (r: Result<Place, Diagnostic>)
    ensures
        placed(r) == typing::check_place(s@, env::locals(old(vars)@), e@),
        r is Ok ==> env::locals(final(vars)@) == env::locals(old(vars)@),
    decreases e, 3int,
{
    reveal(typing::place_rule);
    reveal(typing::field_place);
    reveal(typing::part_place);
    reveal(typing::index_place);
    match e {
        ast::Expr::Ident { name, span } => {
            assert(*e == ast::Expr::Ident { name: *name, span: *span });
            match find_slot(vars, name.as_str()) {
                None => Err(type_error(cat3("unknown variable `", name.as_str(), "`"), *span)),
                Some(p) => {
                    assert(env::locals(vars@)[p as int] == (vars[p as int].0@, vars[p as int].1@));
                    if vars[p].1.mutable {
                        Ok(Place::Local { name: name.clone(), ty: vars[p].1.ty.dup() })
                    } else {
                        Err(
                            type_error(
                                cat3(
                                    "cannot assign to immutable binding `",
                                    name.as_str(),
                                    "` (use `let mut`)",
                                ),
                                *span,
                            ),
                        )
                    }
                },
            }
        },
        ast::Expr::Field { base, field, span } => {
            assert(*e == ast::Expr::Field { base: *base, field: *field, span: *span });
            let b = check_place(s, vars, base)?;
            let (index, ty) = field_type(s.defs, b.ty(), field, *span)?;
            Ok(Place::Field { base: Box::new(b), index, ty })
        },
        ast::Expr::TupleField { base, index, span } => {
            assert(*e == ast::Expr::TupleField { base: *base, index: *index, span: *span });
            let b = check_place(s, vars, base)?;
            let (i, ty) = part_type(b.ty(), *index, *span)?;
            Ok(Place::TupleField { base: Box::new(b), index: i, ty })
        },
        ast::Expr::Index { base, index, span } => {
            assert(*e == ast::Expr::Index { base: *base, index: *index, span: *span });
            let b = check_place(s, vars, base)?;
            let ty = element_type(b.ty(), *span)?;
            let i = check_expr(s, vars, index, None)?;
            proof {
                rules::lemma_expr_type(i);
            }
            index_type(&i.ty, index.span())?;
            Ok(Place::Index { base: Box::new(b), index: Box::new(i), ty })
        },
        _ => {
            proof {
                reveal(ast::Expr::model);
            }
            Err(type_error("invalid assignment target".to_string(), e.span()))
        },
    }
}

// ---- statements ---------------------------------------------------------

fn annotated(s: &Spot, ty: &Option<ast::TypeExpr>, span: Span) -> (r: Result<
    Option<Type>,
    Diagnostic,
>)
    ensures
        match r {
            Ok(t) => typing::annotated(
                s@,
                match ty {
                    Some(t) => Some(t@),
                    None => None,
                },
                span,
            ) == Ok::<Option<TType>, Diag>(text::option_view(t)),
            Err(d) => typing::annotated(
                s@,
                match ty {
                    Some(t) => Some(t@),
                    None => None,
                },
                span,
            ) == Err::<Option<TType>, Diag>(d@),
        },
{
    reveal(typing::annotated);
    match ty {
        None => Ok(None),
        Some(t) => {
            let x = resolve(s.defs, s.module, t, span)?;
            Ok(Some(x))
        },
    }
}

/// A `let` statement.
fn check_let(s: &Spot, vars: &mut Locals, st: &ast::Stmt) -> (r: Result<Stmt, Diagnostic>)
    requires
        st@ is Let,
    ensures
        match r {
            Ok(x) => typing::check_stmt(s@, env::locals(old(vars)@), st@) == Ok::<
                (TStmt, Vars),
                Diag,
            >((x@, env::locals(final(vars)@))) && kept(
                env::locals(old(vars)@),
                env::locals(final(vars)@),
            ),
            Err(d) => typing::check_stmt(s@, env::locals(old(vars)@), st@) == Err::<
                (TStmt, Vars),
                Diag,
            >(d@),
        },
    decreases st, 0int,
{
    reveal(typing::let_flow);
    let ghost v0 = env::locals(vars@);
    proof {
        ir::lemma_plain_nodes();
        lemma_kept_push(v0, arbitrary());
    }
    match st {
        ast::Stmt::Let { name, mutable, ty, init, span } => {
            assert(*st == ast::Stmt::Let {
                name: *name,
                mutable: *mutable,
                ty: *ty,
                init: *init,
                span: *span,
            });
            let want = annotated(s, ty, *span)?;
            let i = check_expr(s, vars, init, want.as_ref())?;
            proof {
                rules::lemma_expr_type(i);
            }
            let_rule(name, &want, &i.ty, *span)?;
            let bind = i.ty.dup();
            vars.push((name.clone(), Local { ty: i.ty.dup(), mutable: *mutable }));
            proof {
                lemma_kept_push(v0, (name@, Var { ty: i@.ty, mutable: *mutable }));
            }
            Ok(Stmt::Let { name: name.clone(), mutable: *mutable, ty: bind, init: i })
        },
        _ => {
            // Ruled out by the precondition.
            proof {
                reveal(ast::Stmt::model);
            }
            Err(type_error(String::new(), Span::dummy()))
        },
    }
}

/// An assignment.
fn check_assign(s: &Spot, vars: &mut Locals, st: &ast::Stmt) -> (r: Result<Stmt, Diagnostic>)
    requires
        st@ is Assign,
    ensures
        match r {
            Ok(x) => typing::check_stmt(s@, env::locals(old(vars)@), st@) == Ok::<
                (TStmt, Vars),
                Diag,
            >((x@, env::locals(final(vars)@))) && kept(
                env::locals(old(vars)@),
                env::locals(final(vars)@),
            ),
            Err(d) => typing::check_stmt(s@, env::locals(old(vars)@), st@) == Err::<
                (TStmt, Vars),
                Diag,
            >(d@),
        },
    decreases st, 0int,
{
    reveal(typing::assign_flow);
    let ghost v0 = env::locals(vars@);
    proof {
        ir::lemma_plain_nodes();
        lemma_kept_push(v0, arbitrary());
    }
    match st {
        ast::Stmt::Assign { target, value, span } => {
            assert(*st == ast::Stmt::Assign { target: *target, value: *value, span: *span });
            let place = check_place(s, vars, target)?;
            let v = check_expr(s, vars, value, Some(place.ty()))?;
            proof {
                rules::lemma_expr_type(v);
            }
            assign_rule(&v.ty, place.ty(), *span)?;
            Ok(Stmt::Assign { place, value: v })
        },
        _ => {
            // Ruled out by the precondition.
            proof {
                reveal(ast::Stmt::model);
            }
            Err(type_error(String::new(), Span::dummy()))
        },
    }
}

/// A `for` loop.
fn check_for(s: &Spot, vars: &mut Locals, st: &ast::Stmt) -> (r: Result<Stmt, Diagnostic>)
    requires
        st@ is For,
    ensures
        match r {
            Ok(x) => typing::check_stmt(s@, env::locals(old(vars)@), st@) == Ok::<
                (TStmt, Vars),
                Diag,
            >((x@, env::locals(final(vars)@))) && kept(
                env::locals(old(vars)@),
                env::locals(final(vars)@),
            ),
            Err(d) => typing::check_stmt(s@, env::locals(old(vars)@), st@) == Err::<
                (TStmt, Vars),
                Diag,
            >(d@),
        },
    decreases st, 0int,
{
    reveal(typing::for_flow);
    let ghost v0 = env::locals(vars@);
    proof {
        ir::lemma_plain_nodes();
        lemma_kept_push(v0, arbitrary());
    }
    match st {
        ast::Stmt::For { var, lo, hi, body, span } => {
            assert(*st == ast::Stmt::For {
                var: *var,
                lo: *lo,
                hi: *hi,
                body: *body,
                span: *span,
            });
            let l = check_expr(s, vars, lo, None)?;
            proof {
                rules::lemma_expr_type(l);
            }
            bound_rule(&l.ty, lo.span())?;
            let h = check_expr(s, vars, hi, Some(&l.ty))?;
            proof {
                rules::lemma_expr_type(h);
            }
            bounds_rule(&l.ty, &h.ty, *span)?;
            let n = vars.len();
            let ty = l.ty.dup();
            vars.push((var.clone(), Local { ty: l.ty.dup(), mutable: false }));
            proof {
                lemma_kept_push(v0, (var@, Var { ty: l@.ty, mutable: false }));
            }
            let b = check_block(s, vars, body, None)?;
            cut_vars(vars, n);
            Ok(Stmt::For { var: var.clone(), ty, lo: l, hi: h, body: b })
        },
        _ => {
            // Ruled out by the precondition.
            proof {
                reveal(ast::Stmt::model);
            }
            Err(type_error(String::new(), Span::dummy()))
        },
    }
}

/// A `while` loop.
fn check_while(s: &Spot, vars: &mut Locals, st: &ast::Stmt) -> (r: Result<Stmt, Diagnostic>)
    requires
        st@ is While,
    ensures
        match r {
            Ok(x) => typing::check_stmt(s@, env::locals(old(vars)@), st@) == Ok::<
                (TStmt, Vars),
                Diag,
            >((x@, env::locals(final(vars)@))) && kept(
                env::locals(old(vars)@),
                env::locals(final(vars)@),
            ),
            Err(d) => typing::check_stmt(s@, env::locals(old(vars)@), st@) == Err::<
                (TStmt, Vars),
                Diag,
            >(d@),
        },
    decreases st, 0int,
{
    reveal(typing::while_flow);
    let ghost v0 = env::locals(vars@);
    proof {
        ir::lemma_plain_nodes();
        lemma_kept_push(v0, arbitrary());
    }
    match st {
        ast::Stmt::While { cond, body, span } => {
            assert(*st == ast::Stmt::While { cond: *cond, body: *body, span: *span });
            let c = check_expr(s, vars, cond, Some(&Type::Bool))?;
            proof {
                rules::lemma_expr_type(c);
            }
            expect_type(&c.ty, &Type::Bool, cond.span(), "while condition")?;
            let b = check_block(s, vars, body, None)?;
            Ok(Stmt::While { cond: c, body: b })
        },
        _ => {
            // Ruled out by the precondition.
            proof {
                reveal(ast::Stmt::model);
            }
            Err(type_error(String::new(), Span::dummy()))
        },
    }
}

/// A `return`.
fn check_return(s: &Spot, vars: &mut Locals, st: &ast::Stmt) -> (r: Result<Stmt, Diagnostic>)
    requires
        st@ is Return,
    ensures
        match r {
            Ok(x) => typing::check_stmt(s@, env::locals(old(vars)@), st@) == Ok::<
                (TStmt, Vars),
                Diag,
            >((x@, env::locals(final(vars)@))) && kept(
                env::locals(old(vars)@),
                env::locals(final(vars)@),
            ),
            Err(d) => typing::check_stmt(s@, env::locals(old(vars)@), st@) == Err::<
                (TStmt, Vars),
                Diag,
            >(d@),
        },
    decreases st, 0int,
{
    reveal(typing::return_flow);
    let ghost v0 = env::locals(vars@);
    proof {
        ir::lemma_plain_nodes();
        lemma_kept_push(v0, arbitrary());
    }
    match st {
        ast::Stmt::Return { value, span } => {
            assert(*st == ast::Stmt::Return { value: *value, span: *span });
            match value {
                None => {
                    return_rule(None, s.ret, *span)?;
                    Ok(Stmt::Return { value: None })
                },
                Some(e) => {
                    let v = check_expr(s, vars, e, Some(s.ret))?;
                    proof {
                        rules::lemma_expr_type(v);
                    }
                    return_rule(Some(&v.ty), s.ret, *span)?;
                    Ok(Stmt::Return { value: Some(v) })
                },
            }
        },
        _ => {
            // Ruled out by the precondition.
            proof {
                reveal(ast::Stmt::model);
            }
            Err(type_error(String::new(), Span::dummy()))
        },
    }
}

fn check_stmt(s: &Spot, vars: &mut Locals, st: &ast::Stmt) -> (r: Result<Stmt, Diagnostic>)
    ensures
        match r {
            Ok(x) => typing::check_stmt(s@, env::locals(old(vars)@), st@) == Ok::<
                (TStmt, Vars),
                Diag,
            >((x@, env::locals(final(vars)@))) && kept(
                env::locals(old(vars)@),
                env::locals(final(vars)@),
            ),
            Err(d) => typing::check_stmt(s@, env::locals(old(vars)@), st@) == Err::<
                (TStmt, Vars),
                Diag,
            >(d@),
        },
    decreases st, 1int,
{
    reveal(typing::effect_flow);
    let ghost v0 = env::locals(vars@);
    proof {
        reveal(ast::Stmt::model);
        lemma_kept_push(v0, arbitrary());
    }
    match st {
        ast::Stmt::Let { name: _, mutable: _, ty: _, init: _, span: _ } => check_let(s, vars, st),
        ast::Stmt::Assign { target: _, value: _, span: _ } => check_assign(s, vars, st),
        ast::Stmt::While { cond: _, body: _, span: _ } => check_while(s, vars, st),
        ast::Stmt::For { var: _, lo: _, hi: _, body: _, span: _ } => check_for(s, vars, st),
        ast::Stmt::Return { value: _, span: _ } => check_return(s, vars, st),
        ast::Stmt::Expr(e) => {
            assert(*st == ast::Stmt::Expr(*e));
            let v = check_expr(s, vars, e, None)?;
            Ok(Stmt::Expr(v))
        },
    }
}

fn check_stmts(s: &Spot, vars: &mut Locals, sts: &Vec<ast::Stmt>) -> (r: Result<
    Vec<Stmt>,
    Diagnostic,
>)
    ensures
        match r {
            Ok(x) => typing::check_stmts(
                s@,
                env::locals(old(vars)@),
                ast::stmts_of(sts@),
                0,
                Seq::empty(),
            ) == Ok::<(Seq<TStmt>, Vars), Diag>((ir::stmts_of(x@), env::locals(final(vars)@)))
                && kept(env::locals(old(vars)@), env::locals(final(vars)@)),
            Err(d) => typing::check_stmts(
                s@,
                env::locals(old(vars)@),
                ast::stmts_of(sts@),
                0,
                Seq::empty(),
            ) == Err::<(Seq<TStmt>, Vars), Diag>(d@),
        },
    decreases sts, 2int,
{
    let ghost v0 = env::locals(vars@);
    let ghost ms = ast::stmts_of(sts@);
    proof {
        lemma_kept_push(v0, arbitrary());
    }
    let mut acc: Vec<Stmt> = Vec::new();
    assert(ir::stmts_of(acc@) =~= Seq::<TStmt>::empty());
    let mut i: usize = 0;
    while i < sts.len()
        invariant
            i <= sts.len(),
            v0 == env::locals(old(vars)@),
            ms == ast::stmts_of(sts@),
            kept(v0, env::locals(vars@)),
            typing::check_stmts(s@, v0, ms, 0, Seq::empty()) == typing::check_stmts(
                s@,
                env::locals(vars@),
                ms,
                i as int,
                ir::stmts_of(acc@),
            ),
        decreases sts.len() - i,
    {
        assert(ms[i as int] == sts[i as int]@);
        let ghost before = ir::stmts_of(acc@);
        let ghost v1 = env::locals(vars@);
        let x = check_stmt(s, vars, &sts[i])?;
        proof {
            lemma_kept_trans(v0, v1, env::locals(vars@));
        }
        let ghost added = x@;
        acc.push(x);
        assert(ir::stmts_of(acc@) =~= before.push(added));
        i += 1;
    }
    Ok(acc)
}

fn check_block(s: &Spot, vars: &mut Locals, b: &ast::Block, expected: Option<&Type>) -> (r: Result<
    Block,
    Diagnostic,
>)
    ensures
        said_block(r) == typing::check_block(s@, env::locals(old(vars)@), b@, hint(expected)),
        r is Ok ==> env::locals(final(vars)@) == env::locals(old(vars)@),
    decreases b, 0int,
{
    reveal(typing::tail_flow);
    proof {
        ir::lemma_plain_nodes();
        assert(*b == ast::Block { stmts: b.stmts, tail: b.tail, span: b.span });
    }
    let n = vars.len();
    let stmts = check_stmts(s, vars, &b.stmts)?;
    match &b.tail {
        None => {
            cut_vars(vars, n);
            Ok(Block { stmts, tail: None, ty: Type::Unit })
        },
        Some(e) => {
            let t = check_expr(s, vars, e, expected)?;
            proof {
                rules::lemma_expr_type(t);
            }
            cut_vars(vars, n);
            let ty = t.ty.dup();
            Ok(Block { stmts, tail: Some(Box::new(t)), ty })
        },
    }
}

// ---- items --------------------------------------------------------------

fn check_params(cx: &Context, m: &String, ps: &Vec<ast::Param>) -> (r: Result<
    Vec<Param>,
    Diagnostic,
>)
    ensures
        match r {
            Ok(x) => program::check_params(cx@, m@, ast::params_of(ps@), 0, Seq::empty()) == Ok::<
                Seq<TParam>,
                Diag,
            >(ir::params_of(x@)),
            Err(d) => program::check_params(cx@, m@, ast::params_of(ps@), 0, Seq::empty()) == Err::<
                Seq<TParam>,
                Diag,
            >(d@),
        },
{
    let ghost ms = ast::params_of(ps@);
    let mut acc: Vec<Param> = Vec::new();
    assert(ir::params_of(acc@) =~= Seq::<TParam>::empty());
    let mut i: usize = 0;
    while i < ps.len()
        invariant
            i <= ps.len(),
            ms == ast::params_of(ps@),
            program::check_params(cx@, m@, ms, 0, Seq::empty()) == program::check_params(
                cx@,
                m@,
                ms,
                i as int,
                ir::params_of(acc@),
            ),
        decreases ps.len() - i,
    {
        assert(ms[i as int] == ps[i as int]@);
        assert(ps[i as int] == ast::Param {
            name: ps[i as int].name,
            ty: ps[i as int].ty,
            span: ps[i as int].span,
        });
        let ghost before = ir::params_of(acc@);
        let ty = resolve(cx, m, &ps[i].ty, ps[i].span)?;
        let x = Param { name: ps[i].name.clone(), ty };
        let ghost added = x@;
        acc.push(x);
        assert(ir::params_of(acc@) =~= before.push(added));
        i += 1;
    }
    Ok(acc)
}

fn param_vars(ps: &Vec<Param>) -> (r: Locals)
    ensures
        env::locals(r@) == program::param_vars(ir::params_of(ps@)),
{
    let ghost ms = ir::params_of(ps@);
    let mut out: Locals = Vec::new();
    let mut i: usize = 0;
    while i < ps.len()
        invariant
            i <= ps.len(),
            ms == ir::params_of(ps@),
            env::locals(out@) == program::param_vars(ms).subrange(0, i as int),
        decreases ps.len() - i,
    {
        assert(ms[i as int] == ps[i as int]@);
        assert(ps[i as int] == Param { name: ps[i as int].name, ty: ps[i as int].ty });
        out.push((ps[i].name.clone(), Local { ty: ps[i].ty.dup(), mutable: false }));
        i += 1;
        assert(env::locals(out@) =~= program::param_vars(ms).subrange(0, i as int));
    }
    assert(env::locals(out@) =~= program::param_vars(ms));
    out
}

/// The function `f` of the module `m`.
fn check_func(cx: &Context, m: &String, f: &ast::Func) -> (r: Result<Func, Diagnostic>)
    ensures
        text::result_view(r) == program::check_func(cx@, m@, f@),
{
    reveal(program::check_func);
    proof {
        ir::lemma_plain_nodes();
        assert(*f == ast::Func {
            name: f.name,
            params: f.params,
            ret: f.ret,
            body: f.body,
            span: f.span,
        });
        assert(f.body == ast::Block { stmts: f.body.stmts, tail: f.body.tail, span: f.body.span });
    }
    let params = check_params(cx, m, &f.params)?;
    let ret = return_type(cx, m, &f.ret, f.span)?;
    let full = qualify(m, f.name.as_str());
    let mut vars = param_vars(&params);
    let s = Spot { defs: cx, module: m, ret: &ret };
    let body = check_block(&s, &mut vars, &f.body, Some(&ret))?;
    proof {
        rules::lemma_block_type(body);
    }
    if !body.ty.same(&ret) && !ret.same(&Type::Unit) {
        let r = ret.to_text();
        let b = body.ty.to_text();
        return Err(
            type_error(
                cat7(
                    "function `",
                    full.as_str(),
                    "` should return `",
                    r.as_str(),
                    "` but its body has type `",
                    b.as_str(),
                    "`",
                ),
                f.body.span,
            ),
        );
    }
    Ok(Func { name: full, params, ret, body })
}

/// The constant `c` of the module `m`.
fn check_const(cx: &Context, m: &String, c: &ast::ConstDef) -> (r: Result<ConstDef, Diagnostic>)
    ensures
        text::result_view(r) == program::check_const(cx@, m@, c@),
{
    reveal(program::check_const);
    proof {
        ir::lemma_plain_nodes();
        assert(*c == ast::ConstDef { name: c.name, ty: c.ty, init: c.init, span: c.span });
    }
    let ty = resolve(cx, m, &c.ty, c.span)?;
    let unit = Type::Unit;
    let s = Spot { defs: cx, module: m, ret: &unit };
    let mut vars: Locals = Vec::new();
    assert(env::locals(vars@) =~= Seq::<(Text, Var)>::empty());
    let init = check_expr(&s, &mut vars, &c.init, Some(&ty))?;
    proof {
        rules::lemma_expr_type(init);
    }
    expect_type(&init.ty, &ty, c.span, "constant")?;
    if scan_expr(&init, &Seek::Return) {
        return Err(
            type_error(
                "`return` cannot stand in the initialiser of a constant".to_string(),
                c.span,
            ),
        );
    }
    Ok(ConstDef { name: qualify(m, c.name.as_str()), ty, init })
}

/// The functions and constants checked so far, and what was wrong with others.
struct Building {
    funcs: NameMap<Func>,
    consts: NameMap<ConstDef>,
    diags: Vec<Diagnostic>,
}

impl View for Building {
    type V = Built;

    closed spec fn view(&self) -> Built {
        Built { funcs: self.funcs@, consts: self.consts@, diags: model::views(self.diags@) }
    }
}

fn build(cx: &Context, b: &mut Building, m: &String, it: &ast::Item)
    ensures
        final(b)@ == program::build(cx@, old(b)@, (m@, it@)),
{
    broadcast use model::group_views;

    reveal(program::build);
    reveal(ast::Item::model);
    match it {
        ast::Item::Func(f) => match check_func(cx, m, f) {
            Ok(x) => {
                assert(x == Func { name: x.name, params: x.params, ret: x.ret, body: x.body });
                b.funcs.insert(x.name.clone(), x);
            },
            Err(d) => {
                b.diags.push(d);
            },
        },
        ast::Item::Const(c) => match check_const(cx, m, c) {
            Ok(x) => {
                assert(x == ConstDef { name: x.name, ty: x.ty, init: x.init });
                b.consts.insert(x.name.clone(), x);
            },
            Err(d) => {
                b.diags.push(d);
            },
        },
        _ => {},
    }
}

/// What checking a program gives, by view.
pub open spec fn checked(r: Result<Module, Vec<Diagnostic>>) -> Result<TModule, Seq<Diag>> {
    match r {
        Ok(m) => Ok(m@),
        Err(ds) => Err(model::views(ds@)),
    }
}

/// Typecheck a program, producing a typed [`Module`] or a list of diagnostics.
pub fn check(program: &ast::Program) -> (r: Result<Module, Vec<Diagnostic>>)
    ensures
        checked(r) == program::check_program(program@),
{
    broadcast use model::group_views;

    proof {
        reveal(ast::Program::model);
        reveal_strlit("");
    }
    let root = String::new();
    assert(root@ =~= Seq::<char>::empty());
    let mut its: Vec<(String, &ast::Item)> = Vec::new();
    assert(gather::placed(its@) =~= Seq::empty());
    flatten(&root, &program.items, &mut its);
    let ghost ms = program::flatten(Seq::empty(), program@.items, 0);
    assert(gather::placed(its@) =~= ms);
    let g = gather(&its);
    if g.diags.len() > 0 {
        return Err(g.diags);
    }
    let mut b = Building { funcs: NameMap::new(), consts: NameMap::new(), diags: Vec::new() };
    let ghost b0 = Built { funcs: Seq::empty(), consts: Seq::empty(), diags: Seq::empty() };
    assert(model::views(b.diags@) =~= Seq::<Diag>::empty());
    assert(b@ == b0);
    let mut i: usize = 0;
    while i < its.len()
        invariant
            i <= its.len(),
            ms == gather::placed(its@),
            program::build_all(g.cx@, b0, ms, 0) == program::build_all(g.cx@, b@, ms, i as int),
        decreases its.len() - i,
    {
        assert(ms[i as int] == (its[i as int].0@, its[i as int].1@));
        build(&g.cx, &mut b, &its[i].0, its[i].1);
        i += 1;
    }
    if b.diags.len() > 0 {
        return Err(b.diags);
    }
    Ok(Module { structs: g.cx.structs, enums: g.cx.enums, funcs: b.funcs, consts: b.consts })
}

/// Typecheck a single function against an existing set of definitions.
pub fn check_func_against(
    func: &ast::Func,
    structs: &NameMap<StructDef>,
    enums: &NameMap<EnumDef>,
    funcs: &NameMap<Func>,
) -> (r: Result<Func, Vec<Diagnostic>>)
    ensures
        match program::check_func(
            program::defs_of(structs@, enums@, funcs@),
            Seq::empty(),
            func@,
        ) {
            Ok(f) => r matches Ok(x) && x@ == f,
            Err(d) => r matches Err(ds) && model::views(ds@) == seq![d],
        },
{
    broadcast use model::group_views;

    proof {
        reveal_strlit("");
    }
    let root = String::new();
    assert(root@ =~= Seq::<char>::empty());
    let cx = context_of(structs, enums, funcs);
    match check_func(&cx, &root, func) {
        Ok(f) => Ok(f),
        Err(d) => {
            let mut ds: Vec<Diagnostic> = Vec::new();
            ds.push(d);
            assert(model::views(ds@) =~= seq![d@]);
            Err(ds)
        },
    }
}

} // verus!
