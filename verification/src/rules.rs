//! The typing rules of single constructs, computed.

use crate::arith::{self, power};
use crate::ast;
use crate::context::{find_variant, look_up, path_text, type_error, Context, Local, Locals, Spot};
use crate::diagnostic::{Diag, Diagnostic};
use crate::env::{self, find_slot};
use crate::ir::{self, Arm, BinOp, Block, EnumDef, Expr, ExprKind, Field, IntTy, Pattern, TExpr, TField, TType, Type, UnOp, Variant};
use crate::model;
use crate::semantics;
use crate::name_map::NameMap;
use crate::span::Span;
use crate::text::{self, cat2, cat3, cat4, cat5, cat6, cat7, cat9, i128_text, join, str_eq, u64_text, usize_text, Text};
use crate::typing::{self, Callee};
use vstd::arithmetic::power2::*;
use vstd::prelude::*;

verus! {

broadcast use {ir::group_model, ir::group_built, ast::group_model, text::group_texts, env::group_locals};

pub open spec fn said(r: Result<Expr, Diagnostic>) -> Result<TExpr, Diag> {
    match r {
        Ok(e) => Ok(e@),
        Err(d) => Err(d@),
    }
}

pub open spec fn passed(r: Result<(), Diagnostic>) -> Result<(), Diag> {
    match r {
        Ok(_) => Ok(()),
        Err(d) => Err(d@),
    }
}

pub open spec fn placed(r: Result<(usize, Type), Diagnostic>) -> Result<(usize, TType), Diag> {
    match r {
        Ok((i, t)) => Ok((i, t@)),
        Err(d) => Err(d@),
    }
}

pub open spec fn hint(o: Option<&Type>) -> Option<TType> {
    match o {
        Some(t) => Some(t@),
        None => None,
    }
}

pub(crate) fn i32_type() -> (r: Type)
    ensures
        r@ == typing::i32_type(),
{
    Type::Int(IntTy { signed: true, width: 32 })
}

/// Whether the literal `v` fits in the integer-like type `ty`.
pub(crate) fn fits(v: i128, ty: &Type) -> (r: bool)
    ensures
        r == typing::fits(v as int, ty@),
{
    reveal(Type::model);
    proof {
        arith::lemma_two128();
    }
    match ty {
        Type::Int(it) => {
            let w = it.width;
            if w == 0 {
                v == 0
            } else if w >= 128 {
                true
            } else if it.signed {
                let h = power(w - 1);
                proof {
                    if w < 128 {
                        lemma_pow2_strictly_increases((w - 1) as nat, 127);
                    }
                }
                let m: i128 = h as i128;
                if v >= 0 {
                    v < m
                } else {
                    v >= -m
                }
            } else {
                v >= 0 && (v as u128) < power(w)
            }
        },
        Type::Bit(n) => {
            if v < 0 {
                return false;
            }
            if *n >= 128 {
                return true;
            }
            (v as u128) < power(*n)
        },
        _ => false,
    }
}

/// The type `got` must be `want`.
pub(crate) fn expect_type(got: &Type, want: &Type, span: Span, what: &str) -> (r: Result<
    (),
    Diagnostic,
>)
    ensures
        passed(r) == typing::expect_type(got@, want@, span, what@),
{
    reveal(typing::expect_type);
    if got.same(want) {
        Ok(())
    } else {
        let w = want.to_text();
        let g = got.to_text();
        Err(
            type_error(cat6(what, " must be `", w.as_str(), "`, found `", g.as_str(), "`"), span),
        )
    }
}

/// The position and type of a field.
pub(crate) fn field_type(cx: &Context, base: &Type, field: &String, span: Span) -> (r: Result<
    (usize, Type),
    Diagnostic,
>)
    ensures
        placed(r) == typing::field_type(cx@, base@, field@, span),
{
    reveal(typing::field_type);
    reveal(Type::model);
    match base {
        Type::Struct(name) => match cx.structs.get(name.as_str()) {
            None => Err(type_error(cat3("unknown struct `", name.as_str(), "`"), span)),
            Some(d) => match d.field_index(field.as_str()) {
                Some(i) => {
                    assert(d@.fields[i as int] == d.fields[i as int]@);
                    Ok((i, d.fields[i].ty.dup()))
                },
                None => Err(
                    type_error(
                        cat5("struct `", name.as_str(), "` has no field `", field.as_str(), "`"),
                        span,
                    ),
                ),
            },
        },
        _ => {
            let t = base.to_text();
            Err(
                type_error(
                    cat5("cannot access field `", field.as_str(), "` on type `", t.as_str(), "`"),
                    span,
                ),
            )
        },
    }
}

/// The type of a tuple element.
pub(crate) fn part_type(base: &Type, index: u64, span: Span) -> (r: Result<
    (usize, Type),
    Diagnostic,
>)
    ensures
        placed(r) == typing::part_type(base@, index, span),
{
    reveal(typing::part_type);
    reveal(Type::model);
    let n = u64_text(index);
    let t = base.to_text();
    match base {
        Type::Tuple(ts) => if index < ts.len() as u64 {
            assert(ir::types_of(ts@)[index as int] == ts[index as int]@);
            Ok((index as usize, ts[index as usize].dup()))
        } else {
            Err(
                type_error(
                    cat5("tuple index `", n.as_str(), "` is out of range for `", t.as_str(), "`"),
                    span,
                ),
            )
        },
        _ => Err(
            type_error(
                cat5("cannot access element `", n.as_str(), "` on type `", t.as_str(), "`"),
                span,
            ),
        ),
    }
}

/// The element type of an array.
pub(crate) fn element_type(base: &Type, span: Span) -> (r: Result<Type, Diagnostic>)
    ensures
        match r {
            Ok(t) => typing::element_type(base@, span) == Ok::<TType, Diag>(t@),
            Err(d) => typing::element_type(base@, span) == Err::<TType, Diag>(d@),
        },
{
    reveal(typing::element_type);
    reveal(Type::model);
    match base {
        Type::Array(t, _) => Ok(t.dup()),
        _ => {
            let t = base.to_text();
            Err(type_error(cat3("cannot index a value of type `", t.as_str(), "`"), span))
        },
    }
}

pub(crate) fn index_type(ty: &Type, span: Span) -> (r: Result<(), Diagnostic>)
    ensures
        passed(r) == typing::index_type(ty@, span),
{
    reveal(typing::index_type);
    if ty.is_integer() {
        Ok(())
    } else {
        let t = ty.to_text();
        Err(type_error(cat3("array index must be an integer, found `", t.as_str(), "`"), span))
    }
}

// ---- patterns -----------------------------------------------------------

pub(crate) fn int_pattern(value: i128, ty: &Type, span: Span, what: &str) -> (r: Result<
    (),
    Diagnostic,
>)
    ensures
        passed(r) == typing::int_pattern(value, ty@, span, what@),
{
    reveal(typing::int_pattern);
    let t = ty.to_text();
    if !ty.is_integer() {
        return Err(
            type_error(
                cat4(what, " pattern cannot match a value of type `", t.as_str(), "`"),
                span,
            ),
        );
    }
    if !fits(value, ty) {
        let v = i128_text(value);
        return Err(
            type_error(cat5("pattern `", v.as_str(), "` does not fit in `", t.as_str(), "`"), span),
        );
    }
    Ok(())
}

/// The variant that a pattern names, which must belong to the enum type `ty`.
pub(crate) fn variant_pattern<'a>(
    s: &Spot<'a>,
    path: &Vec<String>,
    ty: &Type,
    count: usize,
    span: Span,
) -> (r: Result<(String, usize, &'a Vec<Type>), Diagnostic>)
    ensures
        match r {
            Ok((n, tag, tys)) => typing::variant_pattern(
                s@,
                text::texts(path@),
                ty@,
                count as nat,
                span,
            ) == Ok::<(Text, usize, Seq<TType>), Diag>((n@, tag, ir::types_of(tys@))),
            Err(d) => typing::variant_pattern(s@, text::texts(path@), ty@, count as nat, span)
                == Err::<(Text, usize, Seq<TType>), Diag>(d@),
        },
{
    reveal(typing::variant_pattern);
    reveal(Type::model);
    let name = path_text(path);
    match ty {
        Type::Enum(enum_name) => match find_variant(s.defs, s.module, path) {
            None => Err(type_error(cat3("unknown variant `", name.as_str(), "`"), span)),
            Some((en, tag, fields)) => {
                if !str_eq(en.as_str(), enum_name.as_str()) {
                    return Err(
                        type_error(
                            cat7(
                                "variant `",
                                name.as_str(),
                                "` belongs to enum `",
                                en.as_str(),
                                "`, not `",
                                enum_name.as_str(),
                                "`",
                            ),
                            span,
                        ),
                    );
                }
                if count != fields.len() {
                    let a = usize_text(fields.len());
                    let b = usize_text(count);
                    return Err(
                        type_error(
                            cat6(
                                "variant `",
                                name.as_str(),
                                "` has ",
                                a.as_str(),
                                " field(s) but pattern binds ",
                                b.as_str(),
                            ),
                            span,
                        ),
                    );
                }
                Ok((en, tag, fields))
            },
        },
        _ => {
            let t = ty.to_text();
            Err(
                type_error(
                    cat5(
                        "variant pattern `",
                        name.as_str(),
                        "` cannot match type `",
                        t.as_str(),
                        "`",
                    ),
                    span,
                ),
            )
        },
    }
}

/// The element types of a tuple pattern.
pub(crate) fn tuple_pattern<'a>(ty: &'a Type, count: usize, span: Span) -> (r: Result<
    &'a Vec<Type>,
    Diagnostic,
>)
    ensures
        match r {
            Ok(ts) => typing::tuple_pattern(ty@, count as nat, span) == Ok::<Seq<TType>, Diag>(
                ir::types_of(ts@),
            ),
            Err(d) => typing::tuple_pattern(ty@, count as nat, span) == Err::<Seq<TType>, Diag>(d@),
        },
{
    reveal(typing::tuple_pattern);
    reveal(Type::model);
    let t = ty.to_text();
    match ty {
        Type::Tuple(ts) => if ts.len() == count {
            Ok(ts)
        } else {
            let a = usize_text(count);
            let b = usize_text(ts.len());
            Err(
                type_error(
                    cat6(
                        "tuple pattern has ",
                        a.as_str(),
                        " element(s) but `",
                        t.as_str(),
                        "` has ",
                        b.as_str(),
                    ),
                    span,
                ),
            )
        },
        _ => Err(
            type_error(
                cat3("tuple pattern cannot match a value of type `", t.as_str(), "`"),
                span,
            ),
        ),
    }
}

/// Whether every variable of `a` is one of `b`, with the same type.
pub(crate) fn binds_within(a: &Locals, b: &Locals) -> (r: bool)
    ensures
        r == typing::binds_within(env::locals(a@), env::locals(b@)),
{
    let ghost ma = env::locals(a@);
    let ghost mb = env::locals(b@);
    let mut i: usize = 0;
    while i < a.len()
        invariant
            i <= a.len(),
            ma == env::locals(a@),
            mb == env::locals(b@),
            forall|j: int|
                0 <= j < i ==> {
                    let n = (#[trigger] ma[j]).0;
                    semantics::slot(ma, n) matches Some(p) && semantics::slot(mb, n) matches Some(q)
                        && ma[p].1.ty == mb[q].1.ty
                },
        decreases a.len() - i,
    {
        assert(ma[i as int] == (a[i as int].0@, a[i as int].1@));
        let name = a[i].0.as_str();
        match (find_slot(a, name), find_slot(b, name)) {
            (Some(p), Some(q)) => {
                assert(ma[p as int] == (a[p as int].0@, a[p as int].1@));
                assert(mb[q as int] == (b[q as int].0@, b[q as int].1@));
                if !a[p].1.ty.same(&b[q].1.ty) {
                    return false;
                }
            },
            _ => {
                return false;
            },
        }
        i += 1;
    }
    true
}

// ---- exhaustiveness -----------------------------------------------------

/// Whether the enum called `name` has one variant.
fn sole_variant(enums: &NameMap<EnumDef>, name: &String) -> (r: bool)
    ensures
        r == typing::sole_variant(enums@, name@),
{
    match enums.get(name.as_str()) {
        Some(d) => {
            assert(*d == EnumDef { name: d.name, variants: d.variants });
            d.variants.len() == 1
        },
        None => false,
    }
}

/// A pattern is irrefutable if it always matches.
pub(crate) fn is_irrefutable(enums: &NameMap<EnumDef>, p: &Pattern) -> (r: bool)
    ensures
        r == typing::irrefutable(enums@, p@),
    decreases p, 0int,
{
    reveal(Pattern::model);
    match p {
        Pattern::Wildcard => true,
        Pattern::Binding { name: _, ty: _ } => true,
        Pattern::Tuple(ps) => all_irrefutable(enums, ps),
        Pattern::Or(ps) => any_irrefutable(enums, ps),
        Pattern::Variant { enum_name, tag: _, subpatterns } => sole_variant(enums, enum_name)
            && all_irrefutable(enums, subpatterns),
        _ => false,
    }
}

fn all_irrefutable(enums: &NameMap<EnumDef>, ps: &Vec<Pattern>) -> (r: bool)
    ensures
        r == typing::each_irrefutable(enums@, ir::patterns_of(ps@), 0),
    decreases ps, 1int,
{
    let ghost mps = ir::patterns_of(ps@);
    let mut i: usize = 0;
    while i < ps.len()
        invariant
            i <= ps.len(),
            mps == ir::patterns_of(ps@),
            typing::each_irrefutable(enums@, mps, 0) == typing::each_irrefutable(
                enums@,
                mps,
                i as int,
            ),
        decreases ps.len() - i,
    {
        assert(mps[i as int] == ps[i as int]@);
        if !is_irrefutable(enums, &ps[i]) {
            return false;
        }
        i += 1;
    }
    true
}

fn any_irrefutable(enums: &NameMap<EnumDef>, ps: &Vec<Pattern>) -> (r: bool)
    ensures
        r == typing::some_irrefutable(enums@, ir::patterns_of(ps@), 0),
    decreases ps, 1int,
{
    let ghost mps = ir::patterns_of(ps@);
    let mut i: usize = 0;
    while i < ps.len()
        invariant
            i <= ps.len(),
            mps == ir::patterns_of(ps@),
            typing::some_irrefutable(enums@, mps, 0) == typing::some_irrefutable(
                enums@,
                mps,
                i as int,
            ),
        decreases ps.len() - i,
    {
        assert(mps[i as int] == ps[i as int]@);
        if is_irrefutable(enums, &ps[i]) {
            return true;
        }
        i += 1;
    }
    false
}

fn covers_tag(enums: &NameMap<EnumDef>, p: &Pattern, tag: usize) -> (r: bool)
    ensures
        r == typing::covers_tag(enums@, p@, tag as int),
    decreases p, 0int,
{
    reveal(Pattern::model);
    match p {
        Pattern::Variant { enum_name: _, tag: t, subpatterns } => *t == tag && all_irrefutable(
            enums,
            subpatterns,
        ),
        Pattern::Or(ps) => any_covers_tag(enums, ps, tag),
        _ => false,
    }
}

fn any_covers_tag(enums: &NameMap<EnumDef>, ps: &Vec<Pattern>, tag: usize) -> (r: bool)
    ensures
        r == typing::some_covers_tag(enums@, ir::patterns_of(ps@), tag as int, 0),
    decreases ps, 1int,
{
    let ghost mps = ir::patterns_of(ps@);
    let mut i: usize = 0;
    while i < ps.len()
        invariant
            i <= ps.len(),
            mps == ir::patterns_of(ps@),
            typing::some_covers_tag(enums@, mps, tag as int, 0) == typing::some_covers_tag(
                enums@,
                mps,
                tag as int,
                i as int,
            ),
        decreases ps.len() - i,
    {
        assert(mps[i as int] == ps[i as int]@);
        if covers_tag(enums, &ps[i], tag) {
            return true;
        }
        i += 1;
    }
    false
}

fn covers_bool(p: &Pattern, b: bool) -> (r: bool)
    ensures
        r == typing::covers_bool(p@, b),
    decreases p, 0int,
{
    reveal(Pattern::model);
    match p {
        Pattern::Bool(v) => *v == b,
        Pattern::Or(ps) => any_covers_bool(ps, b),
        _ => false,
    }
}

fn any_covers_bool(ps: &Vec<Pattern>, b: bool) -> (r: bool)
    ensures
        r == typing::some_covers_bool(ir::patterns_of(ps@), b, 0),
    decreases ps, 1int,
{
    let ghost mps = ir::patterns_of(ps@);
    let mut i: usize = 0;
    while i < ps.len()
        invariant
            i <= ps.len(),
            mps == ir::patterns_of(ps@),
            typing::some_covers_bool(mps, b, 0) == typing::some_covers_bool(mps, b, i as int),
        decreases ps.len() - i,
    {
        assert(mps[i as int] == ps[i as int]@);
        if covers_bool(&ps[i], b) {
            return true;
        }
        i += 1;
    }
    false
}

fn unguarded(a: &Arm) -> (r: bool)
    ensures
        r == a@.guard is None,
{
    reveal(Arm::model);
    a.guard.is_none()
}

proof fn lemma_arm_pattern(a: Arm)
    ensures
        a@.pattern == a.pattern@,
{
    reveal(Arm::model);
    reveal(Pattern::model);
}

fn catch_all(enums: &NameMap<EnumDef>, arms: &Vec<Arm>) -> (r: bool)
    ensures
        r == typing::catch_all(enums@, ir::arms_of(arms@)),
{
    let mut i: usize = 0;
    while i < arms.len()
        invariant
            i <= arms.len(),
            forall|j: int|
                0 <= j < i ==> !((#[trigger] ir::arms_of(arms@)[j]).guard is None
                    && typing::irrefutable(enums@, ir::arms_of(arms@)[j].pattern)),
        decreases arms.len() - i,
    {
        assert(ir::arms_of(arms@)[i as int] == arms[i as int]@);
        proof {
            lemma_arm_pattern(arms[i as int]);
        }
        if unguarded(&arms[i]) && is_irrefutable(enums, &arms[i].pattern) {
            return true;
        }
        i += 1;
    }
    false
}

fn tag_covered(enums: &NameMap<EnumDef>, arms: &Vec<Arm>, tag: usize) -> (r: bool)
    ensures
        r == typing::tag_covered(enums@, ir::arms_of(arms@), tag as int),
{
    let mut i: usize = 0;
    while i < arms.len()
        invariant
            i <= arms.len(),
            forall|j: int|
                0 <= j < i ==> !((#[trigger] ir::arms_of(arms@)[j]).guard is None
                    && typing::covers_tag(enums@, ir::arms_of(arms@)[j].pattern, tag as int)),
        decreases arms.len() - i,
    {
        assert(ir::arms_of(arms@)[i as int] == arms[i as int]@);
        proof {
            lemma_arm_pattern(arms[i as int]);
        }
        if unguarded(&arms[i]) && covers_tag(enums, &arms[i].pattern, tag) {
            return true;
        }
        i += 1;
    }
    false
}

fn bool_covered(arms: &Vec<Arm>, b: bool) -> (r: bool)
    ensures
        r == typing::bool_covered(ir::arms_of(arms@), b),
{
    let mut i: usize = 0;
    while i < arms.len()
        invariant
            i <= arms.len(),
            forall|j: int|
                0 <= j < i ==> !((#[trigger] ir::arms_of(arms@)[j]).guard is None
                    && typing::covers_bool(ir::arms_of(arms@)[j].pattern, b)),
        decreases arms.len() - i,
    {
        assert(ir::arms_of(arms@)[i as int] == arms[i as int]@);
        proof {
            lemma_arm_pattern(arms[i as int]);
        }
        if unguarded(&arms[i]) && covers_bool(&arms[i].pattern, b) {
            return true;
        }
        i += 1;
    }
    false
}

fn uncovered(enums: &NameMap<EnumDef>, arms: &Vec<Arm>, vs: &Vec<Variant>) -> (r: Vec<String>)
    ensures
        text::texts(r@) == typing::uncovered(
            enums@,
            ir::arms_of(arms@),
            ir::variants_of(vs@),
            0,
            Seq::empty(),
        ),
{
    let ghost marms = ir::arms_of(arms@);
    let ghost mvs = ir::variants_of(vs@);
    let mut out: Vec<String> = Vec::new();
    assert(text::texts(out@) =~= Seq::<Text>::empty());
    let mut i: usize = 0;
    while i < vs.len()
        invariant
            i <= vs.len(),
            marms == ir::arms_of(arms@),
            mvs == ir::variants_of(vs@),
            typing::uncovered(enums@, marms, mvs, 0, Seq::empty()) == typing::uncovered(
                enums@,
                marms,
                mvs,
                i as int,
                text::texts(out@),
            ),
        decreases vs.len() - i,
    {
        assert(mvs[i as int] == vs[i as int]@);
        if !tag_covered(enums, arms, i) {
            out.push(vs[i].name.clone());
        }
        i += 1;
    }
    out
}

/// The arms must cover every value of the type `ty`.
pub(crate) fn check_exhaustive(cx: &Context, ty: &Type, arms: &Vec<Arm>, span: Span) -> (r: Result<
    (),
    Diagnostic,
>)
    ensures
        passed(r) == typing::exhaustive(cx@, ty@, ir::arms_of(arms@), span),
{
    reveal(typing::exhaustive);
    reveal(Type::model);
    if catch_all(&cx.enums, arms) {
        return Ok(());
    }
    match ty {
        Type::Enum(name) => match cx.enums.get(name.as_str()) {
            None => Err(type_error(cat3("unknown type `", name.as_str(), "`"), span)),
            Some(d) => {
                let missing = uncovered(&cx.enums, arms, &d.variants);
                if missing.len() == 0 {
                    Ok(())
                } else {
                    let list = join(&missing, ", ");
                    Err(
                        type_error(
                            cat5(
                                "non-exhaustive match on `",
                                name.as_str(),
                                "`: variant(s) ",
                                list.as_str(),
                                " not covered",
                            ),
                            span,
                        ),
                    )
                }
            },
        },
        Type::Bool => if bool_covered(arms, true) && bool_covered(arms, false) {
            Ok(())
        } else {
            Err(
                type_error(
                    "non-exhaustive match on `bool`: add the missing case or a `_` arm".to_string(),
                    span,
                ),
            )
        },
        _ => {
            let t = ty.to_text();
            Err(
                type_error(
                    cat3(
                        "non-exhaustive match on `",
                        t.as_str(),
                        "`: add a `_` (wildcard) arm",
                    ),
                    span,
                ),
            )
        },
    }
}

// ---- expressions --------------------------------------------------------

/// An integer literal in its context.
pub(crate) fn int_rule(value: i128, span: Span, expected: Option<&Type>) -> (r: Result<
    Expr,
    Diagnostic,
>)
    ensures
        said(r) == typing::int_rule(value, span, hint(expected)),
{
    reveal(typing::int_rule);
    let ty = match expected {
        Some(t) => if t.is_integer() {
            t.dup()
        } else {
            i32_type()
        },
        None => i32_type(),
    };
    if fits(value, &ty) {
        Ok(Expr::new(ExprKind::Int(value), ty))
    } else {
        let v = i128_text(value);
        let t = ty.to_text();
        Err(
            type_error(
                cat5("integer literal `", v.as_str(), "` does not fit in `", t.as_str(), "`"),
                span,
            ),
        )
    }
}

/// A name that is no local variable.
pub(crate) fn global_rule(s: &Spot, segs: &Vec<String>, span: Span) -> (r: Result<Expr, Diagnostic>)
    ensures
        said(r) == typing::global_rule(s@, text::texts(segs@), span),
{
    reveal(typing::global_rule);
    let name = path_text(segs);
    match find_variant(s.defs, s.module, segs) {
        Some((en, tag, fields)) => {
            if fields.len() == 0 {
                let args: Vec<Expr> = Vec::new();
                assert(ir::exprs_of(args@) =~= Seq::<TExpr>::empty());
                return Ok(
                    Expr::new(ExprKind::MakeEnum { name: en.clone(), tag, args }, Type::Enum(en)),
                );
            }
            let n = usize_text(fields.len());
            Err(
                type_error(
                    cat7(
                        "variant `",
                        name.as_str(),
                        "` takes ",
                        n.as_str(),
                        " argument(s); call it like `",
                        name.as_str(),
                        "(...)`",
                    ),
                    span,
                ),
            )
        },
        None => match look_up(&s.defs.consts, &s.defs.imports, s.module, segs) {
            Some((full, ty)) => Ok(Expr::new(ExprKind::ConstRef(full), ty.dup())),
            None => Err(type_error(cat3("unknown identifier `", name.as_str(), "`"), span)),
        },
    }
}

/// A bare name.
pub(crate) fn ident_rule(s: &Spot, vars: &Locals, name: &String, span: Span) -> (r: Result<
    Expr,
    Diagnostic,
>)
    ensures
        said(r) == typing::ident_rule(s@, env::locals(vars@), name@, span),
{
    reveal(typing::ident_rule);
    match find_slot(vars, name.as_str()) {
        Some(p) => {
            assert(env::locals(vars@)[p as int] == (vars[p as int].0@, vars[p as int].1@));
            Ok(Expr::new(ExprKind::Local(name.clone()), vars[p].1.ty.dup()))
        },
        None => {
            let mut segs: Vec<String> = Vec::new();
            segs.push(name.clone());
            assert(text::texts(segs@) =~= seq![name@]);
            global_rule(s, &segs, span)
        },
    }
}

pub(crate) fn unary_rule(op: ast::UnOp, inner: Expr, span: Span) -> (r: Result<Expr, Diagnostic>)
    ensures
        said(r) == typing::unary_rule(op, inner@, span),
{
    reveal(typing::unary_rule);
    proof {
        lemma_expr_type(inner);
    }
    reveal(Type::model);
    match op {
        ast::UnOp::Neg => {
            let fine = match &inner.ty {
                Type::Int(it) => it.signed,
                Type::Bit(_) => true,
                _ => false,
            };
            if fine {
                let ty = inner.ty.dup();
                Ok(Expr::new(ExprKind::Unary { op: UnOp::Neg, expr: Box::new(inner) }, ty))
            } else {
                let t = inner.ty.to_text();
                Err(type_error(cat3("cannot negate a value of type `", t.as_str(), "`"), span))
            }
        },
        ast::UnOp::Not => {
            let fine = match &inner.ty {
                Type::Bool => true,
                Type::Int(_) => true,
                Type::Bit(_) => true,
                _ => false,
            };
            if fine {
                let ty = inner.ty.dup();
                Ok(Expr::new(ExprKind::Unary { op: UnOp::Not, expr: Box::new(inner) }, ty))
            } else {
                let t = inner.ty.to_text();
                Err(
                    type_error(
                        cat3("cannot apply `!` to a value of type `", t.as_str(), "`"),
                        span,
                    ),
                )
            }
        },
    }
}

/// The model of an expression has the model of its type.
pub proof fn lemma_expr_type(e: Expr)
    ensures
        e@.ty == e.ty@,
{
    assert(e == Expr { kind: e.kind, ty: e.ty });
}

/// The model of a block has the model of its type.
pub proof fn lemma_block_type(b: Block)
    ensures
        b@.ty == b.ty@,
{
    assert(b == Block { stmts: b.stmts, tail: b.tail, ty: b.ty });
}

pub(crate) fn lower_binop(op: ast::BinOp) -> (r: BinOp)
    ensures
        r == typing::lower_op(op),
{
    match op {
        ast::BinOp::Add => BinOp::Add,
        ast::BinOp::Sub => BinOp::Sub,
        ast::BinOp::Mul => BinOp::Mul,
        ast::BinOp::Div => BinOp::Div,
        ast::BinOp::Rem => BinOp::Rem,
        ast::BinOp::And => BinOp::And,
        ast::BinOp::Or => BinOp::Or,
        ast::BinOp::BitAnd => BinOp::BitAnd,
        ast::BinOp::BitOr => BinOp::BitOr,
        ast::BinOp::BitXor => BinOp::BitXor,
        ast::BinOp::Shl => BinOp::Shl,
        ast::BinOp::Shr => BinOp::Shr,
        ast::BinOp::Eq => BinOp::Eq,
        ast::BinOp::Ne => BinOp::Ne,
        ast::BinOp::Lt => BinOp::Lt,
        ast::BinOp::Le => BinOp::Le,
        ast::BinOp::Gt => BinOp::Gt,
        ast::BinOp::Ge => BinOp::Ge,
    }
}

fn op_name(op: ast::BinOp) -> (r: String)
    ensures
        r@ == typing::op_name(op),
{
    match op {
        ast::BinOp::Add => "Add".to_string(),
        ast::BinOp::Sub => "Sub".to_string(),
        ast::BinOp::Mul => "Mul".to_string(),
        ast::BinOp::Div => "Div".to_string(),
        ast::BinOp::Rem => "Rem".to_string(),
        ast::BinOp::And => "And".to_string(),
        ast::BinOp::Or => "Or".to_string(),
        ast::BinOp::BitAnd => "BitAnd".to_string(),
        ast::BinOp::BitOr => "BitOr".to_string(),
        ast::BinOp::BitXor => "BitXor".to_string(),
        ast::BinOp::Shl => "Shl".to_string(),
        ast::BinOp::Shr => "Shr".to_string(),
        ast::BinOp::Eq => "Eq".to_string(),
        ast::BinOp::Ne => "Ne".to_string(),
        ast::BinOp::Lt => "Lt".to_string(),
        ast::BinOp::Le => "Le".to_string(),
        ast::BinOp::Gt => "Gt".to_string(),
        ast::BinOp::Ge => "Ge".to_string(),
    }
}

pub(crate) fn op_type_err(op: ast::BinOp, ty: &Type, span: Span) -> (r: Diagnostic)
    ensures
        r@ == typing::op_error(op, ty@, span),
{
    reveal(typing::op_error);
    let n = op_name(op);
    let t = ty.to_text();
    type_error(
        cat5("operator `", n.as_str(), "` is not defined for type `", t.as_str(), "`"),
        span,
    )
}

pub(crate) fn binary_expr(op: ast::BinOp, l: Expr, r: Expr, ty: Type) -> (e: Expr)
    ensures
        e@ == typing::binary_expr(op, l@, r@, ty@),
{
    Expr::new(
        ExprKind::Binary { op: lower_binop(op), lhs: Box::new(l), rhs: Box::new(r) },
        ty,
    )
}

/// A comparison, arithmetic or bitwise operator on two typed operands.
pub(crate) fn operator_rule(op: ast::BinOp, l: Expr, r: Expr, span: Span) -> (x: Result<
    Expr,
    Diagnostic,
>)
    ensures
        said(x) == typing::operator_rule(op, l@, r@, span),
{
    reveal(typing::operator_rule);
    proof {
        lemma_expr_type(l);
        lemma_expr_type(r);
        ir::lemma_plain_nodes();
    }
    let irop = lower_binop(op);
    let ty = l.ty.dup();
    let t = ty.to_text();
    if !l.ty.same(&r.ty) {
        let rt = r.ty.to_text();
        return Err(
            type_error(
                cat5("mismatched types: `", t.as_str(), "` and `", rt.as_str(), "`"),
                span,
            ),
        );
    }
    let equality = match irop {
        BinOp::Eq => true,
        BinOp::Ne => true,
        _ => false,
    };
    if equality {
        if ty.is_integer() || ty.same(&Type::Bool) {
            Ok(binary_expr(op, l, r, Type::Bool))
        } else {
            Err(type_error(cat3("cannot compare values of type `", t.as_str(), "`"), span))
        }
    } else if irop.is_comparison() {
        if ty.is_integer() {
            Ok(binary_expr(op, l, r, Type::Bool))
        } else {
            Err(type_error(cat3("cannot order values of type `", t.as_str(), "`"), span))
        }
    } else if ty.is_integer() {
        Ok(binary_expr(op, l, r, ty))
    } else {
        Err(op_type_err(op, &ty, span))
    }
}

/// A bare integer literal, possibly negated.
pub(crate) fn is_int_literalish(e: &ast::Expr) -> (r: bool)
    ensures
        r == typing::literalish(e@),
    decreases e,
{
    reveal(ast::Expr::model);
    match e {
        ast::Expr::Int { value: _, span: _ } => true,
        ast::Expr::Unary { op, expr, span: _ } => match op {
            ast::UnOp::Neg => is_int_literalish(expr),
            ast::UnOp::Not => false,
        },
        _ => false,
    }
}

/// Whether a shift amount is a literal that fits the type of what is shifted.
pub(crate) fn amount_fits(rhs: &ast::Expr, ty: &Type) -> (r: bool)
    ensures
        r == typing::amount_context(rhs@, ty@) is Some,
        r ==> typing::amount_context(rhs@, ty@) == Some(ty@),
{
    reveal(ast::Expr::model);
    match rhs {
        ast::Expr::Int { value, span: _ } => fits(*value, ty),
        _ => false,
    }
}

/// The path of a callee.
pub(crate) fn callee_path(e: &ast::Expr) -> (r: Option<Vec<String>>)
    ensures
        match r {
            Some(p) => typing::callee_path(e@) == Some(text::texts(p@)),
            None => typing::callee_path(e@) is None,
        },
{
    reveal(ast::Expr::model);
    match e {
        ast::Expr::Ident { name, span: _ } => {
            let mut segs: Vec<String> = Vec::new();
            segs.push(name.clone());
            assert(text::texts(segs@) =~= seq![name@]);
            Some(segs)
        },
        ast::Expr::Path { segments, span: _ } => Some(text::copy_texts(segments)),
        _ => None,
    }
}

/// What a call calls.
pub enum Target<'a> {
    Print,
    Variant(String, usize, &'a Vec<Type>),
    Function(String, &'a ir::Signature),
}

impl<'a> View for Target<'a> {
    type V = Callee;

    open spec fn view(&self) -> Callee {
        match self {
            Target::Print => Callee::Print,
            Target::Variant(n, tag, tys) => Callee::Variant(n@, *tag, ir::types_of(tys@)),
            Target::Function(n, sig) => Callee::Function(n@, sig@),
        }
    }
}

pub(crate) fn callee_rule<'a>(s: &Spot<'a>, segs: &Vec<String>, count: usize, span: Span) -> (r:
    Result<Target<'a>, Diagnostic>)
    ensures
        match r {
            Ok(t) => typing::callee_rule(s@, text::texts(segs@), count as nat, span) == Ok::<
                Callee,
                Diag,
            >(t@),
            Err(d) => typing::callee_rule(s@, text::texts(segs@), count as nat, span) == Err::<
                Callee,
                Diag,
            >(d@),
        },
{
    reveal(typing::callee_rule);
    let name = path_text(segs);
    let n = usize_text(count);
    let builtin = segs.len() == 1 && str_eq(segs[0].as_str(), "print");
    assert(builtin == (text::texts(segs@) == seq!["print"@])) by {
        if builtin {
            assert(text::texts(segs@) =~= seq!["print"@]);
        }
        if text::texts(segs@) == seq!["print"@] {
            assert(text::texts(segs@)[0] == segs[0]@);
            assert(text::texts(segs@).len() == 1);
        }
    }
    if builtin {
        if count == 1 {
            return Ok(Target::Print);
        }
        return Err(
            type_error(cat2("`print` takes exactly 1 argument, found ", n.as_str()), span),
        );
    }
    match find_variant(s.defs, s.module, segs) {
        Some((en, tag, fields)) => {
            if count == fields.len() {
                return Ok(Target::Variant(en, tag, fields));
            }
            let k = usize_text(fields.len());
            Err(
                type_error(
                    cat6(
                        "variant `",
                        name.as_str(),
                        "` takes ",
                        k.as_str(),
                        " argument(s), found ",
                        n.as_str(),
                    ),
                    span,
                ),
            )
        },
        None => match look_up(&s.defs.funcs, &s.defs.imports, s.module, segs) {
            Some((full, sig)) => {
                if count == sig.params.len() {
                    return Ok(Target::Function(full, sig));
                }
                let k = usize_text(sig.params.len());
                Err(
                    type_error(
                        cat6(
                            "function `",
                            name.as_str(),
                            "` takes ",
                            k.as_str(),
                            " argument(s), found ",
                            n.as_str(),
                        ),
                        span,
                    ),
                )
            },
            None => Err(type_error(cat3("unknown function `", name.as_str(), "`"), span)),
        },
    }
}

pub(crate) fn print_rule(arg: Expr, span: Span) -> (r: Result<Expr, Diagnostic>)
    ensures
        said(r) == typing::print_rule(arg@, span),
{
    reveal(typing::print_rule);
    proof {
        lemma_expr_type(arg);
        ir::lemma_plain_nodes();
    }
    if arg.ty.same(&Type::Unit) {
        Err(type_error("cannot print a value of type `()`".to_string(), span))
    } else {
        Ok(Expr::new(ExprKind::Print { arg: Box::new(arg) }, Type::Unit))
    }
}

pub(crate) fn arg_rule(got: &Type, want: &Type, what: &str, span: Span) -> (r: Result<
    (),
    Diagnostic,
>)
    ensures
        passed(r) == typing::arg_rule(got@, want@, what@, span),
{
    reveal(typing::arg_rule);
    if got.same(want) {
        Ok(())
    } else {
        let w = want.to_text();
        let g = got.to_text();
        Err(
            type_error(
                cat7("expected `", w.as_str(), "` for ", what, ", found `", g.as_str(), "`"),
                span,
            ),
        )
    }
}

pub(crate) fn elements_differ(want: &Type, got: &Type, span: Span) -> (r: Diagnostic)
    ensures
        r@ == typing::elements_differ(want@, got@, span),
{
    reveal(typing::elements_differ);
    let w = want.to_text();
    let g = got.to_text();
    type_error(
        cat5(
            "array elements must share a type; found `",
            w.as_str(),
            "` and `",
            g.as_str(),
            "`",
        ),
        span,
    )
}

/// The element type that the context of an array literal expects.
pub(crate) fn array_context(expected: Option<&Type>) -> (r: Option<Type>)
    ensures
        text::option_view(r) == typing::array_context(hint(expected)),
{
    reveal(Type::model);
    match expected {
        Some(t) => match t {
            Type::Array(e, _) => Some(e.dup()),
            _ => None,
        },
        None => None,
    }
}

/// An array literal without elements.
pub(crate) fn empty_array(expected: Option<&Type>, span: Span) -> (r: Result<Expr, Diagnostic>)
    ensures
        said(r) == typing::empty_array(hint(expected), span),
{
    reveal(typing::empty_array);
    reveal(Type::model);
    if let Some(t) = expected {
        if let Type::Array(e, n) = t {
            if *n == 0 {
                let es: Vec<Expr> = Vec::new();
                assert(ir::exprs_of(es@) =~= Seq::<TExpr>::empty());
                return Ok(Expr::new(ExprKind::Array(es), Type::Array(Box::new(e.dup()), 0)));
            }
        }
    }
    Err(
        type_error(
            "cannot infer the type of an empty array literal; add a type annotation".to_string(),
            span,
        ),
    )
}

/// The type that the context of a tuple literal expects of an element.
pub(crate) fn tuple_context<'a>(expected: Option<&'a Type>, i: usize, count: usize) -> (r: Option<
    &'a Type,
>)
    ensures
        hint(r) == typing::tuple_context(hint(expected), i as int, count as nat),
{
    reveal(Type::model);
    if count == 1 {
        return expected;
    }
    match expected {
        Some(t) => match t {
            Type::Tuple(ts) => if ts.len() == count && i < ts.len() {
                assert(ir::types_of(ts@)[i as int] == ts[i as int]@);
                Some(&ts[i])
            } else {
                None
            },
            _ => None,
        },
        None => None,
    }
}

/// The tuple of the given elements.
pub(crate) fn tuple_expr(es: Vec<Expr>) -> (r: Expr)
    ensures
        r@ == typing::tuple_expr(ir::exprs_of(es@)),
{
    reveal(typing::tuple_expr);
    proof {
        ir::lemma_plain_nodes();
    }
    if es.len() == 0 {
        return Expr::new(ExprKind::Unit, Type::Unit);
    }
    if es.len() == 1 {
        let mut one = es;
        assert(ir::exprs_of(one@)[0] == one[0]@);
        return one.swap_remove(0);
    }
    let mut tys: Vec<Type> = Vec::new();
    let mut i: usize = 0;
    while i < es.len()
        invariant
            i <= es.len(),
            tys.len() == i,
            forall|j: int| 0 <= j < i ==> #[trigger] tys[j]@ == es[j].ty@,
        decreases es.len() - i,
    {
        tys.push(es[i].ty.dup());
        i += 1;
    }
    assert(ir::types_of(tys@) =~= typing::expr_types(ir::exprs_of(es@))) by {
        assert forall|j: int| 0 <= j < es.len() implies ir::types_of(tys@)[j]
            == typing::expr_types(ir::exprs_of(es@))[j] by {
            lemma_expr_type(es[j]);
            assert(ir::exprs_of(es@)[j] == es[j]@);
            assert(ir::types_of(tys@)[j] == tys[j]@);
        }
    }
    Expr::new(ExprKind::MakeTuple(es), Type::Tuple(tys))
}

// ---- struct literals ----------------------------------------------------

fn given_before(fields: &Vec<(String, ast::Expr)>, name: &String, i: usize) -> (r: bool)
    requires
        i <= fields.len(),
    ensures
        r == typing::given_before(ast::inits_of(fields@), name@, i as int),
{
    let ghost m = ast::inits_of(fields@);
    let mut k: usize = 0;
    while k < i
        invariant
            k <= i <= fields.len(),
            m == ast::inits_of(fields@),
            forall|j: int| 0 <= j < k ==> (#[trigger] m[j]).0 != name@,
        decreases i - k,
    {
        assert(m[k as int] == (fields[k as int].0@, fields[k as int].1@));
        if str_eq(fields[k].0.as_str(), name.as_str()) {
            return true;
        }
        k += 1;
    }
    false
}

fn repeated_field(fields: &Vec<(String, ast::Expr)>) -> (r: Option<usize>)
    ensures
        match r {
            Some(k) => typing::repeated_field(ast::inits_of(fields@), 0) == Some(k as int) && k
                < fields.len(),
            None => typing::repeated_field(ast::inits_of(fields@), 0) is None,
        },
{
    let ghost m = ast::inits_of(fields@);
    let mut i: usize = 0;
    while i < fields.len()
        invariant
            i <= fields.len(),
            m == ast::inits_of(fields@),
            typing::repeated_field(m, 0) == typing::repeated_field(m, i as int),
        decreases fields.len() - i,
    {
        assert(m[i as int] == (fields[i as int].0@, fields[i as int].1@));
        if given_before(fields, &fields[i].0, i) {
            return Some(i);
        }
        i += 1;
    }
    None
}

/// The position of the initialiser of the field `name`.
pub(crate) fn init_of(fields: &Vec<(String, ast::Expr)>, name: &String) -> (r: Option<usize>)
    ensures
        match r {
            Some(k) => typing::init_of(ast::inits_of(fields@), name@, 0) == Some(k as int) && k
                < fields.len(),
            None => typing::init_of(ast::inits_of(fields@), name@, 0) is None,
        },
{
    let ghost m = ast::inits_of(fields@);
    let mut i: usize = 0;
    while i < fields.len()
        invariant
            i <= fields.len(),
            m == ast::inits_of(fields@),
            typing::init_of(m, name@, 0) == typing::init_of(m, name@, i as int),
        decreases fields.len() - i,
    {
        assert(m[i as int] == (fields[i as int].0@, fields[i as int].1@));
        if str_eq(fields[i].0.as_str(), name.as_str()) {
            return Some(i);
        }
        i += 1;
    }
    None
}

fn has_field(sd: &Vec<Field>, name: &String) -> (r: bool)
    ensures
        r == ir::field_from(ir::fields_of(sd@), name@, 0) is Some,
{
    let ghost m = ir::fields_of(sd@);
    let mut i: usize = 0;
    while i < sd.len()
        invariant
            i <= sd.len(),
            m == ir::fields_of(sd@),
            ir::field_from(m, name@, 0) == ir::field_from(m, name@, i as int),
        decreases sd.len() - i,
    {
        assert(m[i as int] == sd[i as int]@);
        if str_eq(sd[i].name.as_str(), name.as_str()) {
            return true;
        }
        i += 1;
    }
    false
}

fn extra_field(fields: &Vec<(String, ast::Expr)>, sd: &Vec<Field>) -> (r: Option<usize>)
    ensures
        match r {
            Some(k) => typing::extra_field(ast::inits_of(fields@), ir::fields_of(sd@), 0) == Some(
                k as int,
            ) && k < fields.len(),
            None => typing::extra_field(ast::inits_of(fields@), ir::fields_of(sd@), 0) is None,
        },
{
    let ghost m = ast::inits_of(fields@);
    let ghost d = ir::fields_of(sd@);
    let mut i: usize = 0;
    while i < fields.len()
        invariant
            i <= fields.len(),
            m == ast::inits_of(fields@),
            d == ir::fields_of(sd@),
            typing::extra_field(m, d, 0) == typing::extra_field(m, d, i as int),
        decreases fields.len() - i,
    {
        assert(m[i as int] == (fields[i as int].0@, fields[i as int].1@));
        if !has_field(sd, &fields[i].0) {
            return Some(i);
        }
        i += 1;
    }
    None
}

/// The struct that a struct literal makes.
pub(crate) fn struct_of<'a>(
    s: &Spot<'a>,
    path: &Vec<String>,
    fields: &Vec<(String, ast::Expr)>,
    span: Span,
) -> (r: Result<(String, &'a Vec<Field>), Diagnostic>)
    ensures
        match r {
            Ok((n, d)) => typing::struct_of(s@, text::texts(path@), ast::inits_of(fields@), span)
                == Ok::<(Text, Seq<TField>), Diag>((n@, ir::fields_of(d@))),
            Err(d) => typing::struct_of(s@, text::texts(path@), ast::inits_of(fields@), span)
                == Err::<(Text, Seq<TField>), Diag>(d@),
        },
{
    reveal(typing::struct_of);
    reveal(typing::twice_field);
    match look_up(&s.defs.structs, &s.defs.imports, s.module, path) {
        None => {
            let p = path_text(path);
            Err(type_error(cat3("unknown struct `", p.as_str(), "`"), span))
        },
        Some((full, sd)) => match repeated_field(fields) {
            Some(k) => {
                assert(ast::inits_of(fields@)[k as int] == (
                    fields[k as int].0@,
                    fields[k as int].1@,
                ));
                Err(
                    type_error(
                        cat3("field `", fields[k].0.as_str(), "` specified more than once"),
                        fields[k].1.span(),
                    ),
                )
            },
            None => Ok((full, &sd.fields)),
        },
    }
}

/// A struct literal with its typed field values.
pub(crate) fn struct_rule(
    full: String,
    fields: &Vec<(String, ast::Expr)>,
    sd: &Vec<Field>,
    name: &String,
    vs: Vec<Expr>,
) -> (r: Result<Expr, Diagnostic>)
    ensures
        said(r) == typing::struct_rule(
            full@,
            ast::inits_of(fields@),
            ir::fields_of(sd@),
            name@,
            ir::exprs_of(vs@),
        ),
{
    reveal(typing::struct_rule);
    reveal(typing::no_such_field);
    match extra_field(fields, sd) {
        Some(k) => {
            assert(ast::inits_of(fields@)[k as int] == (fields[k as int].0@, fields[k as int].1@));
            Err(
                type_error(
                    cat5(
                        "struct `",
                        name.as_str(),
                        "` has no field `",
                        fields[k].0.as_str(),
                        "`",
                    ),
                    fields[k].1.span(),
                ),
            )
        },
        None => Ok(
            Expr::new(
                ExprKind::MakeStruct { name: full.clone(), fields: vs },
                Type::Struct(full),
            ),
        ),
    }
}

pub(crate) fn field_rule(f: &Field, name: &String, got: &Type, span: Span) -> (r: Result<
    (),
    Diagnostic,
>)
    ensures
        passed(r) == typing::field_rule(f@, name@, got@, span),
{
    reveal(typing::field_rule);
    if got.same(&f.ty) {
        Ok(())
    } else {
        let w = f.ty.to_text();
        let g = got.to_text();
        Err(
            type_error(
                cat9(
                    "field `",
                    f.name.as_str(),
                    "` of `",
                    name.as_str(),
                    "` expects `",
                    w.as_str(),
                    "`, found `",
                    g.as_str(),
                    "`",
                ),
                span,
            ),
        )
    }
}

pub(crate) fn missing_field(field: &String, name: &String, span: Span) -> (r: Diagnostic)
    ensures
        r@ == typing::missing_field(field@, name@, span),
{
    reveal(typing::missing_field);
    type_error(cat5("missing field `", field.as_str(), "` in `", name.as_str(), "` literal"), span)
}

// ---- branches -----------------------------------------------------------

pub(crate) fn tail_block(e: Expr) -> (r: Block)
    ensures
        r@ == typing::tail_block(e@),
{
    proof {
        lemma_expr_type(e);
    }
    let ty = e.ty.dup();
    let stmts: Vec<ir::Stmt> = Vec::new();
    assert(ir::stmts_of(stmts@) =~= Seq::<ir::TStmt>::empty());
    Block { stmts, tail: Some(Box::new(e)), ty }
}

fn unit_block() -> (r: Block)
    ensures
        r@ == typing::unit_block(),
{
    proof {
        ir::lemma_plain_nodes();
    }
    let stmts: Vec<ir::Stmt> = Vec::new();
    assert(ir::stmts_of(stmts@) =~= Seq::<ir::TStmt>::empty());
    Block { stmts, tail: None, ty: Type::Unit }
}

pub(crate) fn branches_rule(cond: Expr, t: Block, e: Block, span: Span) -> (r: Result<
    Expr,
    Diagnostic,
>)
    ensures
        said(r) == typing::branches_rule(cond@, t@, e@, span),
{
    reveal(typing::branches_rule);
    proof {
        lemma_block_type(t);
        lemma_block_type(e);
    }
    if t.ty.same(&e.ty) {
        let ty = t.ty.dup();
        Ok(
            Expr::new(
                ExprKind::If { cond: Box::new(cond), then_branch: t, else_branch: e },
                ty,
            ),
        )
    } else {
        let a = t.ty.to_text();
        let b = e.ty.to_text();
        Err(
            type_error(
                cat5(
                    "`if` and `else` branches have different types: `",
                    a.as_str(),
                    "` vs `",
                    b.as_str(),
                    "`",
                ),
                span,
            ),
        )
    }
}

pub(crate) fn lone_if_rule(cond: Expr, t: Block, span: Span) -> (r: Result<Expr, Diagnostic>)
    ensures
        said(r) == typing::lone_if_rule(cond@, t@, span),
{
    reveal(typing::lone_if_rule);
    proof {
        lemma_block_type(t);
        ir::lemma_plain_nodes();
    }
    if t.ty.same(&Type::Unit) {
        Ok(
            Expr::new(
                ExprKind::If { cond: Box::new(cond), then_branch: t, else_branch: unit_block() },
                Type::Unit,
            ),
        )
    } else {
        let a = t.ty.to_text();
        Err(
            type_error(
                cat3("`if` without `else` must have type `()`, found `", a.as_str(), "`"),
                span,
            ),
        )
    }
}

pub(crate) fn arms_differ(want: &Type, got: &Type, span: Span) -> (r: Diagnostic)
    ensures
        r@ == typing::arms_differ(want@, got@, span),
{
    reveal(typing::arms_differ);
    let w = want.to_text();
    let g = got.to_text();
    type_error(
        cat5("match arms have different types: `", w.as_str(), "` vs `", g.as_str(), "`"),
        span,
    )
}

// ---- statements ---------------------------------------------------------

pub(crate) fn let_rule(name: &String, want: &Option<Type>, got: &Type, span: Span) -> (r: Result<
    (),
    Diagnostic,
>)
    ensures
        passed(r) == typing::let_rule(name@, text::option_view(*want), got@, span),
{
    reveal(typing::let_rule);
    proof {
        ir::lemma_plain_nodes();
    }
    if let Some(t) = want {
        if !t.same(got) {
            let w = t.to_text();
            let g = got.to_text();
            return Err(
                type_error(
                    cat7(
                        "`let ",
                        name.as_str(),
                        "` annotated `",
                        w.as_str(),
                        "` but initializer has type `",
                        g.as_str(),
                        "`",
                    ),
                    span,
                ),
            );
        }
    }
    if got.same(&Type::Unit) {
        return Err(
            type_error(
                cat3("cannot bind `", name.as_str(), "` to a value of type `()`"),
                span,
            ),
        );
    }
    Ok(())
}

pub(crate) fn assign_rule(got: &Type, want: &Type, span: Span) -> (r: Result<(), Diagnostic>)
    ensures
        passed(r) == typing::assign_rule(got@, want@, span),
{
    reveal(typing::assign_rule);
    if got.same(want) {
        Ok(())
    } else {
        let g = got.to_text();
        let w = want.to_text();
        Err(
            type_error(
                cat5(
                    "cannot assign value of type `",
                    g.as_str(),
                    "` to place of type `",
                    w.as_str(),
                    "`",
                ),
                span,
            ),
        )
    }
}

pub(crate) fn bound_rule(ty: &Type, span: Span) -> (r: Result<(), Diagnostic>)
    ensures
        passed(r) == typing::bound_rule(ty@, span),
{
    reveal(typing::bound_rule);
    if ty.is_integer() {
        Ok(())
    } else {
        let t = ty.to_text();
        Err(type_error(cat3("for-loop bounds must be integers, found `", t.as_str(), "`"), span))
    }
}

pub(crate) fn bounds_rule(lo: &Type, hi: &Type, span: Span) -> (r: Result<(), Diagnostic>)
    ensures
        passed(r) == typing::bounds_rule(lo@, hi@, span),
{
    reveal(typing::bounds_rule);
    if lo.same(hi) {
        Ok(())
    } else {
        let a = lo.to_text();
        let b = hi.to_text();
        Err(
            type_error(
                cat5(
                    "for-loop bounds must have the same type; found `",
                    a.as_str(),
                    "` and `",
                    b.as_str(),
                    "`",
                ),
                span,
            ),
        )
    }
}

pub(crate) fn return_rule(got: Option<&Type>, ret: &Type, span: Span) -> (r: Result<
    (),
    Diagnostic,
>)
    ensures
        passed(r) == typing::return_rule(hint(got), ret@, span),
{
    reveal(typing::return_rule);
    proof {
        ir::lemma_plain_nodes();
    }
    let w = ret.to_text();
    match got {
        Some(t) => if t.same(ret) {
            Ok(())
        } else {
            let g = t.to_text();
            Err(
                type_error(
                    cat5(
                        "returning `",
                        g.as_str(),
                        "` from a function returning `",
                        w.as_str(),
                        "`",
                    ),
                    span,
                ),
            )
        },
        None => if ret.same(&Type::Unit) {
            Ok(())
        } else {
            Err(
                type_error(
                    cat3("`return;` in a function returning `", w.as_str(), "`"),
                    span,
                ),
            )
        },
    }
}

} // verus!
