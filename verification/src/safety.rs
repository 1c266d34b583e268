//! The safety of checked programs: a program that the checker accepts evaluates to
//! values of the declared types, and traps only where the language defines a trap.

use crate::ast::{AConstDef, AFunc, AItem, AParam, AProgram, ATypeExpr, AVariantDef};
use crate::checking;
use crate::diagnostic::Diag;
use crate::ir::{self, TConst, TEnum, TFunc, TModule, TParam, TSig, TStruct, TType, TVariant};
use crate::name_map::{self, Table};
use crate::program::{self, Built, Gathered, Placed};
use crate::purity;
use crate::semantics::{self, Flow, Mem};
use crate::soundness;
use crate::span::Span;
use crate::text::Text;
use crate::typing::{self, Defs, Site};
use crate::value::VVal;
use crate::welltyped;
use vstd::prelude::*;

verus! {

// ---- what types mean ----------------------------------------------------

/// Whether the same types and imports are in scope.
pub open spec fn same_types(a: Defs, b: Defs) -> bool {
    a.structs == b.structs && a.enums == b.enums && a.imports == b.imports
}

pub proof fn lemma_resolve(a: Defs, b: Defs, m: Text, t: ATypeExpr, span: Span)
    requires
        same_types(a, b),
    ensures
        typing::resolve(a, m, t, span) == typing::resolve(b, m, t, span),
    decreases t, 0int,
{
    match t {
        ATypeExpr::Array { elem, len } => lemma_resolve(a, b, m, *elem, span),
        ATypeExpr::Tuple(ts) => lemma_resolve_all(a, b, m, ts, span, 0, Seq::empty()),
        _ => {},
    }
}

proof fn lemma_resolve_all(
    a: Defs,
    b: Defs,
    m: Text,
    ts: Seq<ATypeExpr>,
    span: Span,
    i: int,
    acc: Seq<TType>,
)
    requires
        same_types(a, b),
    ensures
        typing::resolve_all(a, m, ts, span, i, acc) == typing::resolve_all(b, m, ts, span, i, acc),
    decreases ts, ts.len() - i,
{
    if 0 <= i < ts.len() {
        lemma_resolve(a, b, m, ts[i], span);
        match typing::resolve(a, m, ts[i], span) {
            Ok(t) => lemma_resolve_all(a, b, m, ts, span, i + 1, acc.push(t)),
            Err(_) => {},
        }
    }
}

proof fn lemma_has_type(a: Defs, b: Defs, v: VVal, t: TType)
    requires
        a.structs == b.structs,
        a.enums == b.enums,
    ensures
        welltyped::has_type(a, v, t) == welltyped::has_type(b, v, t),
    decreases v, 0int,
{
    match t {
        TType::Array(e, n) => match v {
            VVal::Array(xs) => lemma_each_typed(a, b, xs, *e, 0),
            _ => {},
        },
        TType::Struct(name) => match v {
            VVal::Struct(n2, xs) => match name_map::find(a.structs, name) {
                Some(sd) => lemma_all_typed(a, b, xs, welltyped::field_types(sd), 0),
                None => {},
            },
            _ => {},
        },
        TType::Enum(name) => match v {
            VVal::Enum(n2, tag, xs) => match name_map::find(a.enums, name) {
                Some(ed) => lemma_all_typed(a, b, xs, ed.variants[tag as int].fields, 0),
                None => {},
            },
            _ => {},
        },
        TType::Tuple(ts) => match v {
            VVal::Tuple(xs) => lemma_all_typed(a, b, xs, ts, 0),
            _ => {},
        },
        _ => {},
    }
}

proof fn lemma_each_typed(a: Defs, b: Defs, xs: Seq<VVal>, t: TType, i: int)
    requires
        a.structs == b.structs,
        a.enums == b.enums,
    ensures
        welltyped::each_typed(a, xs, t, i) == welltyped::each_typed(b, xs, t, i),
    decreases xs, xs.len() - i,
{
    if 0 <= i < xs.len() {
        lemma_has_type(a, b, xs[i], t);
        lemma_each_typed(a, b, xs, t, i + 1);
    }
}

proof fn lemma_all_typed(a: Defs, b: Defs, xs: Seq<VVal>, ts: Seq<TType>, i: int)
    requires
        a.structs == b.structs,
        a.enums == b.enums,
    ensures
        welltyped::all_typed(a, xs, ts, i) == welltyped::all_typed(b, xs, ts, i),
    decreases xs, xs.len() - i,
{
    if 0 <= i < xs.len() {
        lemma_has_type(a, b, xs[i], ts[i]);
        lemma_all_typed(a, b, xs, ts, i + 1);
    }
}

// ---- declarations -------------------------------------------------------

/// Whether functions and constants are those of before, and complaints are at
/// least those.
pub open spec fn kept(a: Gathered, b: Gathered) -> bool {
    a.defs.funcs == b.defs.funcs && a.defs.consts == b.defs.consts && a.diags.len()
        <= b.diags.len()
}

pub proof fn lemma_declare_all(g: Gathered, its: Seq<Placed>, i: int)
    ensures
        kept(g, program::declare_all(g, its, i)),
    decreases its.len() - i,
{
    if 0 <= i < its.len() {
        reveal(program::declare);
        lemma_declare_all(program::declare(g, its[i]), its, i + 1);
    }
}

proof fn lemma_payload(
    defs: Defs,
    m: Text,
    ts: Seq<ATypeExpr>,
    span: Span,
    i: int,
    acc: Seq<TType>,
    ds: Seq<Diag>,
)
    ensures
        ds.len() <= program::payload(defs, m, ts, span, i, acc, ds).1.len(),
    decreases ts.len() - i,
{
    if 0 <= i < ts.len() {
        match typing::resolve(defs, m, ts[i], span) {
            Ok(t) => lemma_payload(defs, m, ts, span, i + 1, acc.push(t), ds),
            Err(d) => lemma_payload(defs, m, ts, span, i + 1, acc, ds.push(d)),
        }
    }
}

proof fn lemma_add_variant(g: Gathered, m: Text, full: Text, v: AVariantDef, tag: usize)
    ensures
        kept(g, program::add_variant(g, m, full, v, tag).0),
{
    reveal(program::add_variant);
    let own = typing::qualify(m, v.name);
    let ds = match name_map::find(g.defs.variants, own) {
        Some((prev, _)) => g.diags.push(
            typing::type_error(
                "variant name `"@ + v.name + "` already used (in enum `"@ + prev
                    + "`); variant names must be unique"@,
                v.span,
            ),
        ),
        None => g.diags,
    };
    let defs = program::add_variant(g, m, full, v, tag).0.defs;
    lemma_payload(defs, m, v.fields, v.span, 0, Seq::empty(), ds);
}

pub proof fn lemma_enum_variants(
    g: Gathered,
    m: Text,
    full: Text,
    vs: Seq<AVariantDef>,
    i: int,
    acc: Seq<TVariant>,
)
    ensures
        kept(g, program::enum_variants(g, m, full, vs, i, acc).0),
    decreases vs.len() - i,
{
    if 0 <= i < vs.len() {
        lemma_add_variant(g, m, full, vs[i], i as usize);
        let (g1, v) = program::add_variant(g, m, full, vs[i], i as usize);
        lemma_enum_variants(g1, m, full, vs, i + 1, acc.push(v));
    }
}

proof fn lemma_struct_fields(
    defs: Defs,
    m: Text,
    full: Text,
    fs: Seq<crate::ast::AFieldDef>,
    i: int,
    acc: Seq<ir::TField>,
    ds: Seq<Diag>,
)
    ensures
        ds.len() <= program::struct_fields(defs, m, full, fs, i, acc, ds).1.len(),
    decreases fs.len() - i,
{
    if 0 <= i < fs.len() {
        let f = fs[i];
        let ds1 = if program::named_before(fs, f.name, i) {
            ds.push(
                typing::type_error(
                    "duplicate field `"@ + f.name + "` in struct `"@ + full + "`"@,
                    f.span,
                ),
            )
        } else {
            ds
        };
        match typing::resolve(defs, m, f.ty, f.span) {
            Ok(ty) => lemma_struct_fields(
                defs,
                m,
                full,
                fs,
                i + 1,
                acc.push(ir::TField { name: f.name, ty }),
                ds1,
            ),
            Err(d) => lemma_struct_fields(defs, m, full, fs, i + 1, acc, ds1.push(d)),
        }
    }
}

pub proof fn lemma_fill(g: Gathered, it: Placed)
    ensures
        kept(g, program::fill(g, it)),
{
    reveal(program::fill);
    match it.1 {
        AItem::Struct(s) => {
            let full = typing::qualify(it.0, s.name);
            lemma_struct_fields(g.defs, it.0, full, s.fields, 0, Seq::empty(), g.diags);
        },
        AItem::Enum(e) => {
            let full = typing::qualify(it.0, e.name);
            lemma_enum_variants(g, it.0, full, e.variants, 0, Seq::empty());
        },
        _ => {},
    }
}

pub proof fn lemma_fill_all(g: Gathered, its: Seq<Placed>, i: int)
    ensures
        kept(g, program::fill_all(g, its, i)),
    decreases its.len() - i,
{
    if 0 <= i < its.len() {
        lemma_fill(g, its[i]);
        lemma_fill_all(program::fill(g, its[i]), its, i + 1);
    }
}

// ---- signatures ---------------------------------------------------------

/// The signature that a function declares.
pub open spec fn declared_sig(d: Defs, m: Text, f: AFunc) -> TSig {
    TSig {
        params: program::param_types(d, m, f.params, 0, Seq::empty()),
        ret: match program::return_type(d, m, f.ret, f.span) {
            Ok(t) => t,
            Err(_) => TType::Unit,
        },
    }
}

proof fn lemma_param_types(a: Defs, b: Defs, m: Text, ps: Seq<AParam>, i: int, acc: Seq<TType>)
    requires
        same_types(a, b),
    ensures
        program::param_types(a, m, ps, i, acc) == program::param_types(b, m, ps, i, acc),
    decreases ps.len() - i,
{
    if 0 <= i < ps.len() {
        lemma_resolve(a, b, m, ps[i].ty, ps[i].span);
        match typing::resolve(a, m, ps[i].ty, ps[i].span) {
            Ok(t) => lemma_param_types(a, b, m, ps, i + 1, acc.push(t)),
            Err(_) => lemma_param_types(a, b, m, ps, i + 1, acc),
        }
    }
}

pub proof fn lemma_declared_sig(a: Defs, b: Defs, m: Text, f: AFunc)
    requires
        same_types(a, b),
    ensures
        declared_sig(a, m, f) == declared_sig(b, m, f),
{
    lemma_param_types(a, b, m, f.params, 0, Seq::empty());
    match f.ret {
        Some(t) => lemma_resolve(a, b, m, t, f.span),
        None => {},
    }
}

/// Whether an item's signature or type is known.
pub open spec fn announced(d: Defs, it: Placed) -> bool {
    match it.1 {
        AItem::Func(f) => name_map::find(d.funcs, typing::qualify(it.0, f.name)) == Some(
            declared_sig(d, it.0, f),
        ),
        AItem::Const(c) => match typing::resolve(d, it.0, c.ty, c.span) {
            Ok(t) => name_map::find(d.consts, typing::qualify(it.0, c.name)) == Some(t),
            Err(_) => true,
        },
        _ => true,
    }
}

/// Whether an item is the function called `n`.
pub open spec fn is_func(it: Placed, n: Text) -> bool {
    it.1 matches AItem::Func(f) && typing::qualify(it.0, f.name) == n
}

/// Whether an item is the constant called `n`.
pub open spec fn is_const(it: Placed, n: Text) -> bool {
    it.1 matches AItem::Const(c) && typing::qualify(it.0, c.name) == n
}

/// What announcing the items from position `i` on leads to.
pub open spec fn announces(g: Gathered, its: Seq<Placed>, i: int, r: Gathered) -> bool {
    &&& same_types(g.defs, r.defs)
    &&& g.diags.len() <= r.diags.len()
    &&& name_map::sorted(r.defs.funcs)
    &&& name_map::sorted(r.defs.consts)
    &&& forall|n: Text| #[trigger]
        name_map::find(g.defs.funcs, n) is Some ==> name_map::find(r.defs.funcs, n)
            == name_map::find(g.defs.funcs, n)
    &&& forall|n: Text| #[trigger]
        name_map::find(g.defs.consts, n) is Some ==> name_map::find(r.defs.consts, n)
            == name_map::find(g.defs.consts, n)
    &&& forall|n: Text| #[trigger]
        name_map::find(r.defs.funcs, n) is Some ==> name_map::find(g.defs.funcs, n) is Some
            || exists|j: int| i <= j < its.len() && is_func(#[trigger] its[j], n)
    &&& forall|n: Text| #[trigger]
        name_map::find(r.defs.consts, n) is Some ==> name_map::find(g.defs.consts, n) is Some
            || exists|j: int| i <= j < its.len() && is_const(#[trigger] its[j], n)
    &&& g.diags.len() == r.diags.len() ==> forall|j: int|
        i <= j < its.len() ==> announced(r.defs, #[trigger] its[j])
}

pub proof fn lemma_announce(g: Gathered, it: Placed)
    requires
        name_map::sorted(g.defs.funcs),
        name_map::sorted(g.defs.consts),
    ensures
        announces(g, seq![it], 0, program::announce(g, it)),
{
    reveal(program::announce);
    let r = program::announce(g, it);
    match it.1 {
        AItem::Func(f) => {
            let full = typing::qualify(it.0, f.name);
            if name_map::find(g.defs.funcs, full) is None {
                let sig = declared_sig(g.defs, it.0, f);
                lemma_declared_sig(g.defs, r.defs, it.0, f);
                name_map::law_put_keeps_sorted(g.defs.funcs, full, sig);
                assert(is_func(seq![it][0], full));
                assert forall|n: Text| #[trigger] name_map::find(r.defs.funcs, n)
                    == if n == full {
                    Some(sig)
                } else {
                    name_map::find(g.defs.funcs, n)
                } by {
                    name_map::law_put_then_find(g.defs.funcs, full, sig, n);
                }
            }
        },
        AItem::Const(c) => {
            let full = typing::qualify(it.0, c.name);
            if name_map::find(g.defs.consts, full) is None {
                match typing::resolve(g.defs, it.0, c.ty, c.span) {
                    Ok(t) => {
                        lemma_resolve(g.defs, r.defs, it.0, c.ty, c.span);
                        name_map::law_put_keeps_sorted(g.defs.consts, full, t);
                        assert(is_const(seq![it][0], full));
                        assert forall|n: Text| #[trigger] name_map::find(r.defs.consts, n)
                            == if n == full {
                            Some(t)
                        } else {
                            name_map::find(g.defs.consts, n)
                        } by {
                            name_map::law_put_then_find(g.defs.consts, full, t, n);
                        }
                    },
                    Err(_) => {},
                }
            }
        },
        _ => {},
    }
}

/// What was announced stays so.
proof fn lemma_announced(a: Defs, b: Defs, it: Placed)
    requires
        same_types(a, b),
        announced(a, it),
        forall|n: Text| #[trigger]
            name_map::find(a.funcs, n) is Some ==> name_map::find(b.funcs, n) == name_map::find(
                a.funcs,
                n,
            ),
        forall|n: Text| #[trigger]
            name_map::find(a.consts, n) is Some ==> name_map::find(b.consts, n) == name_map::find(
                a.consts,
                n,
            ),
    ensures
        announced(b, it),
{
    match it.1 {
        AItem::Func(f) => lemma_declared_sig(a, b, it.0, f),
        AItem::Const(c) => lemma_resolve(a, b, it.0, c.ty, c.span),
        _ => {},
    }
}

pub proof fn lemma_announce_all(g: Gathered, its: Seq<Placed>, i: int)
    requires
        0 <= i <= its.len(),
        name_map::sorted(g.defs.funcs),
        name_map::sorted(g.defs.consts),
    ensures
        announces(g, its, i, program::announce_all(g, its, i)),
    decreases its.len() - i,
{
    if i < its.len() {
        let g1 = program::announce(g, its[i]);
        let r = program::announce_all(g, its, i);
        lemma_announce(g, its[i]);
        lemma_announce_all(g1, its, i + 1);
        assert forall|n: Text| #[trigger]
            name_map::find(r.defs.funcs, n) is Some implies name_map::find(g.defs.funcs, n) is Some
            || exists|j: int| i <= j < its.len() && is_func(#[trigger] its[j], n) by {
            if name_map::find(g1.defs.funcs, n) is Some && name_map::find(g.defs.funcs, n) is None {
                let j = choose|j: int| 0 <= j < 1 && is_func(#[trigger] seq![its[i]][j], n);
                assert(is_func(its[i], n));
            }
        }
        assert forall|n: Text| #[trigger]
            name_map::find(r.defs.consts, n) is Some implies name_map::find(
            g.defs.consts,
            n,
        ) is Some || exists|j: int| i <= j < its.len() && is_const(#[trigger] its[j], n) by {
            if name_map::find(g1.defs.consts, n) is Some && name_map::find(
                g.defs.consts,
                n,
            ) is None {
                let j = choose|j: int| 0 <= j < 1 && is_const(#[trigger] seq![its[i]][j], n);
                assert(is_const(its[i], n));
            }
        }
        assert forall|n: Text| #[trigger]
            name_map::find(g.defs.funcs, n) is Some implies name_map::find(r.defs.funcs, n)
            == name_map::find(g.defs.funcs, n) by {
            assert(name_map::find(g1.defs.funcs, n) is Some);
        }
        assert forall|n: Text| #[trigger]
            name_map::find(g.defs.consts, n) is Some implies name_map::find(r.defs.consts, n)
            == name_map::find(g.defs.consts, n) by {
            assert(name_map::find(g1.defs.consts, n) is Some);
        }
        if g.diags.len() == r.diags.len() {
            assert(announced(g1.defs, seq![its[i]][0]));
            lemma_announced(g1.defs, r.defs, its[i]);
        }
    }
}

// ---- bodies -------------------------------------------------------------

proof fn lemma_check_params(
    d: Defs,
    m: Text,
    ps: Seq<AParam>,
    i: int,
    acc: Seq<TParam>,
    tys: Seq<TType>,
)
    requires
        program::check_params(d, m, ps, i, acc) is Ok,
        tys == ir::param_types(acc),
    ensures
        program::param_types(d, m, ps, i, tys) == ir::param_types(
            program::check_params(d, m, ps, i, acc)->Ok_0,
        ),
    decreases ps.len() - i,
{
    if 0 <= i < ps.len() {
        let ty = typing::resolve(d, m, ps[i].ty, ps[i].span)->Ok_0;
        let next = acc.push(TParam { name: ps[i].name, ty });
        assert(ir::param_types(next) =~= tys.push(ty));
        lemma_check_params(d, m, ps, i + 1, next, tys.push(ty));
    }
}

/// A function that the checker accepts is well-typed and has its signature.
pub proof fn lemma_check_func(d: Defs, m: Text, f: AFunc)
    requires
        program::check_func(d, m, f) is Ok,
    ensures
        ({
            let x = program::check_func(d, m, f)->Ok_0;
            &&& x.name == typing::qualify(m, f.name)
            &&& x.sig() == declared_sig(d, m, f)
            &&& soundness::func_ok(d, x)
        }),
{
    reveal(program::check_func);
    let params = program::check_params(d, m, f.params, 0, Seq::empty())->Ok_0;
    let ret = program::return_type(d, m, f.ret, f.span)->Ok_0;
    let none: Seq<TParam> = Seq::empty();
    assert(ir::param_types(none) =~= Seq::<TType>::empty());
    lemma_check_params(d, m, f.params, 0, Seq::empty(), Seq::empty());
    checking::ok_block(
        Site { defs: d, module: m, ret },
        program::param_vars(params),
        f.body,
        Some(ret),
    );
}

pub proof fn lemma_check_const(d: Defs, m: Text, c: AConstDef)
    requires
        program::check_const(d, m, c) is Ok,
    ensures
        ({
            let x = program::check_const(d, m, c)->Ok_0;
            &&& x.name == typing::qualify(m, c.name)
            &&& typing::resolve(d, m, c.ty, c.span) == Ok::<TType, Diag>(x.ty)
            &&& soundness::const_ok(d, x, x.ty)
        }),
{
    reveal(program::check_const);
    reveal(typing::expect_type);
    let ty = typing::resolve(d, m, c.ty, c.span)->Ok_0;
    checking::law_checked_expression_is_well_typed(
        Site { defs: d, module: m, ret: TType::Unit },
        Seq::empty(),
        c.init,
        Some(ty),
    );
}

/// Whether everything built so far is well-typed and known by its signature.
pub open spec fn built_ok(d: Defs, b: Built) -> bool {
    &&& name_map::sorted(b.funcs)
    &&& name_map::sorted(b.consts)
    &&& forall|n: Text| #[trigger]
        name_map::find(b.funcs, n) is Some ==> name_map::find(d.funcs, n) == Some(
            name_map::find(b.funcs, n)->Some_0.sig(),
        ) && soundness::func_ok(d, name_map::find(b.funcs, n)->Some_0)
    &&& forall|n: Text| #[trigger]
        name_map::find(b.consts, n) is Some ==> (name_map::find(d.consts, n) matches Some(t)
            && soundness::const_ok(d, name_map::find(b.consts, n)->Some_0, t))
}

/// What building one or more items leads to: nothing is lost, and every item is
/// there where nothing was complained of.
pub open spec fn builds(d: Defs, b: Built, its: Seq<Placed>, i: int, r: Built) -> bool {
    &&& b.diags.len() <= r.diags.len()
    &&& built_ok(d, r)
    &&& forall|n: Text| #[trigger]
        name_map::find(b.funcs, n) is Some ==> name_map::find(r.funcs, n) is Some
    &&& forall|n: Text| #[trigger]
        name_map::find(b.consts, n) is Some ==> name_map::find(r.consts, n) is Some
    &&& b.diags.len() == r.diags.len() ==> forall|j: int, n: Text|
        i <= j < its.len() && #[trigger] is_func(its[j], n) ==> name_map::find(r.funcs, n) is Some
    &&& b.diags.len() == r.diags.len() ==> forall|j: int, n: Text|
        i <= j < its.len() && #[trigger] is_const(its[j], n) ==> name_map::find(r.consts, n) is Some
}

#[verifier::rlimit(40)]
proof fn lemma_build(d: Defs, b: Built, it: Placed)
    requires
        announced(d, it),
        built_ok(d, b),
    ensures
        builds(d, b, seq![it], 0, program::build(d, b, it)),
{
    reveal(program::build);
    let r = program::build(d, b, it);
    let one = seq![it];
    assert(one[0] == it);
    match it.1 {
        AItem::Func(f) => match program::check_func(d, it.0, f) {
            Ok(x) => {
                lemma_check_func(d, it.0, f);
                name_map::law_put_keeps_sorted(b.funcs, x.name, x);
                assert forall|n: Text| #[trigger] name_map::find(r.funcs, n) == if n == x.name {
                    Some(x)
                } else {
                    name_map::find(b.funcs, n)
                } by {
                    name_map::law_put_then_find(b.funcs, x.name, x, n);
                }
            },
            Err(_) => {},
        },
        AItem::Const(c) => match program::check_const(d, it.0, c) {
            Ok(x) => {
                lemma_check_const(d, it.0, c);
                name_map::law_put_keeps_sorted(b.consts, x.name, x);
                assert forall|n: Text| #[trigger] name_map::find(r.consts, n) == if n == x.name {
                    Some(x)
                } else {
                    name_map::find(b.consts, n)
                } by {
                    name_map::law_put_then_find(b.consts, x.name, x, n);
                }
            },
            Err(_) => {},
        },
        _ => {},
    }
}

proof fn lemma_build_all(d: Defs, b: Built, its: Seq<Placed>, i: int)
    requires
        0 <= i <= its.len(),
        forall|j: int| i <= j < its.len() ==> announced(d, #[trigger] its[j]),
        built_ok(d, b),
    ensures
        builds(d, b, its, i, program::build_all(d, b, its, i)),
    decreases its.len() - i,
{
    if i < its.len() {
        let b1 = program::build(d, b, its[i]);
        let r = program::build_all(d, b, its, i);
        lemma_build(d, b, its[i]);
        lemma_build_all(d, b1, its, i + 1);
        assert forall|n: Text| #[trigger] name_map::find(b.funcs, n) is Some implies name_map::find(
            r.funcs,
            n,
        ) is Some by {
            assert(name_map::find(b1.funcs, n) is Some);
        }
        assert forall|n: Text| #[trigger]
            name_map::find(b.consts, n) is Some implies name_map::find(r.consts, n) is Some by {
            assert(name_map::find(b1.consts, n) is Some);
        }
        if b.diags.len() == r.diags.len() {
            assert forall|j: int, n: Text|
                i <= j < its.len() && #[trigger] is_func(its[j], n) implies name_map::find(
                r.funcs,
                n,
            ) is Some by {
                if j == i {
                    assert(is_func(seq![its[i]][0], n));
                    assert(name_map::find(b1.funcs, n) is Some);
                }
            }
            assert forall|j: int, n: Text|
                i <= j < its.len() && #[trigger] is_const(its[j], n) implies name_map::find(
                r.consts,
                n,
            ) is Some by {
                if j == i {
                    assert(is_const(seq![its[i]][0], n));
                    assert(name_map::find(b1.consts, n) is Some);
                }
            }
        }
    }
}

// ---- programs -----------------------------------------------------------

/// What the items of a program define.
pub open spec fn program_defs(p: AProgram) -> Defs {
    program::gather(program::flatten(Seq::empty(), p.items, 0)).defs
}

/// A checked program is well-typed throughout.
pub proof fn lemma_world(p: AProgram, m: TModule)
    requires
        program::check_program(p) == Ok::<TModule, Seq<Diag>>(m),
    ensures
        soundness::world_ok(m, program_defs(p)),
        name_map::sorted(m.funcs),
        name_map::sorted(m.consts),
        program_defs(p).structs == m.structs,
        program_defs(p).enums == m.enums,
        forall|n: Text| #[trigger]
            name_map::find(m.funcs, n) is Some ==> name_map::find(program_defs(p).funcs, n) == Some(
                name_map::find(m.funcs, n)->Some_0.sig(),
            ),
        forall|n: Text| #[trigger]
            name_map::find(m.consts, n) is Some ==> name_map::find(program_defs(p).consts, n)
                == Some(name_map::find(m.consts, n)->Some_0.ty),
{
    let its = program::flatten(Seq::empty(), p.items, 0);
    let g0 = Gathered { defs: Defs::none(), diags: Seq::empty() };
    let g1 = program::declare_all(g0, its, 0);
    let g2 = program::lengthen(program::fill_all(g1, its, 0));
    let g = program::announce_all(g2, its, 0);
    lemma_declare_all(g0, its, 0);
    lemma_fill_all(g1, its, 0);
    assert(g2.defs.funcs == Seq::<(Text, TSig)>::empty());
    assert(g2.defs.consts == Seq::<(Text, TType)>::empty());
    lemma_announce_all(g2, its, 0);
    let d = g.defs;
    let b0 = Built { funcs: Seq::empty(), consts: Seq::empty(), diags: Seq::empty() };
    let b = program::build_all(d, b0, its, 0);
    assert forall|n: Text| name_map::find(b0.funcs, n) is None by {}
    assert forall|n: Text| name_map::find(b0.consts, n) is None by {}
    lemma_build_all(d, b0, its, 0);
    assert forall|n: Text| #[trigger] name_map::find(d.funcs, n) is Some implies (name_map::find(
        m.funcs,
        n,
    ) matches Some(f) && f.sig() == name_map::find(d.funcs, n)->Some_0 && soundness::func_ok(
        d,
        f,
    )) by {
        assert(name_map::find(g2.defs.funcs, n) is None);
        let j = choose|j: int| 0 <= j < its.len() && is_func(#[trigger] its[j], n);
        assert(is_func(its[j], n));
        assert(name_map::find(b.funcs, n) is Some);
    }
    assert forall|n: Text| #[trigger] name_map::find(d.consts, n) is Some implies (name_map::find(
        m.consts,
        n,
    ) matches Some(c) && soundness::const_ok(d, c, name_map::find(d.consts, n)->Some_0)) by {
        assert(name_map::find(g2.defs.consts, n) is None);
        let j = choose|j: int| 0 <= j < its.len() && is_const(#[trigger] its[j], n);
        assert(is_const(its[j], n));
        assert(name_map::find(b.consts, n) is Some);
    }
}

// ---- well-formed modules ------------------------------------------------

/// Whether every struct and every enum stands under its own name.
pub open spec fn types_keyed(structs: Table<TStruct>, enums: Table<TEnum>) -> bool {
    &&& forall|i: int| 0 <= i < structs.len() ==> (#[trigger] structs[i]).1.name == structs[i].0
    &&& forall|i: int| 0 <= i < enums.len() ==> (#[trigger] enums[i]).1.name == enums[i].0
}

/// Whether every function and every constant stands under its own name.
pub open spec fn bodies_keyed(funcs: Table<TFunc>, consts: Table<TConst>) -> bool {
    &&& forall|i: int| 0 <= i < funcs.len() ==> (#[trigger] funcs[i]).1.name == funcs[i].0
    &&& forall|i: int| 0 <= i < consts.len() ==> (#[trigger] consts[i]).1.name == consts[i].0
}

proof fn lemma_put_struct(structs: Table<TStruct>, enums: Table<TEnum>, x: TStruct)
    requires
        types_keyed(structs, enums),
    ensures
        types_keyed(name_map::put(structs, x.name, x), enums),
{
    let t = name_map::put(structs, x.name, x);
    assert forall|i: int| 0 <= i < t.len() implies (#[trigger] t[i]).1.name == t[i].0 by {
        name_map::lemma_put_entries(structs, x.name, x, i);
    }
}

proof fn lemma_put_enum(structs: Table<TStruct>, enums: Table<TEnum>, x: TEnum)
    requires
        types_keyed(structs, enums),
    ensures
        types_keyed(structs, name_map::put(enums, x.name, x)),
{
    let t = name_map::put(enums, x.name, x);
    assert forall|i: int| 0 <= i < t.len() implies (#[trigger] t[i]).1.name == t[i].0 by {
        name_map::lemma_put_entries(enums, x.name, x, i);
    }
}

proof fn lemma_declare_keyed(g: Gathered, its: Seq<Placed>, i: int)
    requires
        types_keyed(g.defs.structs, g.defs.enums),
        name_map::sorted(g.defs.structs),
        name_map::sorted(g.defs.enums),
    ensures
        ({
            let r = program::declare_all(g, its, i);
            &&& types_keyed(r.defs.structs, r.defs.enums)
            &&& name_map::sorted(r.defs.structs)
            &&& name_map::sorted(r.defs.enums)
        }),
    decreases its.len() - i,
{
    if 0 <= i < its.len() {
        reveal(program::declare);
        let m = its[i].0;
        match its[i].1 {
            AItem::Struct(s) => {
                let full = typing::qualify(m, s.name);
                let x = TStruct { name: full, fields: Seq::empty() };
                lemma_put_struct(g.defs.structs, g.defs.enums, x);
                name_map::law_put_keeps_sorted(g.defs.structs, full, x);
            },
            AItem::Enum(e) => {
                let full = typing::qualify(m, e.name);
                let x = TEnum { name: full, variants: Seq::empty() };
                lemma_put_enum(g.defs.structs, g.defs.enums, x);
                name_map::law_put_keeps_sorted(g.defs.enums, full, x);
            },
            _ => {},
        }
        lemma_declare_keyed(program::declare(g, its[i]), its, i + 1);
    }
}

proof fn lemma_variants_keep_types(
    g: Gathered,
    m: Text,
    full: Text,
    vs: Seq<AVariantDef>,
    i: int,
    acc: Seq<TVariant>,
)
    ensures
        ({
            let r = program::enum_variants(g, m, full, vs, i, acc).0;
            r.defs.structs == g.defs.structs && r.defs.enums == g.defs.enums
        }),
    decreases vs.len() - i,
{
    if 0 <= i < vs.len() {
        reveal(program::add_variant);
        let (g1, v) = program::add_variant(g, m, full, vs[i], i as usize);
        lemma_variants_keep_types(g1, m, full, vs, i + 1, acc.push(v));
    }
}

proof fn lemma_fill_keyed(g: Gathered, its: Seq<Placed>, i: int)
    requires
        types_keyed(g.defs.structs, g.defs.enums),
        name_map::sorted(g.defs.structs),
        name_map::sorted(g.defs.enums),
    ensures
        ({
            let r = program::fill_all(g, its, i);
            &&& types_keyed(r.defs.structs, r.defs.enums)
            &&& name_map::sorted(r.defs.structs)
            &&& name_map::sorted(r.defs.enums)
        }),
    decreases its.len() - i,
{
    if 0 <= i < its.len() {
        reveal(program::fill);
        let m = its[i].0;
        match its[i].1 {
            AItem::Struct(s) => {
                let full = typing::qualify(m, s.name);
                let (fields, _) = program::struct_fields(
                    g.defs,
                    m,
                    full,
                    s.fields,
                    0,
                    Seq::empty(),
                    g.diags,
                );
                let x = TStruct { name: full, fields };
                lemma_put_struct(g.defs.structs, g.defs.enums, x);
                name_map::law_put_keeps_sorted(g.defs.structs, full, x);
            },
            AItem::Enum(e) => {
                let full = typing::qualify(m, e.name);
                let (_, variants) = program::enum_variants(g, m, full, e.variants, 0, Seq::empty());
                let x = TEnum { name: full, variants };
                lemma_variants_keep_types(g, m, full, e.variants, 0, Seq::empty());
                lemma_put_enum(g.defs.structs, g.defs.enums, x);
                name_map::law_put_keeps_sorted(g.defs.enums, full, x);
            },
            _ => {},
        }
        lemma_fill_keyed(program::fill(g, its[i]), its, i + 1);
    }
}

proof fn lemma_announce_keeps_types(g: Gathered, its: Seq<Placed>, i: int)
    ensures
        ({
            let r = program::announce_all(g, its, i);
            r.defs.structs == g.defs.structs && r.defs.enums == g.defs.enums
        }),
    decreases its.len() - i,
{
    if 0 <= i < its.len() {
        reveal(program::announce);
        lemma_announce_keeps_types(program::announce(g, its[i]), its, i + 1);
    }
}

proof fn lemma_build_keyed(d: Defs, b: Built, its: Seq<Placed>, i: int)
    requires
        bodies_keyed(b.funcs, b.consts),
    ensures
        ({
            let r = program::build_all(d, b, its, i);
            bodies_keyed(r.funcs, r.consts)
        }),
    decreases its.len() - i,
{
    if 0 <= i < its.len() {
        reveal(program::build);
        let r = program::build(d, b, its[i]);
        assert forall|j: int| 0 <= j < r.funcs.len() implies (#[trigger] r.funcs[j]).1.name
            == r.funcs[j].0 by {
            match its[i].1 {
                AItem::Func(f) => match program::check_func(d, its[i].0, f) {
                    Ok(x) => name_map::lemma_put_entries(b.funcs, x.name, x, j),
                    Err(_) => {},
                },
                _ => {},
            }
        }
        assert forall|j: int| 0 <= j < r.consts.len() implies (#[trigger] r.consts[j]).1.name
            == r.consts[j].0 by {
            match its[i].1 {
                AItem::Const(c) => match program::check_const(d, its[i].0, c) {
                    Ok(x) => name_map::lemma_put_entries(b.consts, x.name, x, j),
                    Err(_) => {},
                },
                _ => {},
            }
        }
        lemma_build_keyed(d, r, its, i + 1);
    }
}

/// Whether `d` knows the definitions of the module, by their types and signatures,
/// and no others.
pub open spec fn describes(d: Defs, m: TModule) -> bool {
    &&& d.structs == m.structs
    &&& d.enums == m.enums
    &&& forall|n: Text| #[trigger]
        name_map::find(d.funcs, n) == match name_map::find(m.funcs, n) {
            Some(f) => Some(f.sig()),
            None => None,
        }
    &&& forall|n: Text| #[trigger]
        name_map::find(d.consts, n) == match name_map::find(m.consts, n) {
            Some(c) => Some(c.ty),
            None => None,
        }
}

/// Whether a module is well formed. Every definition stands under its own name. In
/// every body a call names a function of the module and has arguments of the types of
/// its parameters, a variable is in scope with the type that is written on it, field
/// indices and variant tags are in range, the operands of an operator other than a
/// shift have one type, and every part has the type that is written on it.
pub open spec fn well_formed(m: TModule) -> bool {
    &&& types_keyed(m.structs, m.enums)
    &&& bodies_keyed(m.funcs, m.consts)
    &&& name_map::sorted(m.structs) && name_map::sorted(m.enums)
    &&& name_map::sorted(m.funcs) && name_map::sorted(m.consts)
    &&& exists|d: Defs| #[trigger]
        describes(d, m) && (forall|i: int|
            0 <= i < m.funcs.len() ==> soundness::func_ok(d, (#[trigger] m.funcs[i]).1)) && (
        forall|i: int|
            0 <= i < m.consts.len() ==> soundness::const_ok(
                d,
                (#[trigger] m.consts[i]).1,
                m.consts[i].1.ty,
            ))
}

/// The definitions that a program makes are those of its module.
pub proof fn lemma_describes(p: AProgram, m: TModule)
    requires
        program::check_program(p) == Ok::<TModule, Seq<Diag>>(m),
    ensures
        describes(program_defs(p), m),
{
    let d = program_defs(p);
    lemma_world(p, m);
    assert forall|n: Text| #[trigger] name_map::find(d.funcs, n) == match name_map::find(
        m.funcs,
        n,
    ) {
        Some(f) => Some(f.sig()),
        None => None,
    } by {}
    assert forall|n: Text| #[trigger] name_map::find(d.consts, n) == match name_map::find(
        m.consts,
        n,
    ) {
        Some(c) => Some(c.ty),
        None => None,
    } by {}
}

/// The checker gives well-formed modules.
pub proof fn law_checked_modules_are_well_formed(p: AProgram, m: TModule)
    requires
        program::check_program(p) == Ok::<TModule, Seq<Diag>>(m),
    ensures
        well_formed(m),
{
    let its = program::flatten(Seq::empty(), p.items, 0);
    let g0 = Gathered { defs: Defs::none(), diags: Seq::empty() };
    let g1 = program::declare_all(g0, its, 0);
    let g2 = program::lengthen(program::fill_all(g1, its, 0));
    let d = program_defs(p);
    let b0 = Built { funcs: Seq::empty(), consts: Seq::empty(), diags: Seq::empty() };
    lemma_declare_keyed(g0, its, 0);
    lemma_fill_keyed(g1, its, 0);
    lemma_announce_keeps_types(g2, its, 0);
    lemma_build_keyed(d, b0, its, 0);
    lemma_world(p, m);
    lemma_describes(p, m);
    assert forall|i: int| 0 <= i < m.funcs.len() implies soundness::func_ok(
        d,
        (#[trigger] m.funcs[i]).1,
    ) by {
        name_map::lemma_find_sorted(m.funcs, i);
        assert(name_map::find(d.funcs, m.funcs[i].0) is Some);
    }
    assert forall|i: int| 0 <= i < m.consts.len() implies soundness::const_ok(
        d,
        (#[trigger] m.consts[i]).1,
        m.consts[i].1.ty,
    ) by {
        name_map::lemma_find_sorted(m.consts, i);
        assert(name_map::find(d.consts, m.consts[i].0) is Some);
    }
}

// ---- evaluation ---------------------------------------------------------

/// The types of a module.
pub open spec fn types_of(m: TModule) -> Defs {
    program::defs_of(m.structs, m.enums, m.funcs)
}

/// Whether the arguments have the types of the parameters.
pub open spec fn args_typed(m: TModule, f: TFunc, args: Seq<VVal>) -> bool {
    args.len() == f.params.len() && forall|k: int|
        0 <= k < args.len() ==> welltyped::has_type(
            types_of(m),
            #[trigger] args[k],
            f.params[k].ty,
        )
}

/// Whether every constant that is kept in memory is one of the module, with a value
/// of its declared type.
pub open spec fn consts_typed(m: TModule, s: Mem) -> bool {
    name_map::sorted(s.cache) && forall|n: Text| #[trigger]
        name_map::find(s.cache, n) matches Some(v) ==> (name_map::find(m.consts, n) matches Some(c)
            && welltyped::has_type(types_of(m), v, c.ty))
}

/// Whether an evaluation gives a value of the type `t`, every number of which is in its
/// range, or traps where the language defines a trap, or does not end within its allowance; the constants that are kept
/// behind it have their types.
pub open spec fn safe(m: TModule, t: TType, r: (Result<VVal, Flow>, Mem)) -> bool {
    consts_typed(m, r.1) && match r.0 {
        Ok(v) => welltyped::has_type(types_of(m), v, t) && welltyped::ranged(v),
        Err(Flow::Error(x)) => soundness::defined_trap(x),
        Err(Flow::Exhausted) => true,
        Err(Flow::Return(_)) => false,
    }
}

proof fn lemma_cache_ok(p: AProgram, m: TModule, s: Mem)
    requires
        program::check_program(p) == Ok::<TModule, Seq<Diag>>(m),
    ensures
        consts_typed(m, s) <==> soundness::cache_ok(program_defs(p), s.cache),
{
    let d = program_defs(p);
    lemma_world(p, m);
    assert forall|n: Text| #[trigger] name_map::find(s.cache, n) is Some && consts_typed(m, s) implies (
    name_map::find(d.consts, n) matches Some(t) && welltyped::has_type(
        d,
        name_map::find(s.cache, n)->Some_0,
        t,
    )) by {
        let c = name_map::find(m.consts, n)->Some_0;
        lemma_has_type(types_of(m), d, name_map::find(s.cache, n)->Some_0, c.ty);
    }
    assert forall|n: Text| #[trigger]
        name_map::find(s.cache, n) is Some && soundness::cache_ok(d, s.cache) implies (
    name_map::find(m.consts, n) matches Some(c) && welltyped::has_type(
        types_of(m),
        name_map::find(s.cache, n)->Some_0,
        c.ty,
    )) by {
        let t = name_map::find(d.consts, n)->Some_0;
        lemma_has_type(types_of(m), d, name_map::find(s.cache, n)->Some_0, t);
    }
}

proof fn lemma_safe(p: AProgram, m: TModule, t: TType, r: (Result<VVal, Flow>, Mem))
    requires
        program::check_program(p) == Ok::<TModule, Seq<Diag>>(m),
        soundness::cache_ok(program_defs(p), r.1.cache),
        match r.0 {
            Ok(v) => welltyped::has_type(program_defs(p), v, t),
            Err(Flow::Error(x)) => soundness::defined_trap(x),
            Err(Flow::Exhausted) => true,
            Err(Flow::Return(_)) => false,
        },
    ensures
        safe(m, t, r),
{
    lemma_world(p, m);
    lemma_cache_ok(p, m, r.1);
    match r.0 {
        Ok(v) => {
            lemma_has_type(types_of(m), program_defs(p), v, t);
            welltyped::lemma_ranged(program_defs(p), v, t);
        },
        _ => {},
    }
}

/// A checked program is safe, whatever it has printed and evaluated before: a call
/// of one of its functions with arguments of the declared types gives a value of the
/// declared type, or traps where the language defines a trap (a division or
/// remainder by zero, an array index out of bounds), or does not end within the
/// allowance. No name is missing, no operand has the wrong type and no `match` falls
/// through.
pub proof fn law_checked_programs_are_safe(
    p: AProgram,
    m: TModule,
    name: Text,
    args: Seq<VVal>,
    fuel: nat,
    s: Mem,
)
    requires
        program::check_program(p) == Ok::<TModule, Seq<Diag>>(m),
        name_map::find(m.funcs, name) matches Some(f) && args_typed(m, f, args),
        consts_typed(m, s),
    ensures
        safe(
            m,
            name_map::find(m.funcs, name)->Some_0.ret,
            semantics::call_func(m, fuel, name, args, s),
        ),
{
    let d = program_defs(p);
    let f = name_map::find(m.funcs, name)->Some_0;
    lemma_world(p, m);
    lemma_cache_ok(p, m, s);
    let sig = name_map::find(d.funcs, name)->Some_0;
    assert forall|k: int| 0 <= k < args.len() implies welltyped::has_type(
        d,
        #[trigger] args[k],
        sig.params[k],
    ) by {
        lemma_has_type(types_of(m), d, args[k], f.params[k].ty);
    }
    soundness::safe_call(m, d, fuel, name, args, s);
    lemma_safe(p, m, f.ret, semantics::call_func(m, fuel, name, args, s));
}

/// The constants of a checked program are safe in the same sense.
pub proof fn law_checked_constants_are_safe(
    p: AProgram,
    m: TModule,
    name: Text,
    fuel: nat,
    s: Mem,
)
    requires
        program::check_program(p) == Ok::<TModule, Seq<Diag>>(m),
        name_map::find(m.consts, name) is Some,
        consts_typed(m, s),
    ensures
        safe(
            m,
            name_map::find(m.consts, name)->Some_0.ty,
            semantics::eval_const(m, fuel, name, s),
        ),
{
    let d = program_defs(p);
    let c = name_map::find(m.consts, name)->Some_0;
    lemma_world(p, m);
    lemma_cache_ok(p, m, s);
    let bare = semantics::with_env(s, Seq::empty());
    soundness::safe_const(m, d, TType::Unit, Seq::empty(), fuel, name, bare);
    let r = semantics::eval_const(m, fuel, name, s);
    let q = semantics::eval_const(m, fuel, name, bare);
    assert(semantics::with_env(bare, Seq::empty()) == bare);
    assert(r.0 == q.0 && r.1.cache == q.1.cache);
    purity::law_constant_keeps_variables(m, fuel, name, s);
    lemma_safe(p, m, c.ty, r);
}

/// A source that compiles is safe in the same sense.
pub proof fn law_compiled_sources_are_safe(
    src: Text,
    m: TModule,
    name: Text,
    args: Seq<VVal>,
    fuel: nat,
    s: Mem,
)
    requires
        crate::compiled(src) == Ok::<TModule, Seq<Diag>>(m),
        name_map::find(m.funcs, name) matches Some(f) && args_typed(m, f, args),
        consts_typed(m, s),
    ensures
        safe(
            m,
            name_map::find(m.funcs, name)->Some_0.ret,
            semantics::call_func(m, fuel, name, args, s),
        ),
{
    let ts = crate::lexer::tokens_of_text(src)->Ok_0;
    let p = crate::grammar::program(ts)->Ok_0;
    law_checked_programs_are_safe(p, m, name, args, fuel, s);
}

/// Every number in what a call of a compiled source gives, at whatever depth, is in the
/// range of its type, also in what a function leaves that declares no result; one that
/// declares a result gives a value of that type.
pub proof fn law_calls_give_numbers_in_range(
    src: Text,
    m: TModule,
    name: Text,
    args: Seq<VVal>,
    fuel: nat,
    s: Mem,
)
    requires
        crate::compiled(src) == Ok::<TModule, Seq<Diag>>(m),
        name_map::find(m.funcs, name) matches Some(f) && args_typed(m, f, args),
        consts_typed(m, s),
    ensures
        semantics::settled(semantics::call_func(m, fuel, name, args, s).0) matches Ok(v)
            ==> welltyped::ranged(v) && welltyped::has_type(
            types_of(m),
            v,
            name_map::find(m.funcs, name)->Some_0.ret,
        ),
{
    law_compiled_sources_are_safe(src, m, name, args, fuel, s);
}

} // verus!
