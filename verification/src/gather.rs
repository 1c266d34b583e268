//! Collecting what a program declares, before any body is checked.

use crate::ast::{self, Item};
use crate::context::{import_key, qualify, resolve, type_error, Context, Import};
use crate::diagnostic::{Diag, Diagnostic};
use crate::ir::{self, EnumDef, Field, Func, Signature, StructDef, TField, TType, TVariant, Type, Variant};
use crate::model;
use crate::name_map::NameMap;
use crate::program::{self, Gathered, Placed};
use crate::span::Span;
use crate::text::{self, cat3, cat5, str_eq};
use vstd::prelude::*;

verus! {

broadcast use {
    ir::group_model,
    ir::group_built,
    ast::group_model,
    ast::group_built,
    text::group_texts,
    model::group_views,
};

/// What has been declared so far, and what was wrong with it.
#[derive(Debug)]
pub struct Gathering {
    pub cx: Context,
    pub diags: Vec<Diagnostic>,
}

impl View for Gathering {
    type V = Gathered;

    open spec fn view(&self) -> Gathered {
        Gathered { defs: self.cx@, diags: model::views(self.diags@) }
    }
}

/// Items with the full names of their modules, by view.
pub open spec fn placed(v: Seq<(String, &Item)>) -> Seq<Placed> {
    Seq::new(v.len(), |i: int| (v[i].0@, v[i].1@))
}

/// Append the items of the module `m`, and of the modules inside it, to `out`.
pub(crate) fn flatten<'a>(m: &String, items: &'a Vec<Item>, out: &mut Vec<(String, &'a Item)>)
    ensures
        placed(final(out)@) == placed(old(out)@) + program::flatten(m@, ast::items_of(items@), 0),
    decreases items,
{
    let ghost before = placed(out@);
    let ghost ms = ast::items_of(items@);
    let mut i: usize = 0;
    assert(before + program::flatten(m@, ms, 0) =~= placed(out@) + program::flatten(m@, ms, 0));
    while i < items.len()
        invariant
            i <= items.len(),
            ms == ast::items_of(items@),
            before == placed(old(out)@),
            before + program::flatten(m@, ms, 0) == placed(out@) + program::flatten(
                m@,
                ms,
                i as int,
            ),
        decreases items.len() - i,
    {
        assert(ms[i as int] == items[i as int]@);
        let ghost now = placed(out@);
        let ghost rest = program::flatten(m@, ms, i as int + 1);
        match &items[i] {
            Item::Mod(d) => {
                assert(items[i as int] == Item::Mod(*d));
                assert(*d == ast::ModDef { name: d.name, items: d.items, span: d.span });
                if let Some(inner) = &d.items {
                    let full = qualify(m, d.name.as_str());
                    flatten(&full, inner, out);
                    let ghost own = program::flatten(full@, ast::items_of(inner@), 0);
                    assert(now + (own + rest) =~= placed(out@) + rest);
                } else {
                    assert(now + (Seq::<Placed>::empty() + rest) =~= placed(out@) + rest);
                }
            },
            other => {
                reveal(Item::model);
                out.push((m.clone(), other));
                assert(placed(out@) =~= now.push((m@, items[i as int]@)));
                assert(now + (seq![(m@, items[i as int]@)] + rest) =~= placed(out@) + rest);
            },
        }
        i += 1;
    }
    assert(program::flatten(m@, ms, i as int) =~= Seq::empty());
}

fn is_type(cx: &Context, name: &String) -> (b: bool)
    ensures
        b == program::is_type(cx@, name@),
{
    cx.structs.contains_key(name.as_str()) || cx.enums.contains_key(name.as_str())
}

fn duplicate(what: &str, name: &String, span: Span) -> (r: Diagnostic)
    ensures
        r@ == program::duplicate(what@, name@, span),
{
    type_error(cat5("duplicate ", what, " `", name.as_str(), "`"), span)
}

/// Declare the name of a type, or an import.
fn declare(g: &mut Gathering, m: &String, it: &Item)
    ensures
        final(g)@ == program::declare(old(g)@, (m@, it@)),
{
    reveal(program::declare);
    reveal(Item::model);
    match it {
        Item::Struct(s) => {
            assert(*s == ast::StructDef { name: s.name, fields: s.fields, span: s.span });
            let full = qualify(m, s.name.as_str());
            if is_type(&g.cx, &full) {
                g.diags.push(duplicate("type", &full, s.span));
            } else {
                let d = StructDef { name: full.clone(), fields: Vec::new() };
                assert(ir::fields_of(d.fields@) =~= Seq::<TField>::empty());
                g.cx.structs.insert(full, d);
            }
        },
        Item::Enum(e) => {
            assert(*e == ast::EnumDef { name: e.name, variants: e.variants, span: e.span });
            let full = qualify(m, e.name.as_str());
            if is_type(&g.cx, &full) {
                g.diags.push(duplicate("type", &full, e.span));
            } else {
                let d = EnumDef { name: full.clone(), variants: Vec::new() };
                assert(ir::variants_of(d.variants@) =~= Seq::<TVariant>::empty());
                g.cx.enums.insert(full, d);
            }
        },
        Item::Use(u) => {
            assert(*u == ast::UseDecl { path: u.path, glob: u.glob, span: u.span });
            let import = Import {
                module: m.clone(),
                path: text::copy_texts(&u.path),
                glob: u.glob,
            };
            g.cx.imports.insert(import_key(&import), import);
        },
        _ => {},
    }
}

fn declare_all(g: &mut Gathering, its: &Vec<(String, &Item)>)
    ensures
        final(g)@ == program::declare_all(old(g)@, placed(its@), 0),
{
    let ghost ms = placed(its@);
    let ghost g0 = g@;
    let mut i: usize = 0;
    while i < its.len()
        invariant
            i <= its.len(),
            ms == placed(its@),
            program::declare_all(g0, ms, 0) == program::declare_all(g@, ms, i as int),
        decreases its.len() - i,
    {
        assert(ms[i as int] == (its[i as int].0@, its[i as int].1@));
        declare(g, &its[i].0, its[i].1);
        i += 1;
    }
}

fn named_before(fs: &Vec<ast::FieldDef>, name: &String, n: usize) -> (b: bool)
    requires
        n <= fs.len(),
    ensures
        b == program::named_before(ast::fields_of(fs@), name@, n as int),
{
    let mut i: usize = 0;
    while i < n
        invariant
            i <= n <= fs.len(),
            forall|j: int| 0 <= j < i ==> #[trigger] ast::fields_of(fs@)[j].name != name@,
        decreases n - i,
    {
        assert(ast::fields_of(fs@)[i as int] == fs[i as int]@);
        assert(fs[i as int] == ast::FieldDef {
            name: fs[i as int].name,
            ty: fs[i as int].ty,
            span: fs[i as int].span,
        });
        if str_eq(fs[i].name.as_str(), name.as_str()) {
            assert(ast::fields_of(fs@)[i as int].name == name@);
            return true;
        }
        i += 1;
    }
    false
}

/// The fields of the struct `full`; what is wrong with them is added to `diags`.
fn struct_fields(
    cx: &Context,
    m: &String,
    full: &String,
    fs: &Vec<ast::FieldDef>,
    diags: &mut Vec<Diagnostic>,
) -> (r: Vec<Field>)
    ensures
        (ir::fields_of(r@), model::views(final(diags)@)) == program::struct_fields(
            cx@,
            m@,
            full@,
            ast::fields_of(fs@),
            0,
            Seq::empty(),
            model::views(old(diags)@),
        ),
{
    let ghost ms = ast::fields_of(fs@);
    let ghost ds0 = model::views(diags@);
    let mut acc: Vec<Field> = Vec::new();
    assert(ir::fields_of(acc@) =~= Seq::<TField>::empty());
    let mut i: usize = 0;
    while i < fs.len()
        invariant
            i <= fs.len(),
            ms == ast::fields_of(fs@),
            program::struct_fields(cx@, m@, full@, ms, 0, Seq::empty(), ds0)
                == program::struct_fields(
                cx@,
                m@,
                full@,
                ms,
                i as int,
                ir::fields_of(acc@),
                model::views(diags@),
            ),
        decreases fs.len() - i,
    {
        assert(ms[i as int] == fs[i as int]@);
        assert(fs[i as int] == ast::FieldDef {
            name: fs[i as int].name,
            ty: fs[i as int].ty,
            span: fs[i as int].span,
        });
        let f = &fs[i];
        if named_before(fs, &f.name, i) {
            diags.push(
                type_error(
                    cat5("duplicate field `", f.name.as_str(), "` in struct `", full.as_str(), "`"),
                    f.span,
                ),
            );
        }
        let ghost before = ir::fields_of(acc@);
        match resolve(cx, m, &f.ty, f.span) {
            Ok(ty) => {
                let x = Field { name: f.name.clone(), ty };
                let ghost added = x@;
                acc.push(x);
                assert(ir::fields_of(acc@) =~= before.push(added));
            },
            Err(d) => {
                diags.push(d);
            },
        }
        i += 1;
    }
    acc
}

/// The payload types of a variant; what does not resolve is added to `diags`.
fn payload(
    cx: &Context,
    m: &String,
    ts: &Vec<ast::TypeExpr>,
    span: Span,
    diags: &mut Vec<Diagnostic>,
) -> (r: Vec<Type>)
    ensures
        (ir::types_of(r@), model::views(final(diags)@)) == program::payload(
            cx@,
            m@,
            ast::types_of(ts@),
            span,
            0,
            Seq::empty(),
            model::views(old(diags)@),
        ),
{
    let ghost ms = ast::types_of(ts@);
    let ghost ds0 = model::views(diags@);
    let mut acc: Vec<Type> = Vec::new();
    assert(ir::types_of(acc@) =~= Seq::<TType>::empty());
    let mut i: usize = 0;
    while i < ts.len()
        invariant
            i <= ts.len(),
            ms == ast::types_of(ts@),
            program::payload(cx@, m@, ms, span, 0, Seq::empty(), ds0) == program::payload(
                cx@,
                m@,
                ms,
                span,
                i as int,
                ir::types_of(acc@),
                model::views(diags@),
            ),
        decreases ts.len() - i,
    {
        assert(ms[i as int] == ts[i as int]@);
        let ghost before = ir::types_of(acc@);
        match resolve(cx, m, &ts[i], span) {
            Ok(t) => {
                let ghost added = t@;
                acc.push(t);
                assert(ir::types_of(acc@) =~= before.push(added));
            },
            Err(d) => {
                diags.push(d);
            },
        }
        i += 1;
    }
    acc
}

fn add_variant(g: &mut Gathering, m: &String, full: &String, v: &ast::VariantDef, tag: usize) -> (r:
    Variant)
    ensures
        (final(g)@, r@) == program::add_variant(old(g)@, m@, full@, v@, tag),
{
    reveal(program::add_variant);
    assert(*v == ast::VariantDef { name: v.name, fields: v.fields, span: v.span });
    let own = qualify(m, v.name.as_str());
    let ghost own_name = own@;
    let prev: Option<String> = match g.cx.variants.get(own.as_str()) {
        Some(p) => Some(p.0.clone()),
        None => None,
    };
    if let Some(p) = prev {
        g.diags.push(
            type_error(
                cat5(
                    "variant name `",
                    v.name.as_str(),
                    "` already used (in enum `",
                    p.as_str(),
                    "`); variant names must be unique",
                ),
                v.span,
            ),
        );
    }
    g.cx.variants.insert(own, (full.clone(), tag));
    let tys = payload(&g.cx, m, &v.fields, v.span, &mut g.diags);
    Variant { name: v.name.clone(), fields: tys }
}

fn enum_variants(g: &mut Gathering, m: &String, full: &String, vs: &Vec<ast::VariantDef>) -> (r: Vec<
    Variant,
>)
    ensures
        (final(g)@, ir::variants_of(r@)) == program::enum_variants(
            old(g)@,
            m@,
            full@,
            ast::variants_of(vs@),
            0,
            Seq::empty(),
        ),
{
    let ghost ms = ast::variants_of(vs@);
    let ghost g0 = g@;
    let mut acc: Vec<Variant> = Vec::new();
    assert(ir::variants_of(acc@) =~= Seq::<TVariant>::empty());
    let mut i: usize = 0;
    while i < vs.len()
        invariant
            i <= vs.len(),
            ms == ast::variants_of(vs@),
            program::enum_variants(g0, m@, full@, ms, 0, Seq::empty()) == program::enum_variants(
                g@,
                m@,
                full@,
                ms,
                i as int,
                ir::variants_of(acc@),
            ),
        decreases vs.len() - i,
    {
        assert(ms[i as int] == vs[i as int]@);
        let ghost before = ir::variants_of(acc@);
        let v = add_variant(g, m, full, &vs[i], i);
        let ghost added = v@;
        acc.push(v);
        assert(ir::variants_of(acc@) =~= before.push(added));
        i += 1;
    }
    acc
}

/// Fill in the fields or variants of a type.
fn fill(g: &mut Gathering, m: &String, it: &Item)
    ensures
        final(g)@ == program::fill(old(g)@, (m@, it@)),
{
    reveal(program::fill);
    reveal(Item::model);
    match it {
        Item::Struct(s) => {
            assert(*s == ast::StructDef { name: s.name, fields: s.fields, span: s.span });
            let full = qualify(m, s.name.as_str());
            let fields = struct_fields(&g.cx, m, &full, &s.fields, &mut g.diags);
            if g.cx.structs.contains_key(full.as_str()) {
                g.cx.structs.insert(full.clone(), StructDef { name: full, fields });
            }
        },
        Item::Enum(e) => {
            assert(*e == ast::EnumDef { name: e.name, variants: e.variants, span: e.span });
            let full = qualify(m, e.name.as_str());
            let variants = enum_variants(g, m, &full, &e.variants);
            if g.cx.enums.contains_key(full.as_str()) {
                g.cx.enums.insert(full.clone(), EnumDef { name: full, variants });
            }
        },
        _ => {},
    }
}

fn fill_all(g: &mut Gathering, its: &Vec<(String, &Item)>)
    ensures
        final(g)@ == program::fill_all(old(g)@, placed(its@), 0),
{
    let ghost ms = placed(its@);
    let ghost g0 = g@;
    let mut i: usize = 0;
    while i < its.len()
        invariant
            i <= its.len(),
            ms == placed(its@),
            program::fill_all(g0, ms, 0) == program::fill_all(g@, ms, i as int),
        decreases its.len() - i,
    {
        assert(ms[i as int] == (its[i as int].0@, its[i as int].1@));
        fill(g, &its[i].0, its[i].1);
        i += 1;
    }
}

fn lengthened(acc: &mut NameMap<(String, usize)>, name: &String, vs: &Vec<Variant>)
    ensures
        final(acc)@ == program::lengthened(old(acc)@, name@, ir::variants_of(vs@), 0),
{
    let ghost a0 = acc@;
    let ghost ms = ir::variants_of(vs@);
    let mut i: usize = 0;
    while i < vs.len()
        invariant
            i <= vs.len(),
            ms == ir::variants_of(vs@),
            program::lengthened(a0, name@, ms, 0) == program::lengthened(
                acc@,
                name@,
                ms,
                i as int,
            ),
        decreases vs.len() - i,
    {
        assert(ms[i as int] == vs[i as int]@);
        assert(vs[i as int] == Variant { name: vs[i as int].name, fields: vs[i as int].fields });
        let key = cat3(name.as_str(), "::", vs[i].name.as_str());
        if !acc.contains_key(key.as_str()) {
            acc.insert(key, (name.clone(), i));
        }
        i += 1;
    }
}

/// Add the long names of the variants of the enums.
fn long_names(acc: &mut NameMap<(String, usize)>, enums: &NameMap<EnumDef>)
    ensures
        final(acc)@ == program::long_names(old(acc)@, enums@, 0),
{
    let ghost a0 = acc@;
    let mut i: usize = 0;
    while i < enums.len()
        invariant
            i <= enums@.len(),
            program::long_names(a0, enums@, 0) == program::long_names(acc@, enums@, i as int),
        decreases enums@.len() - i,
    {
        let (name, e) = enums.at(i);
        assert(*e == EnumDef { name: e.name, variants: e.variants });
        lengthened(acc, name, &e.variants);
        i += 1;
    }
}

fn param_types(cx: &Context, m: &String, ps: &Vec<ast::Param>) -> (r: Vec<Type>)
    ensures
        ir::types_of(r@) == program::param_types(
            cx@,
            m@,
            ast::params_of(ps@),
            0,
            Seq::empty(),
        ),
{
    let ghost ms = ast::params_of(ps@);
    let mut acc: Vec<Type> = Vec::new();
    assert(ir::types_of(acc@) =~= Seq::<TType>::empty());
    let mut i: usize = 0;
    while i < ps.len()
        invariant
            i <= ps.len(),
            ms == ast::params_of(ps@),
            program::param_types(cx@, m@, ms, 0, Seq::empty()) == program::param_types(
                cx@,
                m@,
                ms,
                i as int,
                ir::types_of(acc@),
            ),
        decreases ps.len() - i,
    {
        assert(ms[i as int] == ps[i as int]@);
        assert(ps[i as int] == ast::Param {
            name: ps[i as int].name,
            ty: ps[i as int].ty,
            span: ps[i as int].span,
        });
        let ghost before = ir::types_of(acc@);
        if let Ok(t) = resolve(cx, m, &ps[i].ty, ps[i].span) {
            let ghost added = t@;
            acc.push(t);
            assert(ir::types_of(acc@) =~= before.push(added));
        }
        i += 1;
    }
    acc
}

/// The return type that a function declares, or the unit type.
pub(crate) fn return_type(cx: &Context, m: &String, ret: &Option<ast::TypeExpr>, span: Span) -> (r:
    Result<Type, Diagnostic>)
    ensures
        text::result_view(r) == program::return_type(
            cx@,
            m@,
            match ret {
                Some(t) => Some(t@),
                None => None,
            },
            span,
        ),
{
    proof {
        ir::lemma_plain_nodes();
    }
    match ret {
        Some(t) => resolve(cx, m, t, span),
        None => Ok(Type::Unit),
    }
}

/// Announce the signature of a function or the type of a constant.
fn announce(g: &mut Gathering, m: &String, it: &Item)
    ensures
        final(g)@ == program::announce(old(g)@, (m@, it@)),
{
    reveal(program::announce);
    reveal(Item::model);
    proof {
        ir::lemma_plain_nodes();
    }
    match it {
        Item::Func(f) => {
            assert(*f == ast::Func {
                name: f.name,
                params: f.params,
                ret: f.ret,
                body: f.body,
                span: f.span,
            });
            let full = qualify(m, f.name.as_str());
            if g.cx.funcs.contains_key(full.as_str()) {
                g.diags.push(duplicate("function", &full, f.span));
            } else {
                let params = param_types(&g.cx, m, &f.params);
                let ret = match return_type(&g.cx, m, &f.ret, f.span) {
                    Ok(t) => t,
                    Err(_) => Type::Unit,
                };
                g.cx.funcs.insert(full, Signature { params, ret });
            }
        },
        Item::Const(c) => {
            assert(*c == ast::ConstDef { name: c.name, ty: c.ty, init: c.init, span: c.span });
            let full = qualify(m, c.name.as_str());
            if g.cx.consts.contains_key(full.as_str()) {
                g.diags.push(duplicate("constant", &full, c.span));
            } else if let Ok(t) = resolve(&g.cx, m, &c.ty, c.span) {
                g.cx.consts.insert(full, t);
            }
        },
        _ => {},
    }
}

fn announce_all(g: &mut Gathering, its: &Vec<(String, &Item)>)
    ensures
        final(g)@ == program::announce_all(old(g)@, placed(its@), 0),
{
    let ghost ms = placed(its@);
    let ghost g0 = g@;
    let mut i: usize = 0;
    while i < its.len()
        invariant
            i <= its.len(),
            ms == placed(its@),
            program::announce_all(g0, ms, 0) == program::announce_all(g@, ms, i as int),
        decreases its.len() - i,
    {
        assert(ms[i as int] == (its[i as int].0@, its[i as int].1@));
        announce(g, &its[i].0, its[i].1);
        i += 1;
    }
}

/// Everything that the items declare.
pub(crate) fn gather(its: &Vec<(String, &Item)>) -> (r: Gathering)
    ensures
        r@ == program::gather(placed(its@)),
{
    let mut g = Gathering { cx: Context::new(), diags: Vec::new() };
    assert(model::views(g.diags@) =~= Seq::<Diag>::empty());
    declare_all(&mut g, its);
    fill_all(&mut g, its);
    long_names(&mut g.cx.variants, &g.cx.enums);
    announce_all(&mut g, its);
    g
}

// ---- a function alone ---------------------------------------------------

fn add_plain_variants(acc: &mut NameMap<(String, usize)>, name: &String, vs: &Vec<Variant>)
    ensures
        final(acc)@ == program::plain_variants(old(acc)@, name@, ir::variants_of(vs@), 0),
{
    let ghost a0 = acc@;
    let ghost ms = ir::variants_of(vs@);
    let mut i: usize = 0;
    while i < vs.len()
        invariant
            i <= vs.len(),
            ms == ir::variants_of(vs@),
            program::plain_variants(a0, name@, ms, 0) == program::plain_variants(
                acc@,
                name@,
                ms,
                i as int,
            ),
        decreases vs.len() - i,
    {
        assert(ms[i as int] == vs[i as int]@);
        assert(vs[i as int] == Variant { name: vs[i as int].name, fields: vs[i as int].fields });
        acc.insert(vs[i].name.clone(), (name.clone(), i));
        i += 1;
    }
}

fn variants_of(enums: &NameMap<EnumDef>) -> (r: NameMap<(String, usize)>)
    ensures
        r@ == program::variants_from(Seq::empty(), enums@, 0),
{
    let mut acc: NameMap<(String, usize)> = NameMap::new();
    let mut i: usize = 0;
    while i < enums.len()
        invariant
            i <= enums@.len(),
            program::variants_from(Seq::empty(), enums@, 0) == program::variants_from(
                acc@,
                enums@,
                i as int,
            ),
        decreases enums@.len() - i,
    {
        let (name, e) = enums.at(i);
        assert(*e == EnumDef { name: e.name, variants: e.variants });
        add_plain_variants(&mut acc, name, &e.variants);
        i += 1;
    }
    acc
}

fn signatures(funcs: &NameMap<Func>) -> (r: NameMap<Signature>)
    ensures
        r@ == program::signatures(Seq::empty(), funcs@, 0),
{
    let mut acc: NameMap<Signature> = NameMap::new();
    let mut i: usize = 0;
    while i < funcs.len()
        invariant
            i <= funcs@.len(),
            program::signatures(Seq::empty(), funcs@, 0) == program::signatures(
                acc@,
                funcs@,
                i as int,
            ),
        decreases funcs@.len() - i,
    {
        let (name, f) = funcs.at(i);
        acc.insert(name.clone(), f.signature());
        i += 1;
    }
    acc
}

/// What a function sees that is checked against existing definitions.
pub(crate) fn context_of(
    structs: &NameMap<StructDef>,
    enums: &NameMap<EnumDef>,
    funcs: &NameMap<Func>,
) -> (r: Context)
    ensures
        r@ == program::defs_of(structs@, enums@, funcs@),
{
    let mut variants = variants_of(enums);
    long_names(&mut variants, enums);
    Context {
        structs: structs.dup(),
        enums: enums.dup(),
        variants,
        funcs: signatures(funcs),
        consts: NameMap::new(),
        imports: NameMap::new(),
    }
}

} // verus!
