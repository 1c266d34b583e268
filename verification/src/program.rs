//! The rules for whole programs: which module a program stands for.
//!
//! All items are declared before any is checked, so definitions may refer to one
//! another regardless of their order in the source. Every item is known by its
//! full name, which begins with the names of the modules around it.

use crate::ast::{AConstDef, AFieldDef, AFunc, AItem, AParam, AProgram, ATypeExpr, AVariantDef};
use crate::diagnostic::Diag;
use crate::ir::{self, TConst, TEnum, TField, TFunc, TModule, TParam, TSig, TStruct, TType, TVariant};
use crate::name_map::{self, Table};
use crate::scan::{self, Sought};
use crate::span::Span;
use crate::text::Text;
use crate::typing::{self, AImport, Defs, Site, Var, Vars};
use vstd::prelude::*;

verus! {

/// An item and the full name of the module that holds it.
pub type Placed = (Text, AItem);

/// The items from position `i` on of the module `m`, and those of the modules
/// inside it, in source order. A module whose items were not loaded has none.
pub open spec fn flatten(m: Text, items: Seq<AItem>, i: int) -> Seq<Placed>
    decreases items, items.len() - i,
{
    if i < 0 || i >= items.len() {
        Seq::empty()
    } else {
        let own: Seq<Placed> = match items[i] {
            AItem::Mod(d) => match d.items {
                None => Seq::empty(),
                Some(inner) => flatten(typing::qualify(m, d.name), inner, 0),
            },
            _ => seq![(m, items[i])],
        };
        own + flatten(m, items, i + 1)
    }
}

/// What has been declared so far, and what was wrong with it.
#[verifier::ext_equal]
pub struct Gathered {
    pub defs: Defs,
    pub diags: Seq<Diag>,
}

impl Gathered {
    pub open spec fn complain(self, d: Diag) -> Gathered {
        Gathered { defs: self.defs, diags: self.diags.push(d) }
    }
}

pub open spec fn duplicate(what: Text, name: Text, span: Span) -> Diag {
    typing::type_error("duplicate "@ + what + " `"@ + name + "`"@, span)
}

/// Whether `name` is a type already.
pub open spec fn is_type(defs: Defs, name: Text) -> bool {
    name_map::find(defs.structs, name) is Some || name_map::find(defs.enums, name) is Some
}

// ---- names of types, and imports ----------------------------------------

/// The imports with `u` among them.
pub open spec fn with_import(imports: Table<AImport>, u: AImport) -> Table<AImport> {
    name_map::put(imports, typing::import_key(u), u)
}

#[verifier::opaque]
pub open spec fn declare(g: Gathered, it: Placed) -> Gathered {
    match it.1 {
        AItem::Struct(s) => {
            let full = typing::qualify(it.0, s.name);
            if is_type(g.defs, full) {
                g.complain(duplicate("type"@, full, s.span))
            } else {
                Gathered {
                    defs: Defs {
                        structs: name_map::put(
                            g.defs.structs,
                            full,
                            TStruct { name: full, fields: Seq::empty() },
                        ),
                        ..g.defs
                    },
                    ..g
                }
            }
        },
        AItem::Enum(e) => {
            let full = typing::qualify(it.0, e.name);
            if is_type(g.defs, full) {
                g.complain(duplicate("type"@, full, e.span))
            } else {
                Gathered {
                    defs: Defs {
                        enums: name_map::put(
                            g.defs.enums,
                            full,
                            TEnum { name: full, variants: Seq::empty() },
                        ),
                        ..g.defs
                    },
                    ..g
                }
            }
        },
        AItem::Use(u) => Gathered {
            defs: Defs {
                imports: with_import(
                    g.defs.imports,
                    AImport { module: it.0, path: u.path, glob: u.glob },
                ),
                ..g.defs
            },
            ..g
        },
        _ => g,
    }
}

pub open spec fn declare_all(g: Gathered, its: Seq<Placed>, i: int) -> Gathered
    decreases its.len() - i,
{
    if i < 0 || i >= its.len() {
        g
    } else {
        declare_all(declare(g, its[i]), its, i + 1)
    }
}

// ---- fields and variants ------------------------------------------------

/// Whether one of the first `i` fields is called `name`.
pub open spec fn named_before(fs: Seq<AFieldDef>, name: Text, i: int) -> bool {
    exists|j: int| 0 <= j < i && j < fs.len() && #[trigger] fs[j].name == name
}

/// The fields `acc` of the struct `full` and those from position `i` on, with the
/// diagnostics so far.
pub open spec fn struct_fields(
    defs: Defs,
    m: Text,
    full: Text,
    fs: Seq<AFieldDef>,
    i: int,
    acc: Seq<TField>,
    ds: Seq<Diag>,
) -> (Seq<TField>, Seq<Diag>)
    decreases fs.len() - i,
{
    if i < 0 || i >= fs.len() {
        (acc, ds)
    } else {
        let f = fs[i];
        let ds1 = if named_before(fs, f.name, i) {
            ds.push(
                typing::type_error(
                    "duplicate field `"@ + f.name + "` in struct `"@ + full + "`"@,
                    f.span,
                ),
            )
        } else {
            ds
        };
        match typing::resolve(defs, m, f.ty, f.span) {
            Ok(ty) => struct_fields(
                defs,
                m,
                full,
                fs,
                i + 1,
                acc.push(TField { name: f.name, ty }),
                ds1,
            ),
            Err(d) => struct_fields(defs, m, full, fs, i + 1, acc, ds1.push(d)),
        }
    }
}

/// The types `acc` and those of the annotations from position `i` on that resolve.
pub open spec fn payload(
    defs: Defs,
    m: Text,
    ts: Seq<ATypeExpr>,
    span: Span,
    i: int,
    acc: Seq<TType>,
    ds: Seq<Diag>,
) -> (Seq<TType>, Seq<Diag>)
    decreases ts.len() - i,
{
    if i < 0 || i >= ts.len() {
        (acc, ds)
    } else {
        match typing::resolve(defs, m, ts[i], span) {
            Ok(t) => payload(defs, m, ts, span, i + 1, acc.push(t), ds),
            Err(d) => payload(defs, m, ts, span, i + 1, acc, ds.push(d)),
        }
    }
}

/// One variant of the enum `full`: it is known by its own name in the module, which
/// must be unused.
#[verifier::opaque]
pub open spec fn add_variant(g: Gathered, m: Text, full: Text, v: AVariantDef, tag: usize) -> (
    Gathered,
    TVariant,
) {
    let own = typing::qualify(m, v.name);
    let ds = match name_map::find(g.defs.variants, own) {
        Some((prev, _)) => g.diags.push(
            typing::type_error(
                "variant name `"@ + v.name + "` already used (in enum `"@ + prev
                    + "`); variant names must be unique"@,
                v.span,
            ),
        ),
        None => g.diags,
    };
    let defs = Defs {
        variants: name_map::put(g.defs.variants, own, (full, tag)),
        ..g.defs
    };
    let (tys, ds1) = payload(defs, m, v.fields, v.span, 0, Seq::empty(), ds);
    (Gathered { defs, diags: ds1 }, TVariant { name: v.name, fields: tys })
}

/// The variants `acc` of the enum `full` and those from position `i` on.
pub open spec fn enum_variants(
    g: Gathered,
    m: Text,
    full: Text,
    vs: Seq<AVariantDef>,
    i: int,
    acc: Seq<TVariant>,
) -> (Gathered, Seq<TVariant>)
    decreases vs.len() - i,
{
    if i < 0 || i >= vs.len() {
        (g, acc)
    } else {
        let (g1, v) = add_variant(g, m, full, vs[i], i as usize);
        enum_variants(g1, m, full, vs, i + 1, acc.push(v))
    }
}

#[verifier::opaque]
pub open spec fn fill(g: Gathered, it: Placed) -> Gathered {
    match it.1 {
        AItem::Struct(s) => {
            let full = typing::qualify(it.0, s.name);
            let (fields, diags) = struct_fields(
                g.defs,
                it.0,
                full,
                s.fields,
                0,
                Seq::empty(),
                g.diags,
            );
            if name_map::find(g.defs.structs, full) is Some {
                Gathered {
                    defs: Defs {
                        structs: name_map::put(
                            g.defs.structs,
                            full,
                            TStruct { name: full, fields },
                        ),
                        ..g.defs
                    },
                    diags,
                }
            } else {
                Gathered { diags, ..g }
            }
        },
        AItem::Enum(e) => {
            let full = typing::qualify(it.0, e.name);
            let (g1, variants) = enum_variants(g, it.0, full, e.variants, 0, Seq::empty());
            if name_map::find(g1.defs.enums, full) is Some {
                Gathered {
                    defs: Defs {
                        enums: name_map::put(g1.defs.enums, full, TEnum { name: full, variants }),
                        ..g1.defs
                    },
                    ..g1
                }
            } else {
                g1
            }
        },
        _ => g,
    }
}

pub open spec fn fill_all(g: Gathered, its: Seq<Placed>, i: int) -> Gathered
    decreases its.len() - i,
{
    if i < 0 || i >= its.len() {
        g
    } else {
        fill_all(fill(g, its[i]), its, i + 1)
    }
}

// ---- long names of variants ---------------------------------------------

/// The variants from position `i` on of the enum `name` are also known by
/// `name::variant`, where no variant has that name as its own.
pub open spec fn lengthened(
    acc: Table<(Text, usize)>,
    name: Text,
    vs: Seq<TVariant>,
    i: int,
) -> Table<(Text, usize)>
    decreases vs.len() - i,
{
    if i < 0 || i >= vs.len() {
        acc
    } else {
        let key = name + "::"@ + vs[i].name;
        lengthened(
            if name_map::find(acc, key) is Some {
                acc
            } else {
                name_map::put(acc, key, (name, i as usize))
            },
            name,
            vs,
            i + 1,
        )
    }
}

/// The names `acc` and the long names of the variants of the enums from position `i`
/// on.
pub open spec fn long_names(acc: Table<(Text, usize)>, enums: Table<TEnum>, i: int) -> Table<
    (Text, usize),
>
    decreases enums.len() - i,
{
    if i < 0 || i >= enums.len() {
        acc
    } else {
        long_names(lengthened(acc, enums[i].0, enums[i].1.variants, 0), enums, i + 1)
    }
}

/// The definitions with the long names of their variants.
pub open spec fn lengthen(g: Gathered) -> Gathered {
    Gathered {
        defs: Defs { variants: long_names(g.defs.variants, g.defs.enums, 0), ..g.defs },
        ..g
    }
}

// ---- signatures and the types of constants ------------------------------

/// The parameter types `acc` and those of the parameters from position `i` on
/// that resolve.
pub open spec fn param_types(defs: Defs, m: Text, ps: Seq<AParam>, i: int, acc: Seq<TType>) -> Seq<
    TType,
>
    decreases ps.len() - i,
{
    if i < 0 || i >= ps.len() {
        acc
    } else {
        match typing::resolve(defs, m, ps[i].ty, ps[i].span) {
            Ok(t) => param_types(defs, m, ps, i + 1, acc.push(t)),
            Err(_) => param_types(defs, m, ps, i + 1, acc),
        }
    }
}

/// The return type that a function declares, or the unit type.
pub open spec fn return_type(defs: Defs, m: Text, ret: Option<ATypeExpr>, span: Span) -> Result<
    TType,
    Diag,
> {
    match ret {
        Some(t) => typing::resolve(defs, m, t, span),
        None => Ok(TType::Unit),
    }
}

#[verifier::opaque]
pub open spec fn announce(g: Gathered, it: Placed) -> Gathered {
    match it.1 {
        AItem::Func(f) => {
            let full = typing::qualify(it.0, f.name);
            if name_map::find(g.defs.funcs, full) is Some {
                g.complain(duplicate("function"@, full, f.span))
            } else {
                let sig = TSig {
                    params: param_types(g.defs, it.0, f.params, 0, Seq::empty()),
                    ret: match return_type(g.defs, it.0, f.ret, f.span) {
                        Ok(t) => t,
                        Err(_) => TType::Unit,
                    },
                };
                Gathered {
                    defs: Defs { funcs: name_map::put(g.defs.funcs, full, sig), ..g.defs },
                    ..g
                }
            }
        },
        AItem::Const(c) => {
            let full = typing::qualify(it.0, c.name);
            if name_map::find(g.defs.consts, full) is Some {
                g.complain(duplicate("constant"@, full, c.span))
            } else {
                match typing::resolve(g.defs, it.0, c.ty, c.span) {
                    Err(_) => g,
                    Ok(t) => Gathered {
                        defs: Defs { consts: name_map::put(g.defs.consts, full, t), ..g.defs },
                        ..g
                    },
                }
            }
        },
        _ => g,
    }
}

pub open spec fn announce_all(g: Gathered, its: Seq<Placed>, i: int) -> Gathered
    decreases its.len() - i,
{
    if i < 0 || i >= its.len() {
        g
    } else {
        announce_all(announce(g, its[i]), its, i + 1)
    }
}

// ---- bodies -------------------------------------------------------------

/// The parameters `acc` and those from position `i` on.
pub open spec fn check_params(
    defs: Defs,
    m: Text,
    ps: Seq<AParam>,
    i: int,
    acc: Seq<TParam>,
) -> Result<Seq<TParam>, Diag>
    decreases ps.len() - i,
{
    if i < 0 || i >= ps.len() {
        Ok(acc)
    } else {
        match typing::resolve(defs, m, ps[i].ty, ps[i].span) {
            Err(d) => Err(d),
            Ok(ty) => check_params(defs, m, ps, i + 1, acc.push(TParam { name: ps[i].name, ty })),
        }
    }
}

/// The variables that a function's parameters are.
pub open spec fn param_vars(ps: Seq<TParam>) -> Vars {
    Seq::new(ps.len(), |i: int| (ps[i].name, Var { ty: ps[i].ty, mutable: false }))
}

/// The function `full`: its body has the declared type, unless that is the unit
/// type, which any body has.
pub open spec fn func_result(
    f: AFunc,
    full: Text,
    params: Seq<TParam>,
    ret: TType,
    body: Result<ir::TBlock, Diag>,
) -> Result<TFunc, Diag> {
    match body {
        Err(d) => Err(d),
        Ok(b) => if b.ty != ret && ret != TType::Unit {
            Err(
                typing::type_error(
                    "function `"@ + full + "` should return `"@ + ret.show()
                        + "` but its body has type `"@ + b.ty.show() + "`"@,
                    f.body.span,
                ),
            )
        } else {
            Ok(TFunc { name: full, params, ret, body: b })
        },
    }
}

/// The function `f` of the module `m`.
#[verifier::opaque]
pub open spec fn check_func(defs: Defs, m: Text, f: AFunc) -> Result<TFunc, Diag> {
    match check_params(defs, m, f.params, 0, Seq::empty()) {
        Err(d) => Err(d),
        Ok(params) => match return_type(defs, m, f.ret, f.span) {
            Err(d) => Err(d),
            Ok(ret) => func_result(
                f,
                typing::qualify(m, f.name),
                params,
                ret,
                typing::check_block(
                    Site { defs, module: m, ret },
                    param_vars(params),
                    f.body,
                    Some(ret),
                ),
            ),
        },
    }
}

/// The constant `c` of the module `m`. Its initialiser sees no variables and has no
/// function to return from.
#[verifier::opaque]
pub open spec fn check_const(defs: Defs, m: Text, c: AConstDef) -> Result<TConst, Diag> {
    match typing::resolve(defs, m, c.ty, c.span) {
        Err(d) => Err(d),
        Ok(ty) => match typing::check_expr(
            Site { defs, module: m, ret: TType::Unit },
            Seq::empty(),
            c.init,
            Some(ty),
        ) {
            Err(d) => Err(d),
            Ok(init) => match typing::expect_type(init.ty, ty, c.span, "constant"@) {
                Err(d) => Err(d),
                Ok(_) => if scan::expr_has(init, Sought::Return) {
                    Err(
                        typing::type_error(
                            "`return` cannot stand in the initialiser of a constant"@,
                            c.span,
                        ),
                    )
                } else {
                    Ok(TConst { name: typing::qualify(m, c.name), ty, init })
                },
            },
        },
    }
}

/// The functions and constants checked so far, and what was wrong with others.
#[verifier::ext_equal]
pub struct Built {
    pub funcs: Table<TFunc>,
    pub consts: Table<TConst>,
    pub diags: Seq<Diag>,
}

#[verifier::opaque]
pub open spec fn build(defs: Defs, b: Built, it: Placed) -> Built {
    match it.1 {
        AItem::Func(f) => match check_func(defs, it.0, f) {
            Ok(x) => Built { funcs: name_map::put(b.funcs, x.name, x), ..b },
            Err(d) => Built { diags: b.diags.push(d), ..b },
        },
        AItem::Const(c) => match check_const(defs, it.0, c) {
            Ok(x) => Built { consts: name_map::put(b.consts, x.name, x), ..b },
            Err(d) => Built { diags: b.diags.push(d), ..b },
        },
        _ => b,
    }
}

pub open spec fn build_all(defs: Defs, b: Built, its: Seq<Placed>, i: int) -> Built
    decreases its.len() - i,
{
    if i < 0 || i >= its.len() {
        b
    } else {
        build_all(defs, build(defs, b, its[i]), its, i + 1)
    }
}

/// Everything that the items declare.
pub open spec fn gather(its: Seq<Placed>) -> Gathered {
    let g0 = Gathered { defs: Defs::none(), diags: Seq::empty() };
    announce_all(lengthen(fill_all(declare_all(g0, its, 0), its, 0)), its, 0)
}

/// The module that a program stands for, or the diagnostics of all its items.
pub open spec fn check_program(p: AProgram) -> Result<TModule, Seq<Diag>> {
    let its = flatten(Seq::empty(), p.items, 0);
    let g = gather(its);
    if g.diags.len() > 0 {
        Err(g.diags)
    } else {
        let b = build_all(
            g.defs,
            Built { funcs: Seq::empty(), consts: Seq::empty(), diags: Seq::empty() },
            its,
            0,
        );
        if b.diags.len() > 0 {
            Err(b.diags)
        } else {
            Ok(
                TModule {
                    structs: g.defs.structs,
                    enums: g.defs.enums,
                    funcs: b.funcs,
                    consts: b.consts,
                },
            )
        }
    }
}

// ---- a function alone ---------------------------------------------------

/// The variants from position `i` on of the enum `name`, by their own names.
pub open spec fn plain_variants(
    acc: Table<(Text, usize)>,
    name: Text,
    vs: Seq<TVariant>,
    i: int,
) -> Table<(Text, usize)>
    decreases vs.len() - i,
{
    if i < 0 || i >= vs.len() {
        acc
    } else {
        plain_variants(
            name_map::put(acc, vs[i].name, (name, i as usize)),
            name,
            vs,
            i + 1,
        )
    }
}

/// The variants of the enums from position `i` on.
pub open spec fn variants_from(acc: Table<(Text, usize)>, enums: Table<TEnum>, i: int) -> Table<
    (Text, usize),
>
    decreases enums.len() - i,
{
    if i < 0 || i >= enums.len() {
        acc
    } else {
        variants_from(plain_variants(acc, enums[i].0, enums[i].1.variants, 0), enums, i + 1)
    }
}

/// The signatures of the functions from position `i` on.
pub open spec fn signatures(acc: Table<TSig>, funcs: Table<TFunc>, i: int) -> Table<TSig>
    decreases funcs.len() - i,
{
    if i < 0 || i >= funcs.len() {
        acc
    } else {
        signatures(name_map::put(acc, funcs[i].0, funcs[i].1.sig()), funcs, i + 1)
    }
}

/// What a function sees that is checked against existing definitions.
pub open spec fn defs_of(structs: Table<TStruct>, enums: Table<TEnum>, funcs: Table<TFunc>) -> Defs {
    Defs {
        structs,
        enums,
        variants: long_names(variants_from(Seq::empty(), enums, 0), enums, 0),
        funcs: signatures(Seq::empty(), funcs, 0),
        consts: Seq::empty(),
        imports: Seq::empty(),
    }
}

} // verus!
