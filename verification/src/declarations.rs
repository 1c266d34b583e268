//! What the items of a program declare: names that differ, types as they are written,
//! functions of the declared type, and what a name means in a module.

use crate::ast::{AConstDef, AFieldDef, AFunc, AItem, AModDef, AParam, AProgram, ATypeExpr};
use crate::catalogue;
use crate::diagnostic::Diag;
use crate::ir::{IntTy, TConst, TEnum, TField, TParam, TType, TVariant};
use crate::name_map::{self, Table};
use crate::ordering;
use crate::program::{self, Placed};
use crate::safety;
use crate::scan::{self, Sought};
use crate::span::Span;
use crate::text::{self, Text};
use crate::typing::{self, AImport, Defs, Site, Var};
use vstd::prelude::*;

verus! {

// ---- programs -----------------------------------------------------------

/// The name of an item, with that of its module in front.
pub open spec fn full_name(it: Placed) -> Text {
    let own = match it.1 {
        AItem::Func(f) => f.name,
        AItem::Struct(s) => s.name,
        AItem::Enum(e) => e.name,
        AItem::Const(c) => c.name,
        _ => Seq::empty(),
    };
    if it.0.len() == 0 {
        own
    } else {
        it.0 + "::"@ + own
    }
}

/// In an accepted program no two functions have one name, no two constants and no two types,
/// be they structs or enums; the variants of all the enums of a module have different names.
pub proof fn law_names_are_unique(p: AProgram, i: int, j: int)
    requires
        program::check_program(p) is Ok,
        0 <= i < j < ordering::items_of(p).len(),
    ensures
        ({
            let a = ordering::items_of(p)[i];
            let b = ordering::items_of(p)[j];
            &&& a.1 is Func && b.1 is Func ==> full_name(a) != full_name(b)
            &&& a.1 is Const && b.1 is Const ==> full_name(a) != full_name(b)
            &&& (a.1 is Struct || a.1 is Enum) && (b.1 is Struct || b.1 is Enum) ==> full_name(a)
                != full_name(b)
            &&& a.1 matches AItem::Enum(x) ==> (b.1 matches AItem::Enum(y) ==> a.0 == b.0
                ==> forall|k: int, l: int|
                0 <= k < x.variants.len() && 0 <= l < y.variants.len() ==> (
                #[trigger] x.variants[k]).name != (#[trigger] y.variants[l]).name)
        }),
{
    let its = ordering::items_of(p);
    lemma_program(p);
    assert(ordering::apart(its[i], its[j]));
    assert(catalogue::types_differ(its[i], its[j]));
    let a = its[i];
    let b = its[j];
    if let AItem::Enum(x) = a.1 {
        if let AItem::Enum(y) = b.1 {
            if a.0 == b.0 {
                assert forall|k: int, l: int|
                    0 <= k < x.variants.len() && 0 <= l < y.variants.len() implies (
                #[trigger] x.variants[k]).name != (#[trigger] y.variants[l]).name by {
                    assert(catalogue::place(its, i, k));
                    assert(catalogue::place(its, j, l));
                }
            }
        }
    }
}

/// What is known of the tables of an accepted program.
proof fn lemma_program(p: AProgram)
    requires
        program::check_program(p) is Ok,
    ensures
        ({
            let its = ordering::items_of(p);
            let d0 = program::declare_all(ordering::nothing(), its, 0).defs;
            let d = safety::program_defs(p);
            let m = program::check_program(p)->Ok_0;
            &&& ordering::all_apart(its, 0)
            &&& catalogue::types_apart(its, 0)
            &&& catalogue::owns_apart(its)
            &&& forall|j: int| 0 <= j < its.len() ==> ordering::accepted(d, #[trigger] its[j])
            &&& forall|j: int| 0 <= j < its.len() ==> catalogue::item_ok(d0, #[trigger] its[j])
            &&& forall|j: int|
                0 <= j < its.len() ==> catalogue::entered(
                    ordering::filled(its).defs,
                    d0,
                    #[trigger] its[j],
                )
            &&& m.structs == ordering::filled(its).defs.structs
            &&& m.enums == ordering::filled(its).defs.enums
            &&& forall|j: int|
                0 <= j < its.len() ==> ordering::stands(
                    d,
                    program::build_all(d, ordering::no_bodies(), its, 0),
                    #[trigger] its[j],
                )
        }),
{
    let its = ordering::items_of(p);
    let g1 = program::declare_all(ordering::nothing(), its, 0);
    let g2 = program::lengthen(ordering::filled(its));
    let g = program::announce_all(g2, its, 0);
    assert(g == program::gather(its));
    safety::lemma_declare_all(ordering::nothing(), its, 0);
    safety::lemma_fill_all(g1, its, 0);
    safety::lemma_announce_all(g2, its, 0);
    assert(g2.defs.funcs == Seq::<(Text, crate::ir::TSig)>::empty());
    ordering::lemma_consts_known(g.defs, its);
    ordering::lemma_known_same(g.defs, g2.defs, its);
    ordering::lemma_announce_clean(g2, its, 0);
    ordering::lemma_filled(its);
    catalogue::lemma_declare_all(ordering::nothing(), its, 0);
    ordering::lemma_build_clean(g.defs, ordering::no_bodies(), its, 0);
    ordering::lemma_build_all(g.defs, ordering::no_bodies(), its, 0);
}

/// An accepted program gives a module in which each function and each constant stands under
/// its name, as it was checked.
pub proof fn law_modules_hold_what_is_declared(p: AProgram, j: int)
    requires
        program::check_program(p) is Ok,
        0 <= j < ordering::items_of(p).len(),
    ensures
        ({
            let it = ordering::items_of(p)[j];
            let m = program::check_program(p)->Ok_0;
            let d = safety::program_defs(p);
            &&& it.1 matches AItem::Func(f) ==> (program::check_func(d, it.0, f) matches Ok(x)
                && name_map::find(m.funcs, full_name(it)) == Some(x))
            &&& it.1 matches AItem::Const(c) ==> (program::check_const(d, it.0, c) matches Ok(x)
                && name_map::find(m.consts, full_name(it)) == Some(x))
        }),
{
    lemma_program(p);
    let its = ordering::items_of(p);
    let d = safety::program_defs(p);
    assert(ordering::stands(d, program::build_all(d, ordering::no_bodies(), its, 0), its[j]));
}

/// A struct of an accepted program has the fields that are written, in their order, and
/// their names differ.
pub proof fn law_structs_have_the_written_fields(p: AProgram, j: int)
    requires
        program::check_program(p) is Ok,
        0 <= j < ordering::items_of(p).len(),
        ordering::items_of(p)[j].1 is Struct,
    ensures
        ({
            let it = ordering::items_of(p)[j];
            let fs = it.1->Struct_0.fields;
            let m = program::check_program(p)->Ok_0;
            &&& name_map::find(m.structs, full_name(it)) matches Some(s) && s.fields.len() == fs.len()
                && forall|k: int| 0 <= k < fs.len() ==> (#[trigger] s.fields[k]).name == fs[k].name
            &&& forall|k: int, l: int|
                0 <= k < l < fs.len() ==> (#[trigger] fs[k]).name != (#[trigger] fs[l]).name
        }),
{
    lemma_program(p);
    let its = ordering::items_of(p);
    let it = its[j];
    let d0 = program::declare_all(ordering::nothing(), its, 0).defs;
    assert(catalogue::item_ok(d0, it));
    assert(catalogue::entered(ordering::filled(its).defs, d0, it));
    let s = it.1->Struct_0;
    lemma_fields(d0, it.0, catalogue::full(it), s.fields, 0, Seq::empty(), Seq::empty());
}

proof fn lemma_fields(
    d: Defs,
    m: Text,
    full: Text,
    fs: Seq<AFieldDef>,
    i: int,
    acc: Seq<TField>,
    ds: Seq<Diag>,
)
    requires
        0 <= i <= fs.len(),
        acc.len() == i,
        forall|k: int| 0 <= k < i ==> (#[trigger] acc[k]).name == fs[k].name,
        forall|k: int, l: int|
            0 <= k < l < i ==> (#[trigger] fs[k]).name != (#[trigger] fs[l]).name,
    ensures
        ({
            let r = program::struct_fields(d, m, full, fs, i, acc, ds);
            &&& r.1.len() >= ds.len()
            &&& r.1.len() == ds.len() ==> r.0.len() == fs.len() && (forall|k: int|
                0 <= k < fs.len() ==> (#[trigger] r.0[k]).name == fs[k].name) && forall|
                k: int,
                l: int,
            |
                0 <= k < l < fs.len() ==> (#[trigger] fs[k]).name != (#[trigger] fs[l]).name
        }),
    decreases fs.len() - i,
{
    if i < fs.len() {
        let f = fs[i];
        let ds1 = if program::named_before(fs, f.name, i) {
            ds.push(
                typing::type_error(
                    "duplicate field `"@ + f.name + "` in struct `"@ + full + "`"@,
                    f.span,
                ),
            )
        } else {
            ds
        };
        lemma_more(d, m, full, fs, i + 1, acc, ds1);
        match typing::resolve(d, m, f.ty, f.span) {
            Ok(ty) => {
                let acc1 = acc.push(TField { name: f.name, ty });
                lemma_more(d, m, full, fs, i + 1, acc1, ds1);
                if !program::named_before(fs, f.name, i) {
                    assert forall|k: int, l: int| 0 <= k < l < i + 1 implies (
                    #[trigger] fs[k]).name != (#[trigger] fs[l]).name by {
                        if l == i {
                            assert(fs[k].name != f.name);
                        }
                    }
                    lemma_fields(d, m, full, fs, i + 1, acc1, ds1);
                }
            },
            Err(e) => lemma_more(d, m, full, fs, i + 1, acc, ds1.push(e)),
        }
    }
}

proof fn lemma_more(
    d: Defs,
    m: Text,
    full: Text,
    fs: Seq<AFieldDef>,
    i: int,
    acc: Seq<TField>,
    ds: Seq<Diag>,
)
    ensures
        program::struct_fields(d, m, full, fs, i, acc, ds).1.len() >= ds.len(),
    decreases fs.len() - i,
{
    if 0 <= i < fs.len() {
        let f = fs[i];
        let ds1 = if program::named_before(fs, f.name, i) {
            ds.push(
                typing::type_error(
                    "duplicate field `"@ + f.name + "` in struct `"@ + full + "`"@,
                    f.span,
                ),
            )
        } else {
            ds
        };
        match typing::resolve(d, m, f.ty, f.span) {
            Ok(ty) => lemma_more(
                d,
                m,
                full,
                fs,
                i + 1,
                acc.push(TField { name: f.name, ty }),
                ds1,
            ),
            Err(e) => lemma_more(d, m, full, fs, i + 1, acc, ds1.push(e)),
        }
    }
}

/// An enum of an accepted program has the variants that are written, in their order, each
/// with as many values as are written.
pub proof fn law_enums_have_the_written_variants(p: AProgram, j: int)
    requires
        program::check_program(p) is Ok,
        0 <= j < ordering::items_of(p).len(),
        ordering::items_of(p)[j].1 is Enum,
    ensures
        ({
            let it = ordering::items_of(p)[j];
            let vs = it.1->Enum_0.variants;
            let m = program::check_program(p)->Ok_0;
            name_map::find(m.enums, full_name(it)) matches Some(e) && e.variants.len() == vs.len()
                && forall|k: int|
                0 <= k < vs.len() ==> (#[trigger] e.variants[k]).name == vs[k].name
                    && e.variants[k].fields.len() == vs[k].fields.len()
        }),
{
    lemma_program(p);
    let its = ordering::items_of(p);
    let it = its[j];
    let d0 = program::declare_all(ordering::nothing(), its, 0).defs;
    assert(catalogue::item_ok(d0, it));
    assert(catalogue::entered(ordering::filled(its).defs, d0, it));
    let vs = it.1->Enum_0.variants;
    assert forall|k: int| 0 <= k < vs.len() implies catalogue::payload_of(d0, it, k).0.len()
        == (#[trigger] vs[k]).fields.len() by {
        assert(catalogue::payload_of(d0, it, k).1.len() == 0);
        lemma_payload(d0, it.0, vs[k].fields, vs[k].span, 0, Seq::empty(), Seq::empty());
    }
}

proof fn lemma_payload(
    d: Defs,
    m: Text,
    ts: Seq<ATypeExpr>,
    span: Span,
    i: int,
    acc: Seq<TType>,
    ds: Seq<Diag>,
)
    requires
        0 <= i <= ts.len(),
        acc.len() <= i,
    ensures
        ({
            let r = program::payload(d, m, ts, span, i, acc, ds);
            &&& r.1.len() >= ds.len()
            &&& r.1.len() == ds.len() ==> r.0.len() == acc.len() + ts.len() - i
        }),
    decreases ts.len() - i,
{
    if i < ts.len() {
        match typing::resolve(d, m, ts[i], span) {
            Ok(t) => lemma_payload(d, m, ts, span, i + 1, acc.push(t), ds),
            Err(e) => lemma_payload(d, m, ts, span, i + 1, acc, ds.push(e)),
        }
    }
}

// ---- functions and constants --------------------------------------------

/// The type that a function says it returns.
pub open spec fn said_to_return(d: Defs, m: Text, f: AFunc) -> Result<TType, Diag> {
    match f.ret {
        Some(t) => typing::resolve(d, m, t, f.span),
        None => Ok(TType::Unit),
    }
}

/// A function is accepted exactly if the types of its parameters and of its result are known
/// and its body is accepted, with the parameters in scope and none of them assignable, and is
/// of the type that the function says it returns; where it says none, of any type.
pub proof fn law_functions_are_accepted(d: Defs, m: Text, f: AFunc)
    ensures
        ({
            let r = program::check_func(d, m, f);
            let known = forall|i: int|
                0 <= i < f.params.len() ==> typing::resolve(
                    d,
                    m,
                    (#[trigger] f.params[i]).ty,
                    f.params[i].span,
                ) is Ok;
            let ret = said_to_return(d, m, f);
            let vars = Seq::new(
                f.params.len(),
                |i: int|
                    (
                        f.params[i].name,
                        Var {
                            ty: typing::resolve(d, m, f.params[i].ty, f.params[i].span)->Ok_0,
                            mutable: false,
                        },
                    ),
            );
            let body = typing::check_block(
                Site { defs: d, module: m, ret: ret->Ok_0 },
                vars,
                f.body,
                Some(ret->Ok_0),
            );
            &&& r is Ok <==> known && ret is Ok && body is Ok && (ret->Ok_0 is Unit || body->Ok_0.ty
                == ret->Ok_0)
            &&& r matches Ok(x) ==> {
                &&& x.name == full_name((m, AItem::Func(f)))
                &&& x.ret == ret->Ok_0
                &&& x.body == body->Ok_0
                &&& x.params.len() == f.params.len()
                &&& forall|i: int|
                    0 <= i < f.params.len() ==> #[trigger] x.params[i] == (TParam {
                        name: f.params[i].name,
                        ty: typing::resolve(d, m, f.params[i].ty, f.params[i].span)->Ok_0,
                    })
            }
        }),
{
    reveal(program::check_func);
    lemma_params(d, m, f.params, 0, Seq::empty());
    let known = program::check_params(d, m, f.params, 0, Seq::empty());
    if let Ok(ps) = known {
        let vars = Seq::new(
            f.params.len(),
            |i: int|
                (
                    f.params[i].name,
                    Var {
                        ty: typing::resolve(d, m, f.params[i].ty, f.params[i].span)->Ok_0,
                        mutable: false,
                    },
                ),
        );
        assert(program::param_vars(ps) =~= vars);
    }
}

proof fn lemma_params(d: Defs, m: Text, ps: Seq<AParam>, i: int, acc: Seq<TParam>)
    requires
        0 <= i <= ps.len(),
        acc.len() == i,
        forall|k: int|
            0 <= k < i ==> #[trigger] acc[k] == (TParam {
                name: ps[k].name,
                ty: typing::resolve(d, m, ps[k].ty, ps[k].span)->Ok_0,
            }),
    ensures
        ({
            let r = program::check_params(d, m, ps, i, acc);
            &&& r is Ok <==> forall|k: int|
                i <= k < ps.len() ==> typing::resolve(d, m, (#[trigger] ps[k]).ty, ps[k].span) is Ok
            &&& r matches Ok(xs) ==> xs.len() == ps.len() && forall|k: int|
                0 <= k < ps.len() ==> #[trigger] xs[k] == (TParam {
                    name: ps[k].name,
                    ty: typing::resolve(d, m, ps[k].ty, ps[k].span)->Ok_0,
                })
        }),
    decreases ps.len() - i,
{
    if i < ps.len() {
        match typing::resolve(d, m, ps[i].ty, ps[i].span) {
            Ok(ty) => lemma_params(d, m, ps, i + 1, acc.push(TParam { name: ps[i].name, ty })),
            Err(_) => {},
        }
    }
}

/// A constant is accepted exactly if its type is known, and its initialiser is of that type,
/// reads no variable and holds no `return`.
pub proof fn law_constants_are_accepted(d: Defs, m: Text, c: AConstDef)
    ensures
        ({
            let r = program::check_const(d, m, c);
            let ty = typing::resolve(d, m, c.ty, c.span);
            let init = typing::check_expr(
                Site { defs: d, module: m, ret: TType::Unit },
                Seq::empty(),
                c.init,
                Some(ty->Ok_0),
            );
            &&& r is Ok <==> ty is Ok && init is Ok && init->Ok_0.ty == ty->Ok_0 && !scan::expr_has(
                init->Ok_0,
                Sought::Return,
            )
            &&& r matches Ok(x) ==> x == (TConst {
                name: full_name((m, AItem::Const(c))),
                ty: ty->Ok_0,
                init: init->Ok_0,
            })
        }),
{
    reveal(program::check_const);
    reveal(typing::expect_type);
}

// ---- names --------------------------------------------------------------

/// A path means the definition of that name in its own module where there is one. Without
/// imports in the module it means, failing that, the definition of that name at the root,
/// and failing that nothing.
pub proof fn law_paths_mean_the_nearest_definition<T>(
    map: Table<T>,
    imports: Table<AImport>,
    m: Text,
    segs: Seq<Text>,
)
    ensures
        ({
            let t = text::join_texts(segs, "::"@);
            let near = if m.len() == 0 {
                t
            } else {
                m + "::"@ + t
            };
            &&& name_map::find(map, near) matches Some(v) ==> typing::look_up(map, imports, m, segs)
                == Some((near, v))
            &&& name_map::find(map, near) is None && (forall|i: int|
                0 <= i < imports.len() ==> (#[trigger] imports[i]).1.module != m) ==> typing::look_up(
                map,
                imports,
                m,
                segs,
            ) == (match name_map::find(map, t) {
                Some(v) => Some((t, v)),
                None => None,
            })
        }),
{
    if forall|i: int| 0 <= i < imports.len() ==> (#[trigger] imports[i]).1.module != m {
        lemma_no_import(map, imports, m, segs, 0);
    }
}

proof fn lemma_no_import<T>(
    map: Table<T>,
    imports: Table<AImport>,
    m: Text,
    segs: Seq<Text>,
    i: int,
)
    requires
        0 <= i,
        forall|i: int| 0 <= i < imports.len() ==> (#[trigger] imports[i]).1.module != m,
    ensures
        typing::import_hit(map, imports, m, segs, i) is None,
    decreases imports.len() - i,
{
    if i < imports.len() {
        assert(imports[i].1.module != m);
        lemma_no_import(map, imports, m, segs, i + 1);
    }
}

/// Behind `use a::b::c` the name `c` stands for the path `a::b::c`, and behind `use a::b::*`
/// every name stands for that name in `a::b`: where the module has nothing of its own under
/// the name and no other import, the path means the definition that the import leads to.
pub proof fn law_imports_lead_to_definitions<T>(
    map: Table<T>,
    u: (Text, AImport),
    name: Text,
    v: T,
    path: Seq<Text>,
)
    requires
        u.1.glob ==> path == u.1.path + seq![name],
        !u.1.glob ==> u.1.path.len() > 0 && u.1.path.last() == name && path == u.1.path,
        name_map::find(map, typing::qualify(u.1.module, text::join_texts(seq![name], "::"@)))
            is None,
        name_map::find(map, typing::qualify(u.1.module, text::join_texts(path, "::"@))) is None,
        name_map::find(map, text::join_texts(path, "::"@)) == Some(v),
    ensures
        typing::look_up(map, seq![u], u.1.module, seq![name]) == Some(
            (text::join_texts(path, "::"@), v),
        ),
{
    let segs = seq![name];
    if !u.1.glob {
        assert(segs.subrange(1, 1) =~= Seq::<Text>::empty());
        assert(u.1.path + segs.subrange(1, 1) =~= u.1.path);
    }
    assert(typing::imported(u.1, u.1.module, segs) == Some(path));
    assert(seq![u][0] == u);
}

/// The path of an import is taken in the module that imports before it is taken from the root.
pub proof fn law_imports_are_taken_near_first<T>(
    map: Table<T>,
    u: (Text, AImport),
    name: Text,
    v: T,
    path: Seq<Text>,
)
    requires
        u.1.glob ==> path == u.1.path + seq![name],
        !u.1.glob ==> u.1.path.len() > 0 && u.1.path.last() == name && path == u.1.path,
        name_map::find(map, typing::qualify(u.1.module, text::join_texts(seq![name], "::"@)))
            is None,
        name_map::find(map, typing::qualify(u.1.module, text::join_texts(path, "::"@))) == Some(v),
    ensures
        typing::look_up(map, seq![u], u.1.module, seq![name]) == Some(
            (typing::qualify(u.1.module, text::join_texts(path, "::"@)), v),
        ),
{
    let segs = seq![name];
    if !u.1.glob {
        assert(segs.subrange(1, 1) =~= Seq::<Text>::empty());
        assert(u.1.path + segs.subrange(1, 1) =~= u.1.path);
    }
    assert(typing::imported(u.1, u.1.module, segs) == Some(path));
    assert(seq![u][0] == u);
}

/// An import of a single name goes before one of all names.
pub proof fn law_single_imports_go_first(u: AImport, g: AImport)
    requires
        !u.glob,
        g.glob,
    ensures
        text::text_less(typing::import_key(u), typing::import_key(g)),
{
    reveal_strlit("*");
    reveal_strlit("!");
    let a = typing::import_key(u);
    let b = typing::import_key(g);
    assert(a[0] == '!' && b[0] == '*');
}

/// The types that are written stand for themselves: `bool`, the integers and the bits by
/// their width and sign, arrays by their element and length. One in brackets alone stands
/// for itself.
pub proof fn law_written_types(
    d: Defs,
    m: Text,
    span: Span,
    signed: bool,
    width: u32,
    t: ATypeExpr,
    len: u64,
)
    ensures
        typing::resolve(d, m, ATypeExpr::Bool, span) == Ok::<TType, Diag>(TType::Bool),
        typing::resolve(d, m, ATypeExpr::Unit, span) == Ok::<TType, Diag>(TType::Unit),
        typing::resolve(d, m, ATypeExpr::Int { signed, width }, span) == Ok::<TType, Diag>(
            TType::Int(IntTy { signed, width }),
        ),
        typing::resolve(d, m, ATypeExpr::Bit { width }, span) == Ok::<TType, Diag>(
            TType::Bit(width),
        ),
        typing::resolve(d, m, t, span) matches Ok(e) ==> typing::resolve(
            d,
            m,
            ATypeExpr::Array { elem: Box::new(t), len },
            span,
        ) == Ok::<TType, Diag>(TType::Array(Box::new(e), len)),
        typing::resolve(d, m, ATypeExpr::Tuple(seq![t]), span) == typing::resolve(d, m, t, span),
        typing::resolve(d, m, ATypeExpr::Tuple(Seq::empty()), span) == Ok::<TType, Diag>(
            TType::Unit,
        ),
{
    let ts = seq![t];
    assert(ts[0] == t);
    if let Ok(e) = typing::resolve(d, m, t, span) {
        let acc = Seq::<TType>::empty().push(e);
        assert(typing::resolve_all(d, m, ts, span, 1, acc) == Ok::<Seq<TType>, Diag>(acc));
        assert(typing::resolve_all(d, m, ts, span, 0, Seq::empty()) == Ok::<Seq<TType>, Diag>(acc));
    }
    let none = Seq::<ATypeExpr>::empty();
    assert(typing::resolve_all(d, m, none, span, 0, Seq::empty()) == Ok::<Seq<TType>, Diag>(
        Seq::empty(),
    ));
}

/// A tuple type of two or more types stands for the tuple of what they stand for, in order.
pub proof fn law_written_tuples(d: Defs, m: Text, span: Span, ts: Seq<ATypeExpr>, es: Seq<TType>)
    requires
        ts.len() >= 2,
        es.len() == ts.len(),
        forall|i: int|
            0 <= i < ts.len() ==> typing::resolve(d, m, #[trigger] ts[i], span) == Ok::<TType, Diag>(
                es[i],
            ),
    ensures
        typing::resolve(d, m, ATypeExpr::Tuple(ts), span) == Ok::<TType, Diag>(TType::Tuple(es)),
{
    assert(Seq::<TType>::empty() =~= es.subrange(0, 0));
    lemma_tuple(d, m, span, ts, es, 0, Seq::empty());
}

proof fn lemma_tuple(
    d: Defs,
    m: Text,
    span: Span,
    ts: Seq<ATypeExpr>,
    es: Seq<TType>,
    i: int,
    acc: Seq<TType>,
)
    requires
        0 <= i <= ts.len(),
        es.len() == ts.len(),
        acc == es.subrange(0, i),
        forall|i: int|
            0 <= i < ts.len() ==> typing::resolve(d, m, #[trigger] ts[i], span) == Ok::<TType, Diag>(
                es[i],
            ),
    ensures
        typing::resolve_all(d, m, ts, span, i, acc) == Ok::<Seq<TType>, Diag>(es),
    decreases ts.len() - i,
{
    if i < ts.len() {
        assert(typing::resolve(d, m, ts[i], span) == Ok::<TType, Diag>(es[i]));
        assert(acc.push(es[i]) =~= es.subrange(0, i + 1));
        lemma_tuple(d, m, span, ts, es, i + 1, acc.push(es[i]));
    } else {
        assert(acc =~= es);
    }
}

// ---- variants and modules -----------------------------------------------

proof fn lemma_lengthened(acc: Table<(Text, usize)>, name: Text, vs: Seq<TVariant>, i: int)
    requires
        name_map::sorted(acc),
        0 <= i,
    ensures
        name_map::sorted(program::lengthened(acc, name, vs, i)),
        catalogue::grown(acc, program::lengthened(acc, name, vs, i)),
    decreases vs.len() - i,
{
    if i < vs.len() {
        let key = name + "::"@ + vs[i].name;
        let next = if name_map::find(acc, key) is Some {
            acc
        } else {
            name_map::put(acc, key, (name, i as usize))
        };
        if name_map::find(acc, key) is None {
            name_map::law_put_keeps_sorted(acc, key, (name, i as usize));
            assert forall|k: Text| #[trigger] name_map::find(acc, k) is Some implies name_map::find(
                next,
                k,
            ) == name_map::find(acc, k) by {
                name_map::law_put_then_find(acc, key, (name, i as usize), k);
            }
        }
        lemma_lengthened(next, name, vs, i + 1);
        assert forall|k: Text| #[trigger] name_map::find(acc, k) is Some implies name_map::find(
            program::lengthened(acc, name, vs, i),
            k,
        ) == name_map::find(acc, k) by {
            assert(name_map::find(next, k) == name_map::find(acc, k));
        }
    }
}

proof fn lemma_long_names(acc: Table<(Text, usize)>, enums: Table<TEnum>, i: int)
    requires
        name_map::sorted(acc),
        0 <= i,
    ensures
        catalogue::grown(acc, program::long_names(acc, enums, i)),
    decreases enums.len() - i,
{
    if i < enums.len() {
        let next = program::lengthened(acc, enums[i].0, enums[i].1.variants, 0);
        lemma_lengthened(acc, enums[i].0, enums[i].1.variants, 0);
        lemma_long_names(next, enums, i + 1);
        assert forall|k: Text| #[trigger] name_map::find(acc, k) is Some implies name_map::find(
            program::long_names(acc, enums, i),
            k,
        ) == name_map::find(acc, k) by {
            assert(name_map::find(next, k) == name_map::find(acc, k));
        }
    }
}

/// In its module a variant of an accepted program is known by its own name, as the variant at
/// its place of its enum, with as many values as are written.
pub proof fn law_variants_are_known_by_their_names(p: AProgram, j: int, k: int)
    requires
        program::check_program(p) is Ok,
        0 <= j < ordering::items_of(p).len(),
        ordering::items_of(p)[j].1 is Enum,
        0 <= k < ordering::items_of(p)[j].1->Enum_0.variants.len() <= usize::MAX,
    ensures
        ({
            let it = ordering::items_of(p)[j];
            let v = it.1->Enum_0.variants[k];
            typing::find_variant(safety::program_defs(p), it.0, seq![v.name]) matches Some(
                (n, tag, tys),
            ) && n == full_name(it) && tag == k && tys.len() == v.fields.len()
        }),
{
    let its = ordering::items_of(p);
    let it = its[j];
    let vs = it.1->Enum_0.variants;
    let v = vs[k];
    let d = safety::program_defs(p);
    let f = ordering::filled(its);
    let g2 = program::lengthen(f);
    lemma_program(p);
    law_enums_have_the_written_variants(p, j);
    assert(catalogue::entered(
        f.defs,
        program::declare_all(ordering::nothing(), its, 0).defs,
        it,
    ));
    assert(catalogue::known(f.defs.variants, it, k));
    lemma_lengthen(p);
    assert(d.variants == g2.defs.variants);
    lemma_long_names(f.defs.variants, f.defs.enums, 0);
    let own = typing::qualify(it.0, v.name);
    assert(name_map::find(d.variants, own) == Some((catalogue::full(it), k as usize)));
    let segs = seq![v.name];
    assert(typing::path_text(segs) =~= v.name) by {
        assert(Seq::<char>::empty() + v.name =~= v.name);
        assert(text::join_from(segs, "::"@, 1, Seq::<char>::empty() + segs[0])
            == Seq::<char>::empty() + segs[0]);
    }
}

proof fn lemma_lengthen(p: AProgram)
    requires
        program::check_program(p) is Ok,
    ensures
        ({
            let its = ordering::items_of(p);
            let f = ordering::filled(its);
            let d = safety::program_defs(p);
            &&& name_map::sorted(f.defs.variants)
            &&& d.variants == program::lengthen(f).defs.variants
            &&& d.enums == f.defs.enums
            &&& program::check_program(p)->Ok_0.enums == d.enums
        }),
{
    let its = ordering::items_of(p);
    let g1 = program::declare_all(ordering::nothing(), its, 0);
    let g2 = program::lengthen(ordering::filled(its));
    let g = program::announce_all(g2, its, 0);
    safety::lemma_declare_all(ordering::nothing(), its, 0);
    safety::lemma_fill_all(g1, its, 0);
    safety::lemma_announce_all(g2, its, 0);
    assert(g2.defs.funcs == Seq::<(Text, crate::ir::TSig)>::empty());
    ordering::lemma_consts_known(g.defs, its);
    ordering::lemma_known_same(g.defs, g2.defs, its);
    ordering::lemma_announce_clean(g2, its, 0);
    ordering::lemma_filled(its);
}

/// Whether the key means nothing yet, or what it should.
spec fn unspoilt(t: Table<(Text, usize)>, key: Text, v: (Text, usize)) -> bool {
    name_map::find(t, key) is None || name_map::find(t, key) == Some(v)
}

/// Whether only the variant at `k` of the enum `full` has the long name `key`.
spec fn sole(enums: Table<TEnum>, key: Text, full: Text, k: int) -> bool {
    forall|i: int, l: int|
        #![trigger enums[i].1.variants[l]]
        0 <= i < enums.len() && 0 <= l < enums[i].1.variants.len() && key == enums[i].0 + "::"@
            + enums[i].1.variants[l].name ==> enums[i].0 == full && l == k
}

proof fn lemma_long_name(
    acc: Table<(Text, usize)>,
    enums: Table<TEnum>,
    p: int,
    i: int,
    key: Text,
    full: Text,
    k: int,
)
    requires
        name_map::sorted(acc),
        0 <= p < enums.len(),
        0 <= i,
        sole(enums, key, full, k),
        unspoilt(acc, key, (full, k as usize)),
    ensures
        ({
            let r = program::lengthened(acc, enums[p].0, enums[p].1.variants, i);
            &&& unspoilt(r, key, (full, k as usize))
            &&& enums[p].0 == full && i <= k < enums[p].1.variants.len() && key == full + "::"@
                + enums[p].1.variants[k].name ==> name_map::find(r, key) is Some
        }),
    decreases enums[p].1.variants.len() - i,
{
    let name = enums[p].0;
    let vs = enums[p].1.variants;
    if i < vs.len() {
        let own = name + "::"@ + vs[i].name;
        let next = if name_map::find(acc, own) is Some {
            acc
        } else {
            name_map::put(acc, own, (name, i as usize))
        };
        if name_map::find(acc, own) is None {
            name_map::law_put_keeps_sorted(acc, own, (name, i as usize));
            name_map::law_put_then_find(acc, own, (name, i as usize), key);
            if own == key {
                assert(enums[p].1.variants[i] == vs[i]);
                assert(name == full && i == k);
            }
        }
        lemma_long_name(next, enums, p, i + 1, key, full, k);
        lemma_lengthened(next, name, vs, i + 1);
        if name == full && i == k && key == full + "::"@ + vs[k].name {
            assert(name_map::find(next, key) is Some);
            assert(name_map::find(program::lengthened(next, name, vs, i + 1), key)
                == name_map::find(next, key));
        }
    }
}

proof fn lemma_all_long_names(
    acc: Table<(Text, usize)>,
    enums: Table<TEnum>,
    p: int,
    i: int,
    key: Text,
    full: Text,
    k: int,
)
    requires
        name_map::sorted(acc),
        0 <= i <= enums.len(),
        i <= p < enums.len() || (p < i && name_map::find(acc, key) is Some),
        0 <= p < enums.len(),
        enums[p].0 == full,
        0 <= k < enums[p].1.variants.len(),
        key == full + "::"@ + enums[p].1.variants[k].name,
        sole(enums, key, full, k),
        unspoilt(acc, key, (full, k as usize)),
    ensures
        name_map::find(program::long_names(acc, enums, i), key) == Some((full, k as usize)),
    decreases enums.len() - i,
{
    if i < enums.len() {
        let next = program::lengthened(acc, enums[i].0, enums[i].1.variants, 0);
        lemma_long_name(acc, enums, i, 0, key, full, k);
        lemma_lengthened(acc, enums[i].0, enums[i].1.variants, 0);
        if p < i {
            assert(name_map::find(next, key) == name_map::find(acc, key));
        }
        lemma_all_long_names(next, enums, p, i + 1, key, full, k);
    }
}

/// In its module a variant is also known by the name of its enum, `::` and its own, where no
/// other variant has that for a name.
pub proof fn law_variants_are_known_by_their_enum(p: AProgram, j: int, k: int)
    requires
        program::check_program(p) is Ok,
        0 <= j < ordering::items_of(p).len(),
        ordering::items_of(p)[j].1 is Enum,
        0 <= k < ordering::items_of(p)[j].1->Enum_0.variants.len() <= usize::MAX,
        ({
            let it = ordering::items_of(p)[j];
            let key = full_name(it) + "::"@ + it.1->Enum_0.variants[k].name;
            let enums = program::check_program(p)->Ok_0.enums;
            &&& name_map::find(ordering::filled(ordering::items_of(p)).defs.variants, key) is None
            &&& forall|i: int, l: int|
                #![trigger enums[i].1.variants[l]]
                0 <= i < enums.len() && 0 <= l < enums[i].1.variants.len() && key == enums[i].0
                    + "::"@ + enums[i].1.variants[l].name ==> enums[i].0 == full_name(it) && l == k
        }),
    ensures
        ({
            let it = ordering::items_of(p)[j];
            let e = it.1->Enum_0;
            typing::find_variant(
                safety::program_defs(p),
                it.0,
                seq![e.name, e.variants[k].name],
            ) matches Some((n, tag, tys)) && n == full_name(it) && tag == k && tys.len()
                == e.variants[k].fields.len()
        }),
{
    let its = ordering::items_of(p);
    let it = its[j];
    let e = it.1->Enum_0;
    let v = e.variants[k];
    let d = safety::program_defs(p);
    let f = ordering::filled(its);
    let full = full_name(it);
    let key = full + "::"@ + v.name;
    lemma_program(p);
    law_enums_have_the_written_variants(p, j);
    lemma_lengthen(p);
    let enums = f.defs.enums;
    name_map::lemma_find_some(enums, full, 0);
    let q = choose|q: int|
        0 <= q < enums.len() && #[trigger] enums[q].0 == full && name_map::find_from(enums, full, 0)
            == Some(enums[q].1);
    assert(enums[q].1.variants[k].name == v.name);
    lemma_all_long_names(f.defs.variants, enums, q, 0, key, full, k);
    let segs = seq![e.name, v.name];
    let t = e.name + "::"@ + v.name;
    assert(typing::path_text(segs) =~= t) by {
        let none = Seq::<char>::empty();
        assert(segs[0] == e.name && segs[1] == v.name);
        assert(text::join_from(segs, "::"@, 2, none + segs[0] + "::"@ + segs[1]) == none + segs[0]
            + "::"@ + segs[1]);
        assert(text::join_from(segs, "::"@, 1, none + segs[0]) == none + segs[0] + "::"@
            + segs[1]);
        assert(none + segs[0] + "::"@ + segs[1] =~= t);
    }
    assert(typing::qualify(it.0, t) =~= key);
}

/// What a module holds stands under the name of the module, behind that of the module around it.
pub proof fn law_items_of_modules(m: Text, d: AModDef, inner: Seq<AItem>)
    requires
        d.items == Some(inner),
        forall|i: int| 0 <= i < inner.len() ==> !((#[trigger] inner[i]) is Mod),
    ensures
        ({
            let under = if m.len() == 0 {
                d.name
            } else {
                m + "::"@ + d.name
            };
            program::flatten(m, seq![AItem::Mod(d)], 0) == Seq::new(
                inner.len(),
                |i: int| (under, inner[i]),
            )
        }),
{
    let under = if m.len() == 0 {
        d.name
    } else {
        m + "::"@ + d.name
    };
    lemma_flat(under, inner, 0);
    let items = seq![AItem::Mod(d)];
    assert(items[0] == AItem::Mod(d));
    assert(program::flatten(m, items, 1) == Seq::<Placed>::empty());
    let all = Seq::new((inner.len() - 0) as nat, |i: int| (under, inner[0 + i]));
    assert(all + Seq::<Placed>::empty() =~= Seq::new(inner.len(), |i: int| (under, inner[i])));
}

proof fn lemma_flat(m: Text, items: Seq<AItem>, i: int)
    requires
        0 <= i <= items.len(),
        forall|i: int| 0 <= i < items.len() ==> !((#[trigger] items[i]) is Mod),
    ensures
        program::flatten(m, items, i) == Seq::new(
            (items.len() - i) as nat,
            |k: int| (m, items[i + k]),
        ),
    decreases items.len() - i,
{
    let all = Seq::new((items.len() - i) as nat, |k: int| (m, items[i + k]));
    if i < items.len() {
        lemma_flat(m, items, i + 1);
        assert(!(items[i] is Mod));
        let rest = Seq::new((items.len() - (i + 1)) as nat, |k: int| (m, items[i + 1 + k]));
        assert(all =~= seq![(m, items[i])] + rest);
    } else {
        assert(all =~= Seq::<Placed>::empty());
    }
}

} // verus!
