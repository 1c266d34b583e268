//! What the declarations of a program lead to: its types and imports are declared
//! first, then the fields and variants are filled in. Neither depends on the order of
//! the items.

use crate::ast::{AFieldDef, AItem, ATypeExpr, AVariantDef};
use crate::diagnostic::Diag;
use crate::ir::{TEnum, TField, TStruct, TType, TVariant};
use crate::name_map::{self, Table};
use crate::program::{self, Gathered, Placed};
use crate::safety;
use crate::span::Span;
use crate::text::{self, Text};
use crate::typing::{self, AImport, Defs};
use crate::wires;
use vstd::prelude::*;

verus! {

// ---- items --------------------------------------------------------------

/// The full name of the type that an item declares.
pub open spec fn full(it: Placed) -> Text {
    match it.1 {
        AItem::Struct(s) => typing::qualify(it.0, s.name),
        AItem::Enum(e) => typing::qualify(it.0, e.name),
        _ => Seq::empty(),
    }
}

/// Whether an item declares the struct called `n`.
pub open spec fn is_struct(it: Placed, n: Text) -> bool {
    it.1 is Struct && full(it) == n
}

/// Whether an item declares the enum called `n`.
pub open spec fn is_enum(it: Placed, n: Text) -> bool {
    it.1 is Enum && full(it) == n
}

/// Whether two items do not declare types of one name.
pub open spec fn types_differ(a: Placed, b: Placed) -> bool {
    (a.1 is Struct || a.1 is Enum) && (b.1 is Struct || b.1 is Enum) ==> full(a) != full(b)
}

/// Whether the types from position `i` on have names of their own.
pub open spec fn types_apart(its: Seq<Placed>, i: int) -> bool {
    forall|j: int, k: int|
        i <= j < k < its.len() ==> types_differ(#[trigger] its[j], #[trigger] its[k])
}

/// Whether the name of the type that an item declares is not one of a type in `d`.
pub open spec fn untaken(d: Defs, it: Placed) -> bool {
    it.1 is Struct || it.1 is Enum ==> !program::is_type(d, full(it))
}

/// Whether an item is the import `u`.
pub open spec fn is_import(it: Placed, u: AImport) -> bool {
    it.1 matches AItem::Use(x) && u == (AImport { module: it.0, path: x.path, glob: x.glob })
}

/// Whether `u` is among the imports.
pub open spec fn imports_hold(imports: Table<AImport>, u: AImport) -> bool {
    name_map::find(imports, typing::import_key(u)) == Some(u)
}

/// Whether every import stands under its key, in order.
pub open spec fn imports_keyed(imports: Table<AImport>) -> bool {
    name_map::sorted(imports) && forall|k: Text|
        (#[trigger] name_map::find(imports, k) matches Some(u) ==> k == typing::import_key(u))
}

pub open spec fn types_sorted(d: Defs) -> bool {
    name_map::sorted(d.structs) && name_map::sorted(d.enums) && name_map::sorted(d.variants)
        && imports_keyed(d.imports)
}

// ---- keys of imports ----------------------------------------------------

/// What stands behind the same frame is the same.
proof fn lemma_framed(a: Text, x: Text, b: Text, y: Text)
    requires
        typing::framed(a) + x == typing::framed(b) + y,
    ensures
        a == b,
        x == y,
{
    reveal_strlit(":");
    let m = text::dec(a.len());
    let n = text::dec(b.len());
    let s = typing::framed(a) + x;
    let t = typing::framed(b) + y;
    wires::lemma_dec(a.len());
    wires::lemma_dec(b.len());
    assert(s[m.len() as int] == ':' && t[n.len() as int] == ':');
    if m.len() < n.len() {
        assert(t[m.len() as int] == n[m.len() as int]);
    }
    if n.len() < m.len() {
        assert(s[n.len() as int] == m[n.len() as int]);
    }
    assert forall|i: int| 0 <= i < m.len() implies m[i] == n[i] by {
        assert(s[i] == m[i] && t[i] == n[i]);
    }
    assert(m =~= n);
    wires::lemma_dec_injective(a.len(), b.len());
    let k = m.len() + 1;
    assert forall|i: int| 0 <= i < a.len() implies a[i] == b[i] by {
        assert(s[k + i] == a[i] && t[k + i] == b[i]);
    }
    assert(a =~= b);
    assert(s.len() == k + a.len() + x.len() && t.len() == k + b.len() + y.len());
    assert forall|i: int| 0 <= i < x.len() implies x[i] == y[i] by {
        assert(s[k + a.len() + i] == x[i] && t[k + b.len() + i] == y[i]);
    }
    assert(x =~= y);
}

proof fn lemma_framed_from(a: Seq<Text>, b: Seq<Text>, i: int)
    requires
        0 <= i <= a.len(),
        i <= b.len(),
        typing::framed_from(a, i) == typing::framed_from(b, i),
    ensures
        a.len() == b.len(),
        forall|j: int| i <= j < a.len() ==> #[trigger] a[j] == b[j],
    decreases a.len() - i,
{
    reveal_strlit(":");
    if i < a.len() && i < b.len() {
        lemma_framed(
            a[i],
            typing::framed_from(a, i + 1),
            b[i],
            typing::framed_from(b, i + 1),
        );
        lemma_framed_from(a, b, i + 1);
    } else if i < a.len() {
        assert(typing::framed_from(a, i).len() > 0);
    } else if i < b.len() {
        assert(typing::framed_from(b, i).len() > 0);
    }
}

/// Different imports have different keys.
pub proof fn lemma_import_key(a: AImport, b: AImport)
    requires
        typing::import_key(a) == typing::import_key(b),
    ensures
        a == b,
{
    reveal_strlit("*");
    reveal_strlit("!");
    let k = typing::import_key(a);
    let l = typing::import_key(b);
    assert(k[0] == if a.glob { '*' } else { '!' });
    assert(l[0] == if b.glob { '*' } else { '!' });
    let x = typing::framed(a.module) + typing::framed_from(a.path, 0);
    let y = typing::framed(b.module) + typing::framed_from(b.path, 0);
    assert(k.subrange(1, k.len() as int) =~= x);
    assert(l.subrange(1, l.len() as int) =~= y);
    lemma_framed(
        a.module,
        typing::framed_from(a.path, 0),
        b.module,
        typing::framed_from(b.path, 0),
    );
    lemma_framed_from(a.path, b.path, 0);
    assert(a.path =~= b.path);
}

/// What one more import does.
proof fn lemma_with_import(imports: Table<AImport>, u: AImport)
    requires
        imports_keyed(imports),
    ensures
        imports_keyed(program::with_import(imports, u)),
        forall|w: AImport| #[trigger]
            imports_hold(program::with_import(imports, u), w) <==> imports_hold(imports, w) || w
                == u,
{
    let key = typing::import_key(u);
    let r = program::with_import(imports, u);
    name_map::law_put_keeps_sorted(imports, key, u);
    assert forall|k: Text| #[trigger] name_map::find(r, k) == if k == key {
        Some(u)
    } else {
        name_map::find(imports, k)
    } by {
        name_map::law_put_then_find(imports, key, u, k);
    }
    assert forall|w: AImport| #[trigger] imports_hold(r, w) <==> (imports_hold(imports, w) || w
        == u) by {
        if typing::import_key(w) == key {
            lemma_import_key(w, u);
        }
    }
}

/// Imports that hold the same are the same.
pub proof fn lemma_imports_equal(a: Table<AImport>, b: Table<AImport>)
    requires
        imports_keyed(a),
        imports_keyed(b),
        forall|u: AImport| #[trigger] imports_hold(a, u) <==> imports_hold(b, u),
    ensures
        a == b,
{
    assert forall|k: Text| #[trigger] name_map::find(a, k) == name_map::find(b, k) by {
        match name_map::find(a, k) {
            Some(u) => {
                assert(k == typing::import_key(u));
                assert(imports_hold(a, u));
                assert(imports_hold(b, u));
            },
            None => match name_map::find(b, k) {
                Some(u) => {
                    assert(k == typing::import_key(u));
                    assert(imports_hold(b, u));
                    assert(imports_hold(a, u));
                },
                None => {},
            },
        }
    }
    name_map::lemma_tables_equal(a, b);
}

// ---- declaring ----------------------------------------------------------

proof fn lemma_declare(g: Gathered, it: Placed, n: Text)
    requires
        types_sorted(g.defs),
    ensures
        ({
            let r = program::declare(g, it);
            &&& types_sorted(r.defs)
            &&& r.defs.variants == g.defs.variants
            &&& untaken(g.defs, it) ==> r.diags == g.diags
            &&& !untaken(g.defs, it) ==> r.diags.len() > g.diags.len()
            &&& forall|u: AImport| #[trigger]
                imports_hold(r.defs.imports, u) <==> imports_hold(g.defs.imports, u) || is_import(
                    it,
                    u,
                )
            &&& untaken(g.defs, it) ==> (name_map::find(r.defs.structs, n) is Some
                <==> name_map::find(g.defs.structs, n) is Some || is_struct(it, n))
            &&& untaken(g.defs, it) ==> (name_map::find(r.defs.enums, n) is Some <==> name_map::find(
                g.defs.enums,
                n,
            ) is Some || is_enum(it, n))
        }),
{
    reveal(program::declare);
    match it.1 {
        AItem::Struct(s) => {
            let x = TStruct { name: full(it), fields: Seq::empty() };
            name_map::law_put_keeps_sorted(g.defs.structs, full(it), x);
            name_map::law_put_then_find(g.defs.structs, full(it), x, n);
        },
        AItem::Enum(e) => {
            let x = TEnum { name: full(it), variants: Seq::empty() };
            name_map::law_put_keeps_sorted(g.defs.enums, full(it), x);
            name_map::law_put_then_find(g.defs.enums, full(it), x, n);
        },
        AItem::Use(u) => {
            let x = AImport { module: it.0, path: u.path, glob: u.glob };
            lemma_with_import(g.defs.imports, x);
        },
        _ => {},
    }
}

/// Whether `r` has the types of `g` and those that the items from position `i` on
/// declare.
pub open spec fn declared(g: Gathered, its: Seq<Placed>, i: int, r: Gathered) -> bool {
    &&& forall|n: Text| #[trigger]
        name_map::find(r.defs.structs, n) is Some <==> name_map::find(g.defs.structs, n) is Some
            || exists|j: int| i <= j < its.len() && is_struct(#[trigger] its[j], n)
    &&& forall|n: Text| #[trigger]
        name_map::find(r.defs.enums, n) is Some <==> name_map::find(g.defs.enums, n) is Some
            || exists|j: int| i <= j < its.len() && is_enum(#[trigger] its[j], n)
}

/// Whether the types from position `i` on have names of their own that are not taken.
pub open spec fn types_free(g: Gathered, its: Seq<Placed>, i: int) -> bool {
    types_apart(its, i) && forall|j: int| i <= j < its.len() ==> untaken(g.defs, #[trigger] its[j])
}

/// Types are declared without a complaint if and only if they have names of their own.
pub proof fn lemma_declare_all(g: Gathered, its: Seq<Placed>, i: int)
    requires
        0 <= i <= its.len(),
        types_sorted(g.defs),
    ensures
        ({
            let r = program::declare_all(g, its, i);
            &&& types_sorted(r.defs)
            &&& r.defs.variants == g.defs.variants
            &&& r.diags.len() >= g.diags.len()
            &&& forall|u: AImport| #[trigger]
                imports_hold(r.defs.imports, u) <==> imports_hold(g.defs.imports, u) || exists|
                    j: int,
                |
                    i <= j < its.len() && is_import(#[trigger] its[j], u)
            &&& types_free(g, its, i) ==> r.diags == g.diags
            &&& r.diags.len() == g.diags.len() ==> types_free(g, its, i)
            &&& types_free(g, its, i) ==> declared(g, its, i, r)
        }),
    decreases its.len() - i,
{
    let r = program::declare_all(g, its, i);
    if i < its.len() {
        let it = its[i];
        let g1 = program::declare(g, it);
        lemma_declare(g, it, Seq::empty());
        lemma_declare_all(g1, its, i + 1);
        assert forall|u: AImport| #[trigger]
            imports_hold(r.defs.imports, u) <==> (imports_hold(g.defs.imports, u) || exists|
                j: int,
            |
                i <= j < its.len() && is_import(#[trigger] its[j], u)) by {
            assert(imports_hold(g1.defs.imports, u) <==> (imports_hold(g.defs.imports, u)
                || is_import(its[i], u)));
        }
        if untaken(g.defs, it) {
            assert forall|n: Text| #[trigger] name_map::find(g1.defs.structs, n) is Some <==> (
            name_map::find(g.defs.structs, n) is Some || is_struct(it, n)) by {
                lemma_declare(g, it, n);
            }
            assert forall|n: Text| #[trigger] name_map::find(g1.defs.enums, n) is Some <==> (
            name_map::find(g.defs.enums, n) is Some || is_enum(it, n)) by {
                lemma_declare(g, it, n);
            }
            assert forall|j: int| i < j < its.len() implies (untaken(g1.defs, #[trigger] its[j])
                <==> untaken(g.defs, its[j]) && types_differ(it, its[j])) by {
                let n = full(its[j]);
                assert(name_map::find(g1.defs.structs, n) is Some <==> (name_map::find(
                    g.defs.structs,
                    n,
                ) is Some || is_struct(it, n)));
                assert(name_map::find(g1.defs.enums, n) is Some <==> (name_map::find(
                    g.defs.enums,
                    n,
                ) is Some || is_enum(it, n)));
            }
        }
        if types_free(g, its, i) {
            assert(untaken(g.defs, its[i]));
            assert forall|j: int| i + 1 <= j < its.len() implies untaken(
                g1.defs,
                #[trigger] its[j],
            ) by {
                assert(types_differ(its[i], its[j]));
                assert(untaken(g.defs, its[j]));
            }
            assert(types_free(g1, its, i + 1));
            assert forall|n: Text| #[trigger] name_map::find(r.defs.structs, n) is Some <==> (
            name_map::find(g.defs.structs, n) is Some || exists|j: int|
                i <= j < its.len() && is_struct(#[trigger] its[j], n)) by {
                if is_struct(its[i], n) {
                    assert(name_map::find(g1.defs.structs, n) is Some);
                }
            }
            assert forall|n: Text| #[trigger] name_map::find(r.defs.enums, n) is Some <==> (
            name_map::find(g.defs.enums, n) is Some || exists|j: int|
                i <= j < its.len() && is_enum(#[trigger] its[j], n)) by {
                if is_enum(its[i], n) {
                    assert(name_map::find(g1.defs.enums, n) is Some);
                }
            }
        }
        if r.diags.len() == g.diags.len() {
            assert(untaken(g.defs, it));
            assert forall|j: int| i <= j < its.len() implies untaken(
                g.defs,
                #[trigger] its[j],
            ) by {
                if j > i {
                    assert(untaken(g1.defs, its[j]));
                }
            }
            assert forall|j: int, k: int| i <= j < k < its.len() implies types_differ(
                #[trigger] its[j],
                #[trigger] its[k],
            ) by {
                if j == i {
                    assert(untaken(g1.defs, its[k]));
                }
            }
        }
    }
}

// ---- names of types -----------------------------------------------------

/// Whether the same names are those of types, and the imports are the same.
pub open spec fn same_names(a: Defs, b: Defs) -> bool {
    &&& a.imports == b.imports
    &&& forall|n: Text| #[trigger]
        name_map::find(a.structs, n) is Some <==> name_map::find(b.structs, n) is Some
    &&& forall|n: Text| #[trigger]
        name_map::find(a.enums, n) is Some <==> name_map::find(b.enums, n) is Some
}

proof fn lemma_import_hit<T>(
    a: Table<T>,
    b: Table<T>,
    imports: Table<AImport>,
    m: Text,
    segs: Seq<Text>,
    i: int,
)
    requires
        forall|n: Text| #[trigger] name_map::find(a, n) is Some <==> name_map::find(b, n) is Some,
    ensures
        typing::import_hit(a, imports, m, segs, i) == typing::import_hit(b, imports, m, segs, i),
    decreases imports.len() - i,
{
    if 0 <= i < imports.len() {
        lemma_import_hit(a, b, imports, m, segs, i + 1);
        match typing::imported(imports[i].1, m, segs) {
            Some(p) => {
                let t = typing::path_text(p);
                assert(name_map::find(a, typing::qualify(m, t)) is Some <==> name_map::find(
                    b,
                    typing::qualify(m, t),
                ) is Some);
                assert(name_map::find(a, t) is Some <==> name_map::find(b, t) is Some);
            },
            None => {},
        }
    }
}

proof fn lemma_find_name<T>(
    a: Table<T>,
    b: Table<T>,
    imports: Table<AImport>,
    m: Text,
    segs: Seq<Text>,
)
    requires
        forall|n: Text| #[trigger] name_map::find(a, n) is Some <==> name_map::find(b, n) is Some,
    ensures
        typing::find_name(a, imports, m, segs) == typing::find_name(b, imports, m, segs),
{
    lemma_import_hit(a, b, imports, m, segs, 0);
    let t = typing::path_text(segs);
    assert(name_map::find(a, typing::qualify(m, t)) is Some <==> name_map::find(
        b,
        typing::qualify(m, t),
    ) is Some);
    assert(name_map::find(a, t) is Some <==> name_map::find(b, t) is Some);
}

proof fn lemma_resolve(a: Defs, b: Defs, m: Text, t: ATypeExpr, span: Span)
    requires
        same_names(a, b),
    ensures
        typing::resolve(a, m, t, span) == typing::resolve(b, m, t, span),
    decreases t, 0int,
{
    match t {
        ATypeExpr::Array { elem, len } => lemma_resolve(a, b, m, *elem, span),
        ATypeExpr::Tuple(ts) => lemma_resolve_all(a, b, m, ts, span, 0, Seq::empty()),
        ATypeExpr::Named(path) => {
            lemma_find_name(a.structs, b.structs, a.imports, m, path);
            lemma_find_name(a.enums, b.enums, a.imports, m, path);
        },
        _ => {},
    }
}

proof fn lemma_resolve_all(
    a: Defs,
    b: Defs,
    m: Text,
    ts: Seq<ATypeExpr>,
    span: Span,
    i: int,
    acc: Seq<TType>,
)
    requires
        same_names(a, b),
    ensures
        typing::resolve_all(a, m, ts, span, i, acc) == typing::resolve_all(b, m, ts, span, i, acc),
    decreases ts, ts.len() - i,
{
    if 0 <= i < ts.len() {
        lemma_resolve(a, b, m, ts[i], span);
        match typing::resolve(a, m, ts[i], span) {
            Ok(t) => lemma_resolve_all(a, b, m, ts, span, i + 1, acc.push(t)),
            Err(_) => {},
        }
    }
}

// ---- fields -------------------------------------------------------------

proof fn lemma_fields(
    a: Defs,
    b: Defs,
    m: Text,
    full: Text,
    fs: Seq<AFieldDef>,
    i: int,
    acc: Seq<TField>,
    ds: Seq<Diag>,
)
    requires
        same_names(a, b),
    ensures
        ({
            let r = program::struct_fields(a, m, full, fs, i, acc, ds);
            let q = program::struct_fields(b, m, full, fs, i, acc, Seq::empty());
            r.0 == q.0 && r.1 == ds + q.1
        }),
    decreases fs.len() - i,
{
    if 0 <= i < fs.len() {
        let f = fs[i];
        let dup = typing::type_error(
            "duplicate field `"@ + f.name + "` in struct `"@ + full + "`"@,
            f.span,
        );
        let none = Seq::<Diag>::empty();
        let ds1 = if program::named_before(fs, f.name, i) {
            ds.push(dup)
        } else {
            ds
        };
        let es1 = if program::named_before(fs, f.name, i) {
            none.push(dup)
        } else {
            none
        };
        assert(ds1 =~= ds + es1);
        lemma_resolve(a, b, m, f.ty, f.span);
        match typing::resolve(a, m, f.ty, f.span) {
            Ok(ty) => {
                let acc1 = acc.push(TField { name: f.name, ty });
                lemma_fields(a, b, m, full, fs, i + 1, acc1, ds1);
                lemma_fields(b, b, m, full, fs, i + 1, acc1, es1);
                let q = program::struct_fields(b, m, full, fs, i + 1, acc1, none);
                assert(ds1 + q.1 =~= ds + (es1 + q.1));
            },
            Err(d) => {
                lemma_fields(a, b, m, full, fs, i + 1, acc, ds1.push(d));
                lemma_fields(b, b, m, full, fs, i + 1, acc, es1.push(d));
                let q = program::struct_fields(b, m, full, fs, i + 1, acc, none);
                assert(ds1.push(d) + q.1 =~= ds + (es1.push(d) + q.1));
            },
        }
    } else {
        assert(ds + Seq::<Diag>::empty() =~= ds);
    }
}

proof fn lemma_payload(
    a: Defs,
    b: Defs,
    m: Text,
    ts: Seq<ATypeExpr>,
    span: Span,
    i: int,
    acc: Seq<TType>,
    ds: Seq<Diag>,
)
    requires
        same_names(a, b),
    ensures
        ({
            let r = program::payload(a, m, ts, span, i, acc, ds);
            let q = program::payload(b, m, ts, span, i, acc, Seq::empty());
            r.0 == q.0 && r.1 == ds + q.1
        }),
    decreases ts.len() - i,
{
    if 0 <= i < ts.len() {
        lemma_resolve(a, b, m, ts[i], span);
        match typing::resolve(a, m, ts[i], span) {
            Ok(t) => lemma_payload(a, b, m, ts, span, i + 1, acc.push(t), ds),
            Err(d) => {
                let es = Seq::<Diag>::empty().push(d);
                lemma_payload(a, b, m, ts, span, i + 1, acc, ds.push(d));
                lemma_payload(b, b, m, ts, span, i + 1, acc, es);
                let q = program::payload(b, m, ts, span, i + 1, acc, Seq::empty());
                assert(ds.push(d) + q.1 =~= ds + (es + q.1));
            },
        }
    } else {
        assert(ds + Seq::<Diag>::empty() =~= ds);
    }
}

/// The fields of the struct that an item declares, and what is wrong with them.
pub open spec fn fields_of(d: Defs, it: Placed) -> (Seq<TField>, Seq<Diag>) {
    match it.1 {
        AItem::Struct(s) => program::struct_fields(
            d,
            it.0,
            full(it),
            s.fields,
            0,
            Seq::empty(),
            Seq::empty(),
        ),
        _ => (Seq::empty(), Seq::empty()),
    }
}

/// The variants that an item declares.
pub open spec fn variants_of(it: Placed) -> Seq<AVariantDef> {
    match it.1 {
        AItem::Enum(e) => e.variants,
        _ => Seq::empty(),
    }
}

/// The types in the variant at `k`, and what is wrong with them.
pub open spec fn payload_of(d: Defs, it: Placed, k: int) -> (Seq<TType>, Seq<Diag>) {
    let v = variants_of(it)[k];
    program::payload(d, it.0, v.fields, v.span, 0, Seq::empty(), Seq::empty())
}

/// The first `n` variants of the enum that an item declares.
pub open spec fn first_variants(d: Defs, it: Placed, n: int) -> Seq<TVariant> {
    Seq::new(
        n as nat,
        |k: int| TVariant { name: variants_of(it)[k].name, fields: payload_of(d, it, k).0 },
    )
}

/// Whether nothing is wrong with the types in an item.
pub open spec fn item_ok(d: Defs, it: Placed) -> bool {
    fields_of(d, it).1.len() == 0 && forall|k: int|
        0 <= k < variants_of(it).len() ==> (#[trigger] payload_of(d, it, k)).1.len() == 0
}

// ---- names of variants --------------------------------------------------

/// The own name of the variant at `k`, as its module knows it.
pub open spec fn own_key(it: Placed, k: int) -> Text {
    typing::qualify(it.0, variants_of(it)[k].name)
}

/// Whether a variant stands at `k` of the item at `j`.
pub open spec fn place(its: Seq<Placed>, j: int, k: int) -> bool {
    0 <= j < its.len() && 0 <= k < variants_of(its[j]).len()
}

/// Whether the own names of the variants differ.
pub open spec fn owns_apart(its: Seq<Placed>) -> bool {
    forall|j: int, k: int, a: int, b: int| #[trigger]
        place(its, j, k) && #[trigger] place(its, a, b) && (j != a || k != b) ==> own_key(
            its[j],
            k,
        ) != own_key(its[a], b)
}

/// Whether the own name of a variant stands for it.
pub open spec fn known(t: Table<(Text, usize)>, it: Placed, k: int) -> bool {
    name_map::find(t, own_key(it, k)) == Some((full(it), k as usize))
}

/// Whether the place `(a, b)` is before `(j, k)`.
pub open spec fn before(a: int, b: int, j: int, k: int) -> bool {
    a < j || (a == j && b < k)
}

/// Whether every name of a table is the own name of a variant before the place
/// `(j, i)`.
pub open spec fn origin(t: Table<(Text, usize)>, its: Seq<Placed>, j: int, i: int) -> bool {
    forall|key: Text| #[trigger]
        name_map::find(t, key) is Some ==> exists|a: int, b: int| #[trigger]
            place(its, a, b) && before(a, b, j, i) && key == own_key(its[a], b)
}

/// Whether every variant before the place `(j, i)` has its own name in a table.
pub open spec fn present(t: Table<(Text, usize)>, its: Seq<Placed>, j: int, i: int) -> bool {
    forall|a: int, b: int| #[trigger]
        place(its, a, b) && before(a, b, j, i) ==> name_map::find(t, own_key(its[a], b)) is Some
}

/// Whether the names of `a` stand for the same in `b`.
pub open spec fn grown(a: Table<(Text, usize)>, b: Table<(Text, usize)>) -> bool {
    forall|key: Text| #[trigger]
        name_map::find(a, key) is Some ==> name_map::find(b, key) == name_map::find(a, key)
}

pub proof fn lemma_grown(a: Table<(Text, usize)>, b: Table<(Text, usize)>, it: Placed, k: int)
    requires
        grown(a, b),
        known(a, it, k),
    ensures
        known(b, it, k),
{
    assert(name_map::find(a, own_key(it, k)) is Some);
}

/// What adding one variant does.
proof fn lemma_add(g: Gathered, d: Defs, it: Placed, k: int, n: Text)
    requires
        it.1 is Enum,
        0 <= k < variants_of(it).len(),
        same_names(g.defs, d),
        name_map::sorted(g.defs.variants),
    ensures
        ({
            let (r, v) = program::add_variant(g, it.0, full(it), variants_of(it)[k], k as usize);
            &&& r.defs == (Defs { variants: r.defs.variants, ..g.defs })
            &&& name_map::sorted(r.defs.variants)
            &&& v == (TVariant {
                name: variants_of(it)[k].name,
                fields: payload_of(d, it, k).0,
            })
            &&& known(r.defs.variants, it, k)
            &&& n != own_key(it, k) ==> name_map::find(r.defs.variants, n)
                == name_map::find(g.defs.variants, n)
            &&& r.diags.len() >= g.diags.len()
            &&& r.diags.len() == g.diags.len() <==> name_map::find(
                g.defs.variants,
                own_key(it, k),
            ) is None && payload_of(d, it, k).1.len() == 0
            &&& r.diags.len() == g.diags.len() ==> r.diags == g.diags
        }),
{
    reveal(program::add_variant);
    let v = variants_of(it)[k];
    let t = g.defs.variants;
    let x = (full(it), k as usize);
    let own = own_key(it, k);
    let (r, _) = program::add_variant(g, it.0, full(it), v, k as usize);
    let ds = match name_map::find(t, own) {
        Some((prev, _)) => g.diags.push(
            typing::type_error(
                "variant name `"@ + v.name + "` already used (in enum `"@ + prev
                    + "`); variant names must be unique"@,
                v.span,
            ),
        ),
        None => g.diags,
    };
    lemma_payload(r.defs, d, it.0, v.fields, v.span, 0, Seq::empty(), ds);
    assert(r.diags == ds + payload_of(d, it, k).1);
    assert(g.diags + Seq::<Diag>::empty() =~= g.diags);
    if payload_of(d, it, k).1.len() == 0 {
        assert(payload_of(d, it, k).1 =~= Seq::<Diag>::empty());
    }
    name_map::law_put_keeps_sorted(t, own, x);
    name_map::law_put_then_find(t, own, x, own);
    name_map::law_put_then_find(t, own, x, n);
}

/// The variants of one enum, added without a complaint, are in order.
proof fn lemma_variants_clean(
    g: Gathered,
    d: Defs,
    its: Seq<Placed>,
    j: int,
    i: int,
    acc: Seq<TVariant>,
)
    requires
        0 <= j < its.len(),
        its[j].1 is Enum,
        0 <= i <= variants_of(its[j]).len(),
        same_names(g.defs, d),
        name_map::sorted(g.defs.variants),
        present(g.defs.variants, its, j, i),
        program::enum_variants(
            g,
            its[j].0,
            full(its[j]),
            variants_of(its[j]),
            i,
            acc,
        ).0.diags.len() == g.diags.len(),
    ensures
        ({
            let r = program::enum_variants(
                g,
                its[j].0,
                full(its[j]),
                variants_of(its[j]),
                i,
                acc,
            ).0;
            &&& r.defs == (Defs { variants: r.defs.variants, ..g.defs })
            &&& name_map::sorted(r.defs.variants)
            &&& present(r.defs.variants, its, j, variants_of(its[j]).len() as int)
            &&& forall|k: int|
                i <= k < variants_of(its[j]).len() ==> (#[trigger] payload_of(
                    d,
                    its[j],
                    k,
                )).1.len() == 0
            &&& forall|k: int, a: int, b: int|
                i <= k && #[trigger] place(its, j, k) && #[trigger] place(its, a, b) && before(
                    a,
                    b,
                    j,
                    k,
                ) ==> own_key(its[j], k) != own_key(its[a], b)
        }),
    decreases variants_of(its[j]).len() - i,
{
    let it = its[j];
    let vs = variants_of(it);
    if i < vs.len() {
        let (g1, v) = program::add_variant(g, it.0, full(it), vs[i], i as usize);
        let own = own_key(it, i);
        lemma_add(g, d, it, i, own);
        safety::lemma_enum_variants(g1, it.0, full(it), vs, i + 1, acc.push(v));
        assert(present(g1.defs.variants, its, j, i + 1)) by {
            assert forall|a: int, b: int| #[trigger]
                place(its, a, b) && before(a, b, j, i + 1) implies name_map::find(
                g1.defs.variants,
                own_key(its[a], b),
            ) is Some by {
                lemma_add(g, d, it, i, own_key(its[a], b));
                if before(a, b, j, i) {
                    assert(name_map::find(g.defs.variants, own_key(its[a], b)) is Some);
                }
            }
        }
        lemma_variants_clean(g1, d, its, j, i + 1, acc.push(v));
        assert forall|k: int, a: int, b: int|
            i <= k && #[trigger] place(its, j, k) && #[trigger] place(its, a, b) && before(
                a,
                b,
                j,
                k,
            ) implies own_key(its[j], k) != own_key(its[a], b) by {
            if k == i {
                assert(name_map::find(g.defs.variants, own_key(its[a], b)) is Some);
            }
        }
    }
}

/// The variants of one enum are added without a complaint if they are in order.
proof fn lemma_variants(
    g: Gathered,
    d: Defs,
    its: Seq<Placed>,
    j: int,
    i: int,
    acc: Seq<TVariant>,
)
    requires
        0 <= j < its.len(),
        its[j].1 is Enum,
        0 <= i <= variants_of(its[j]).len(),
        same_names(g.defs, d),
        name_map::sorted(g.defs.variants),
        owns_apart(its),
        item_ok(d, its[j]),
        acc == first_variants(d, its[j], i),
        origin(g.defs.variants, its, j, i),
        forall|k: int| 0 <= k < i ==> #[trigger] known(g.defs.variants, its[j], k),
    ensures
        ({
            let (r, vs) = program::enum_variants(
                g,
                its[j].0,
                full(its[j]),
                variants_of(its[j]),
                i,
                acc,
            );
            let n = variants_of(its[j]).len() as int;
            &&& r.defs == (Defs { variants: r.defs.variants, ..g.defs })
            &&& r.diags == g.diags
            &&& name_map::sorted(r.defs.variants)
            &&& origin(r.defs.variants, its, j, n)
            &&& grown(g.defs.variants, r.defs.variants)
            &&& vs == first_variants(d, its[j], n)
            &&& forall|k: int| 0 <= k < n ==> #[trigger] known(r.defs.variants, its[j], k)
        }),
    decreases variants_of(its[j]).len() - i,
{
    let it = its[j];
    let vs = variants_of(it);
    let t = g.defs.variants;
    if i < vs.len() {
        let (g1, v) = program::add_variant(g, it.0, full(it), vs[i], i as usize);
        let own = own_key(it, i);
        let t1 = g1.defs.variants;
        lemma_add(g, d, it, i, own);
        assert(place(its, j, i));
        assert(payload_of(d, it, i).1.len() == 0);
        if name_map::find(t, own) is Some {
            let (a, b) = choose|a: int, b: int| #[trigger]
                place(its, a, b) && before(a, b, j, i) && own == own_key(its[a], b);
            assert(place(its, a, b));
        }
        assert(grown(t, t1)) by {
            assert forall|n: Text| #[trigger] name_map::find(t, n) is Some implies name_map::find(
                t1,
                n,
            ) == name_map::find(t, n) by {
                lemma_add(g, d, it, i, n);
            }
        }
        assert forall|k: int| 0 <= k < i + 1 implies #[trigger] known(t1, it, k) by {
            if k < i {
                assert(known(t, it, k));
                lemma_grown(t, t1, it, k);
            }
        }
        assert(origin(t1, its, j, i + 1)) by {
            assert forall|n: Text| #[trigger] name_map::find(t1, n) is Some implies exists|
                a: int,
                b: int,
            | #[trigger]
                place(its, a, b) && before(a, b, j, i + 1) && n == own_key(its[a], b) by {
                lemma_add(g, d, it, i, n);
                if n == own {
                    assert(place(its, j, i) && before(j, i, j, i + 1));
                } else {
                    assert(name_map::find(t, n) is Some);
                    let (a, b) = choose|a: int, b: int| #[trigger]
                        place(its, a, b) && before(a, b, j, i) && n == own_key(its[a], b);
                    assert(place(its, a, b) && before(a, b, j, i + 1));
                }
            }
        }
        assert(acc.push(v) =~= first_variants(d, it, i + 1));
        lemma_variants(g1, d, its, j, i + 1, acc.push(v));
    }
}

// ---- filling ------------------------------------------------------------

/// Whether the type that an item declares is in the tables of `t`, with the types that
/// `d` knows.
pub open spec fn entered(t: Defs, d: Defs, it: Placed) -> bool {
    match it.1 {
        AItem::Struct(_) => name_map::find(t.structs, full(it)) == Some(
            TStruct { name: full(it), fields: fields_of(d, it).0 },
        ),
        AItem::Enum(e) => name_map::find(t.enums, full(it)) == Some(
            TEnum {
                name: full(it),
                variants: first_variants(d, it, e.variants.len() as int),
            },
        ) && forall|k: int| 0 <= k < e.variants.len() ==> #[trigger] known(t.variants, it, k),
        _ => true,
    }
}

/// What filling in a struct does.
proof fn lemma_fill_struct(g: Gathered, d: Defs, it: Placed)
    requires
        it.1 is Struct,
        types_sorted(g.defs),
        same_names(g.defs, d),
    ensures
        ({
            let r = program::fill(g, it);
            &&& types_sorted(r.defs)
            &&& same_names(r.defs, d)
            &&& r.defs == (Defs { structs: r.defs.structs, ..g.defs })
            &&& r.diags == g.diags + fields_of(d, it).1
            &&& name_map::find(d.structs, full(it)) is Some ==> entered(r.defs, d, it)
            &&& forall|n: Text|
                n != full(it) ==> #[trigger] name_map::find(r.defs.structs, n) == name_map::find(
                    g.defs.structs,
                    n,
                )
        }),
{
    reveal(program::fill);
    let s = it.1->Struct_0;
    let r = program::fill(g, it);
    lemma_fields(g.defs, d, it.0, full(it), s.fields, 0, Seq::empty(), g.diags);
    let x = TStruct { name: full(it), fields: fields_of(d, it).0 };
    name_map::law_put_keeps_sorted(g.defs.structs, full(it), x);
    name_map::law_put_then_find(g.defs.structs, full(it), x, full(it));
    assert(name_map::find(g.defs.structs, full(it)) is Some <==> name_map::find(
        d.structs,
        full(it),
    ) is Some);
    assert forall|n: Text| n != full(it) implies #[trigger] name_map::find(r.defs.structs, n)
        == name_map::find(g.defs.structs, n) by {
        name_map::law_put_then_find(g.defs.structs, full(it), x, n);
    }
    assert forall|n: Text| #[trigger]
        name_map::find(r.defs.structs, n) is Some <==> name_map::find(d.structs, n) is Some by {
        assert(name_map::find(g.defs.structs, n) is Some <==> name_map::find(d.structs, n) is Some);
    }
}

/// What filling in an enum does to the enums.
proof fn lemma_fill_enum(g: Gathered, h: Gathered, vs: Seq<TVariant>, d: Defs, it: Placed)
    requires
        it.1 is Enum,
        types_sorted(g.defs),
        same_names(g.defs, d),
        (h, vs) == program::enum_variants(
            g,
            it.0,
            full(it),
            variants_of(it),
            0,
            Seq::empty(),
        ),
        h.defs == (Defs { variants: h.defs.variants, ..g.defs }),
        name_map::sorted(h.defs.variants),
    ensures
        ({
            let r = program::fill(g, it);
            &&& types_sorted(r.defs)
            &&& same_names(r.defs, d)
            &&& r.defs == (Defs { enums: r.defs.enums, variants: h.defs.variants, ..g.defs })
            &&& r.diags == h.diags
            &&& name_map::find(d.enums, full(it)) is Some ==> name_map::find(
                r.defs.enums,
                full(it),
            ) == Some(TEnum { name: full(it), variants: vs })
            &&& forall|n: Text|
                n != full(it) ==> #[trigger] name_map::find(r.defs.enums, n) == name_map::find(
                    g.defs.enums,
                    n,
                )
        }),
{
    reveal(program::fill);
    let r = program::fill(g, it);
    let x = TEnum { name: full(it), variants: vs };
    name_map::law_put_keeps_sorted(g.defs.enums, full(it), x);
    name_map::law_put_then_find(g.defs.enums, full(it), x, full(it));
    assert(name_map::find(g.defs.enums, full(it)) is Some <==> name_map::find(
        d.enums,
        full(it),
    ) is Some);
    assert forall|n: Text| n != full(it) implies #[trigger] name_map::find(r.defs.enums, n)
        == name_map::find(g.defs.enums, n) by {
        name_map::law_put_then_find(g.defs.enums, full(it), x, n);
    }
    assert forall|n: Text| #[trigger]
        name_map::find(r.defs.enums, n) is Some <==> name_map::find(d.enums, n) is Some by {
        assert(name_map::find(g.defs.enums, n) is Some <==> name_map::find(d.enums, n) is Some);
    }
}

/// Whether the own names of variants from the item at `i` on differ from all before
/// them.
pub open spec fn owns_new(its: Seq<Placed>, i: int) -> bool {
    forall|j: int, k: int, a: int, b: int| #[trigger]
        place(its, j, k) && i <= j && #[trigger] place(its, a, b) && before(a, b, j, k) ==> own_key(
            its[j],
            k,
        ) != own_key(its[a], b)
}

/// Items that are filled in without a complaint are in order.
pub proof fn lemma_fill_clean(g: Gathered, d: Defs, its: Seq<Placed>, i: int)
    requires
        0 <= i <= its.len(),
        types_sorted(g.defs),
        same_names(g.defs, d),
        present(g.defs.variants, its, i, 0),
        program::fill_all(g, its, i).diags.len() == g.diags.len(),
    ensures
        forall|j: int| i <= j < its.len() ==> item_ok(d, #[trigger] its[j]),
        owns_new(its, i),
    decreases its.len() - i,
{
    if i < its.len() {
        let it = its[i];
        let g1 = program::fill(g, it);
        safety::lemma_fill(g, it);
        safety::lemma_fill_all(g1, its, i + 1);
        match it.1 {
            AItem::Struct(_) => {
                lemma_fill_struct(g, d, it);
                assert(fields_of(d, it).1.len() == 0);
            },
            AItem::Enum(_) => {
                let (h, vs) = program::enum_variants(
                    g,
                    it.0,
                    full(it),
                    variants_of(it),
                    0,
                    Seq::empty(),
                );
                assert(h.diags == g1.diags) by {
                    reveal(program::fill);
                }
                lemma_variants_clean(g, d, its, i, 0, Seq::empty());
                lemma_fill_enum(g, h, vs, d, it);
            },
            _ => {
                reveal(program::fill);
            },
        }
        assert(item_ok(d, it));
        assert(present(g1.defs.variants, its, i + 1, 0)) by {
            assert forall|a: int, b: int| #[trigger]
                place(its, a, b) && before(a, b, i + 1, 0) implies name_map::find(
                g1.defs.variants,
                own_key(its[a], b),
            ) is Some by {
                assert(before(a, b, i, variants_of(it).len() as int));
                assert(a < i ==> before(a, b, i, 0));
            }
        }
        lemma_fill_clean(g1, d, its, i + 1);
        assert(owns_new(its, i));
    }
}

/// Items in order are filled in without a complaint.
pub proof fn lemma_fill_ok(g: Gathered, d: Defs, its: Seq<Placed>, i: int)
    requires
        0 <= i <= its.len(),
        types_sorted(g.defs),
        same_names(g.defs, d),
        types_apart(its, 0),
        owns_apart(its),
        forall|j: int| 0 <= j < its.len() ==> item_ok(d, #[trigger] its[j]),
        forall|j: int|
            0 <= j < its.len() ==> ((#[trigger] its[j]).1 is Struct ==> name_map::find(
                d.structs,
                full(its[j]),
            ) is Some) && (its[j].1 is Enum ==> name_map::find(d.enums, full(its[j])) is Some),
        origin(g.defs.variants, its, i, 0),
        forall|a: int| 0 <= a < i ==> entered(g.defs, d, #[trigger] its[a]),
    ensures
        ({
            let r = program::fill_all(g, its, i);
            &&& r.diags == g.diags
            &&& types_sorted(r.defs)
            &&& same_names(r.defs, d)
            &&& origin(r.defs.variants, its, its.len() as int, 0)
            &&& forall|a: int| 0 <= a < its.len() ==> entered(r.defs, d, #[trigger] its[a])
        }),
    decreases its.len() - i,
{
    if i < its.len() {
        let it = its[i];
        let g1 = program::fill(g, it);
        assert(item_ok(d, it));
        match it.1 {
            AItem::Struct(_) => {
                lemma_fill_struct(g, d, it);
                assert(fields_of(d, it).1 =~= Seq::<Diag>::empty());
                assert(g1.diags =~= g.diags);
            },
            AItem::Enum(_) => {
                let (h, vs) = program::enum_variants(
                    g,
                    it.0,
                    full(it),
                    variants_of(it),
                    0,
                    Seq::empty(),
                );
                assert(Seq::<TVariant>::empty() =~= first_variants(d, it, 0));
                lemma_variants(g, d, its, i, 0, Seq::empty());
                lemma_fill_enum(g, h, vs, d, it);
                assert(entered(g1.defs, d, it));
            },
            _ => {
                reveal(program::fill);
            },
        }
        assert(grown(g.defs.variants, g1.defs.variants));
        assert forall|a: int| 0 <= a < i + 1 implies entered(g1.defs, d, #[trigger] its[a]) by {
            if a < i {
                assert(entered(g.defs, d, its[a]));
                assert(types_differ(its[a], its[i]));
                let other = its[a];
                match other.1 {
                    AItem::Enum(e) => {
                        assert forall|k: int| 0 <= k < e.variants.len() implies #[trigger] known(
                            g1.defs.variants,
                            other,
                            k,
                        ) by {
                            assert(known(g.defs.variants, other, k));
                            lemma_grown(g.defs.variants, g1.defs.variants, other, k);
                        }
                    },
                    _ => {},
                }
            }
        }
        assert(origin(g1.defs.variants, its, i + 1, 0)) by {
            assert forall|n: Text| #[trigger]
                name_map::find(g1.defs.variants, n) is Some implies exists|a: int, b: int|
                #[trigger]
                place(its, a, b) && before(a, b, i + 1, 0) && n == own_key(its[a], b) by {
                let (a, b) = choose|a: int, b: int| #[trigger]
                    place(its, a, b) && (before(a, b, i, 0) || before(
                        a,
                        b,
                        i,
                        variants_of(it).len() as int,
                    )) && n == own_key(its[a], b);
                assert(place(its, a, b) && before(a, b, i + 1, 0));
            }
        }
        lemma_fill_ok(g1, d, its, i + 1);
    }
}

} // verus!
