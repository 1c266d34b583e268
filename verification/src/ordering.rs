//! The order of items does not matter: a definition may stand anywhere in a program,
//! before or behind what it uses.

use crate::ast::{AItem, AProgram};
use crate::catalogue;
use crate::diagnostic::Diag;
use crate::ir::{TModule, TSig, TType};
use crate::name_map;
use crate::program::{self, Built, Gathered, Placed};
use crate::safety;
use crate::text::Text;
use crate::typing::{self, AImport, Defs};
use vstd::prelude::*;

verus! {

// ---- rearrangements -----------------------------------------------------

/// Whether `b` has the items of `a`, each once: the one at `k` is that of `a` at
/// `at[k]`.
pub open spec fn rearranged(a: Seq<Placed>, b: Seq<Placed>, at: Seq<int>) -> bool {
    &&& a.len() == b.len() == at.len()
    &&& forall|k: int| 0 <= k < at.len() ==> 0 <= #[trigger] at[k] < a.len() && b[k] == a[at[k]]
    &&& forall|j: int, k: int| 0 <= j < k < at.len() ==> #[trigger] at[j] != #[trigger] at[k]
}

/// Every item of `a` is one of `b`.
proof fn lemma_onto(a: Seq<Placed>, b: Seq<Placed>, at: Seq<int>, i: int) -> (k: int)
    requires
        rearranged(a, b, at),
        0 <= i < a.len(),
    ensures
        0 <= k < b.len(),
        at[k] == i,
        b[k] == a[i],
{
    if !(exists|k: int| 0 <= k < at.len() && #[trigger] at[k] == i) {
        let n = at.len();
        let whole = vstd::set_lib::set_int_range(0, n as int);
        vstd::set_lib::lemma_int_range(0, n as int);
        assert(at.no_duplicates()) by {
            assert forall|x: int, y: int| 0 <= x < at.len() && 0 <= y < at.len() && x
                != y implies at[x] != at[y] by {
                if x < y {
                    assert(at[x] != at[y]);
                } else {
                    assert(at[y] != at[x]);
                }
            }
        }
        at.unique_seq_to_set();
        let s = at.to_set();
        assert(s.subset_of(whole.remove(i))) by {
            assert forall|x: int| s.contains(x) implies whole.remove(i).contains(x) by {
                let k = choose|k: int| 0 <= k < at.len() && at[k] == x;
                assert(at[k] == x);
            }
        }
        vstd::set_lib::lemma_len_subset(s, whole.remove(i));
        assert(false);
    }
    choose|k: int| 0 <= k < at.len() && #[trigger] at[k] == i
}

// ---- types --------------------------------------------------------------

/// What is declared does not depend on the order.
proof fn lemma_declared_same(a: Seq<Placed>, b: Seq<Placed>, at: Seq<int>)
    requires
        rearranged(a, b, at),
        program::declare_all(nothing(), a, 0).diags.len() == 0,
    ensures
        program::declare_all(nothing(), b, 0).diags.len() == 0,
        catalogue::types_apart(a, 0),
        catalogue::types_apart(b, 0),
        catalogue::same_names(
            program::declare_all(nothing(), b, 0).defs,
            program::declare_all(nothing(), a, 0).defs,
        ),
{
    let g0 = nothing();
    let g = program::declare_all(g0, a, 0);
    let h = program::declare_all(g0, b, 0);
    catalogue::lemma_declare_all(g0, a, 0);
    catalogue::lemma_declare_all(g0, b, 0);
    assert forall|j: int, k: int| 0 <= j < k < b.len() implies catalogue::types_differ(
        #[trigger] b[j],
        #[trigger] b[k],
    ) by {
        assert(at[j] != at[k]);
        if at[j] < at[k] {
            assert(catalogue::types_differ(a[at[j]], a[at[k]]));
        } else {
            assert(catalogue::types_differ(a[at[k]], a[at[j]]));
        }
    }
    assert(catalogue::types_free(g0, b, 0));
    assert forall|u: AImport| #[trigger]
        catalogue::imports_hold(h.defs.imports, u) <==> catalogue::imports_hold(
            g.defs.imports,
            u,
        ) by {
        if catalogue::imports_hold(h.defs.imports, u) {
            let k = choose|k: int| 0 <= k < b.len() && catalogue::is_import(#[trigger] b[k], u);
            assert(catalogue::is_import(a[at[k]], u));
        }
        if catalogue::imports_hold(g.defs.imports, u) {
            let j = choose|j: int| 0 <= j < a.len() && catalogue::is_import(#[trigger] a[j], u);
            let k = lemma_onto(a, b, at, j);
            assert(catalogue::is_import(b[k], u));
        }
    }
    catalogue::lemma_imports_equal(h.defs.imports, g.defs.imports);
    assert forall|n: Text| #[trigger]
        name_map::find(h.defs.structs, n) is Some <==> name_map::find(
            g.defs.structs,
            n,
        ) is Some by {
        if name_map::find(h.defs.structs, n) is Some {
            let k = choose|k: int| 0 <= k < b.len() && catalogue::is_struct(#[trigger] b[k], n);
            assert(catalogue::is_struct(a[at[k]], n));
        }
        if name_map::find(g.defs.structs, n) is Some {
            let j = choose|j: int| 0 <= j < a.len() && catalogue::is_struct(#[trigger] a[j], n);
            let k = lemma_onto(a, b, at, j);
            assert(catalogue::is_struct(b[k], n));
        }
    }
    assert forall|n: Text| #[trigger]
        name_map::find(h.defs.enums, n) is Some <==> name_map::find(g.defs.enums, n) is Some by {
        if name_map::find(h.defs.enums, n) is Some {
            let k = choose|k: int| 0 <= k < b.len() && catalogue::is_enum(#[trigger] b[k], n);
            assert(catalogue::is_enum(a[at[k]], n));
        }
        if name_map::find(g.defs.enums, n) is Some {
            let j = choose|j: int| 0 <= j < a.len() && catalogue::is_enum(#[trigger] a[j], n);
            let k = lemma_onto(a, b, at, j);
            assert(catalogue::is_enum(b[k], n));
        }
    }
}

/// Before the first item nothing is declared.
pub open spec fn nothing() -> Gathered {
    Gathered { defs: Defs::none(), diags: Seq::empty() }
}

/// What has been declared once types and variants are filled in.
pub open spec fn filled(its: Seq<Placed>) -> Gathered {
    program::fill_all(program::declare_all(nothing(), its, 0), its, 0)
}

/// Types and variants that are accepted are in order, and are as their items say.
pub proof fn lemma_filled(its: Seq<Placed>)
    requires
        filled(its).diags.len() == 0,
    ensures
        ({
            let d = program::declare_all(nothing(), its, 0).defs;
            let r = filled(its).defs;
            &&& program::declare_all(nothing(), its, 0).diags.len() == 0
            &&& catalogue::owns_apart(its)
            &&& forall|j: int| 0 <= j < its.len() ==> catalogue::item_ok(d, #[trigger] its[j])
            &&& catalogue::declared(
                nothing(),
                its,
                0,
                program::declare_all(nothing(), its, 0),
            )
            &&& catalogue::types_sorted(r)
            &&& catalogue::same_names(r, d)
            &&& catalogue::origin(r.variants, its, its.len() as int, 0)
            &&& forall|a: int| 0 <= a < its.len() ==> catalogue::entered(r, d, #[trigger] its[a])
        }),
{
    let g = program::declare_all(nothing(), its, 0);
    catalogue::lemma_declare_all(nothing(), its, 0);
    safety::lemma_fill_all(g, its, 0);
    catalogue::lemma_fill_clean(g, g.defs, its, 0);
    assert(catalogue::owns_apart(its)) by {
        assert forall|j: int, k: int, x: int, y: int| #[trigger]
            catalogue::place(its, j, k) && #[trigger] catalogue::place(its, x, y) && (j != x || k
                != y) implies catalogue::own_key(its[j], k) != catalogue::own_key(its[x], y) by {
            assert(catalogue::before(x, y, j, k) || catalogue::before(j, k, x, y));
        }
    }
    lemma_types_found(its);
    catalogue::lemma_fill_ok(g, g.defs, its, 0);
}

proof fn lemma_types_found(its: Seq<Placed>)
    requires
        program::declare_all(nothing(), its, 0).diags.len() == 0,
    ensures
        ({
            let d = program::declare_all(nothing(), its, 0).defs;
            forall|j: int|
                0 <= j < its.len() ==> ((#[trigger] its[j]).1 is Struct ==> name_map::find(
                    d.structs,
                    catalogue::full(its[j]),
                ) is Some) && (its[j].1 is Enum ==> name_map::find(
                    d.enums,
                    catalogue::full(its[j]),
                ) is Some)
        }),
{
    let d = program::declare_all(nothing(), its, 0).defs;
    catalogue::lemma_declare_all(nothing(), its, 0);
    assert forall|j: int| 0 <= j < its.len() implies ((#[trigger] its[j]).1 is Struct
        ==> name_map::find(d.structs, catalogue::full(its[j])) is Some) && (its[j].1 is Enum
        ==> name_map::find(d.enums, catalogue::full(its[j])) is Some) by {
        let n = catalogue::full(its[j]);
        if its[j].1 is Struct {
            assert(catalogue::is_struct(its[j], n));
        }
        if its[j].1 is Enum {
            assert(catalogue::is_enum(its[j], n));
        }
    }
}

proof fn lemma_rearranged_keys(a: Seq<Placed>, b: Seq<Placed>, at: Seq<int>)
    requires
        rearranged(a, b, at),
        catalogue::owns_apart(a),
    ensures
        catalogue::owns_apart(b),
{
    assert forall|j: int, k: int, x: int, y: int| #[trigger]
        catalogue::place(b, j, k) && #[trigger] catalogue::place(b, x, y) && (j != x || k
            != y) implies catalogue::own_key(b[j], k) != catalogue::own_key(b[x], y) by {
        assert(b[j] == a[at[j]] && b[x] == a[at[x]]);
        assert(j != x ==> at[j] != at[x]) by {
            if j < x {
                assert(at[j] != at[x]);
            } else if x < j {
                assert(at[x] != at[j]);
            }
        }
        assert(catalogue::place(a, at[j], k) && catalogue::place(a, at[x], y));
    }
}

/// What stands for a variant in `r` stands for it in `q`.
proof fn lemma_variant_same(
    r: Defs,
    q: Defs,
    d: Defs,
    a: Seq<Placed>,
    key: Text,
)
    requires
        catalogue::origin(r.variants, a, a.len() as int, 0),
        forall|j: int| 0 <= j < a.len() ==> catalogue::entered(r, d, #[trigger] a[j]),
        forall|j: int| 0 <= j < a.len() ==> catalogue::entered(q, d, #[trigger] a[j]),
        name_map::find(r.variants, key) is Some,
    ensures
        name_map::find(r.variants, key) == name_map::find(q.variants, key),
{
    let (j, k) = choose|j: int, k: int| #[trigger]
        catalogue::place(a, j, k) && catalogue::before(j, k, a.len() as int, 0) && key
            == catalogue::own_key(a[j], k);
    assert(catalogue::place(a, j, k));
    assert(catalogue::entered(r, d, a[j]) && catalogue::entered(q, d, a[j]));
    assert(catalogue::known(r.variants, a[j], k));
    assert(catalogue::known(q.variants, a[j], k));
}

/// Types and variants do not depend on the order.
proof fn lemma_filled_same(a: Seq<Placed>, b: Seq<Placed>, at: Seq<int>)
    requires
        rearranged(a, b, at),
        filled(a).diags.len() == 0,
    ensures
        filled(a) == filled(b),
{
    let g = program::declare_all(nothing(), a, 0);
    let h = program::declare_all(nothing(), b, 0);
    let d = g.defs;
    let r = filled(a).defs;
    let q = filled(b).defs;
    lemma_filled(a);
    lemma_declared_same(a, b, at);
    lemma_rearranged_keys(a, b, at);
    catalogue::lemma_declare_all(nothing(), b, 0);
    lemma_types_found(a);
    assert forall|j: int| 0 <= j < b.len() implies catalogue::item_ok(d, #[trigger] b[j]) by {
        assert(b[j] == a[at[j]]);
    }
    assert forall|j: int| 0 <= j < b.len() implies ((#[trigger] b[j]).1 is Struct
        ==> name_map::find(d.structs, catalogue::full(b[j])) is Some) && (b[j].1 is Enum
        ==> name_map::find(d.enums, catalogue::full(b[j])) is Some) by {
        assert(b[j] == a[at[j]]);
    }
    catalogue::lemma_fill_ok(h, d, b, 0);
    assert forall|j: int| 0 <= j < a.len() implies catalogue::entered(q, d, #[trigger] a[j]) by {
        let k = lemma_onto(a, b, at, j);
        assert(catalogue::entered(q, d, b[k]));
    }
    assert forall|k: int| 0 <= k < b.len() implies catalogue::entered(r, d, #[trigger] b[k]) by {
        assert(b[k] == a[at[k]]);
    }
    assert forall|n: Text| #[trigger] name_map::find(r.structs, n) == name_map::find(
        q.structs,
        n,
    ) by {
        assert(name_map::find(r.structs, n) is Some <==> name_map::find(d.structs, n) is Some);
        assert(name_map::find(q.structs, n) is Some <==> name_map::find(d.structs, n) is Some);
        if name_map::find(d.structs, n) is Some {
            let j = choose|j: int| 0 <= j < a.len() && catalogue::is_struct(#[trigger] a[j], n);
            assert(catalogue::entered(r, d, a[j]) && catalogue::entered(q, d, a[j]));
        }
    }
    assert forall|n: Text| #[trigger] name_map::find(r.enums, n) == name_map::find(q.enums, n) by {
        assert(name_map::find(r.enums, n) is Some <==> name_map::find(d.enums, n) is Some);
        assert(name_map::find(q.enums, n) is Some <==> name_map::find(d.enums, n) is Some);
        if name_map::find(d.enums, n) is Some {
            let j = choose|j: int| 0 <= j < a.len() && catalogue::is_enum(#[trigger] a[j], n);
            assert(catalogue::entered(r, d, a[j]) && catalogue::entered(q, d, a[j]));
        }
    }
    assert forall|n: Text| #[trigger] name_map::find(r.variants, n) == name_map::find(
        q.variants,
        n,
    ) by {
        if name_map::find(r.variants, n) is Some {
            lemma_variant_same(r, q, d, a, n);
        } else if name_map::find(q.variants, n) is Some {
            lemma_variant_same(q, r, d, b, n);
        }
    }
    name_map::lemma_tables_equal(r.structs, q.structs);
    name_map::lemma_tables_equal(r.enums, q.enums);
    name_map::lemma_tables_equal(r.variants, q.variants);
    safety::lemma_declare_all(nothing(), a, 0);
    safety::lemma_declare_all(nothing(), b, 0);
    safety::lemma_fill_all(g, a, 0);
    safety::lemma_fill_all(h, b, 0);
    assert(filled(a).diags =~= filled(b).diags);
}

// ---- announcing ---------------------------------------------------------

/// Whether the types of all constants are known.
pub open spec fn consts_known(d: Defs, its: Seq<Placed>) -> bool {
    forall|j: int|
        0 <= j < its.len() ==> ((#[trigger] its[j]).1 matches AItem::Const(c) ==> typing::resolve(
            d,
            its[j].0,
            c.ty,
            c.span,
        ) is Ok)
}

/// Whether two items are not functions, or constants, of one name.
pub open spec fn apart(a: Placed, b: Placed) -> bool {
    match (a.1, b.1) {
        (AItem::Func(f), AItem::Func(g)) => typing::qualify(a.0, f.name) != typing::qualify(
            b.0,
            g.name,
        ),
        (AItem::Const(c), AItem::Const(e)) => typing::qualify(a.0, c.name) != typing::qualify(
            b.0,
            e.name,
        ),
        _ => true,
    }
}

/// Whether the items from position `i` on are pairwise apart.
pub open spec fn all_apart(its: Seq<Placed>, i: int) -> bool {
    forall|j: int, k: int| i <= j < k < its.len() ==> apart(#[trigger] its[j], #[trigger] its[k])
}

/// Whether the name of a function or constant is free in `d`.
pub open spec fn free(d: Defs, it: Placed) -> bool {
    match it.1 {
        AItem::Func(f) => name_map::find(d.funcs, typing::qualify(it.0, f.name)) is None,
        AItem::Const(c) => name_map::find(d.consts, typing::qualify(it.0, c.name)) is None,
        _ => true,
    }
}

pub open spec fn tables_sorted(d: Defs) -> bool {
    name_map::sorted(d.funcs) && name_map::sorted(d.consts)
}

/// What one announcement without a complaint does.
proof fn lemma_announce_free(g: Gathered, it: Placed, other: Placed)
    requires
        tables_sorted(g.defs),
        it.1 matches AItem::Const(c) ==> typing::resolve(g.defs, it.0, c.ty, c.span) is Ok,
    ensures
        ({
            let r = program::announce(g, it);
            &&& tables_sorted(r.defs)
            &&& safety::same_types(g.defs, r.defs)
            &&& r.defs.variants == g.defs.variants
            &&& free(g.defs, it) ==> r.diags == g.diags
            &&& !free(g.defs, it) ==> r.diags.len() > g.diags.len()
            &&& free(g.defs, it) ==> (free(r.defs, other) <==> free(g.defs, other) && apart(
                it,
                other,
            ))
        }),
{
    reveal(program::announce);
    safety::lemma_announce(g, it);
    let r = program::announce(g, it);
    if free(g.defs, it) {
        match (it.1, other.1) {
            (AItem::Func(f), AItem::Func(h)) => {
                let full = typing::qualify(it.0, f.name);
                name_map::law_put_then_find(
                    g.defs.funcs,
                    full,
                    safety::declared_sig(g.defs, it.0, f),
                    typing::qualify(other.0, h.name),
                );
            },
            (AItem::Const(c), AItem::Const(e)) => {
                let full = typing::qualify(it.0, c.name);
                name_map::law_put_then_find(
                    g.defs.consts,
                    full,
                    typing::resolve(g.defs, it.0, c.ty, c.span)->Ok_0,
                    typing::qualify(other.0, e.name),
                );
            },
            _ => {},
        }
    }
}

pub proof fn lemma_known_same(a: Defs, b: Defs, its: Seq<Placed>)
    requires
        safety::same_types(a, b),
        consts_known(a, its),
    ensures
        consts_known(b, its),
{
    assert forall|j: int| 0 <= j < its.len() implies ((#[trigger] its[j]).1 matches AItem::Const(
        c,
    ) ==> typing::resolve(b, its[j].0, c.ty, c.span) is Ok) by {
        match its[j].1 {
            AItem::Const(c) => safety::lemma_resolve(a, b, its[j].0, c.ty, c.span),
            _ => {},
        }
    }
}

/// Without complaints all names are free and apart, and the other way round.
pub proof fn lemma_announce_clean(g: Gathered, its: Seq<Placed>, i: int)
    requires
        0 <= i <= its.len(),
        tables_sorted(g.defs),
        consts_known(g.defs, its),
    ensures
        ({
            let r = program::announce_all(g, its, i);
            &&& r.defs.variants == g.defs.variants
            &&& g.diags.len() <= r.diags.len()
            &&& (forall|j: int| i <= j < its.len() ==> free(g.defs, #[trigger] its[j]))
                && all_apart(its, i) ==> r.diags == g.diags
            &&& r.diags.len() == g.diags.len() ==> (forall|j: int|
                i <= j < its.len() ==> free(g.defs, #[trigger] its[j])) && all_apart(its, i)
        }),
    decreases its.len() - i,
{
    if i < its.len() {
        let it = its[i];
        let g1 = program::announce(g, it);
        lemma_announce_free(g, it, it);
        lemma_known_same(g.defs, g1.defs, its);
        lemma_announce_clean(g1, its, i + 1);
        assert forall|j: int| i <= j < its.len() && free(g.defs, it) implies (free(
            g1.defs,
            #[trigger] its[j],
        ) <==> free(g.defs, its[j]) && apart(it, its[j])) by {
            lemma_announce_free(g, it, its[j]);
        }
        let r = program::announce_all(g, its, i);
        if (forall|j: int| i <= j < its.len() ==> free(g.defs, #[trigger] its[j])) && all_apart(
            its,
            i,
        ) {
            assert(free(g.defs, its[i]));
            assert forall|j: int| i + 1 <= j < its.len() implies free(
                g1.defs,
                #[trigger] its[j],
            ) by {
                assert(apart(its[i], its[j]));
            }
        }
        if r.diags.len() == g.diags.len() {
            assert(free(g.defs, it));
            assert forall|j: int| i <= j < its.len() implies free(g.defs, #[trigger] its[j]) by {
                if j > i {
                    assert(free(g1.defs, its[j]));
                }
            }
            assert forall|j: int, k: int| i <= j < k < its.len() implies apart(
                #[trigger] its[j],
                #[trigger] its[k],
            ) by {
                if j == i {
                    assert(free(g1.defs, its[k]));
                }
            }
        }
    }
}

proof fn lemma_rearranged_apart(a: Seq<Placed>, b: Seq<Placed>, at: Seq<int>)
    requires
        rearranged(a, b, at),
        all_apart(a, 0),
    ensures
        all_apart(b, 0),
{
    assert forall|j: int, k: int| 0 <= j < k < b.len() implies apart(
        #[trigger] b[j],
        #[trigger] b[k],
    ) by {
        assert(at[j] != at[k]);
        assert(b[j] == a[at[j]] && b[k] == a[at[k]]);
        if at[j] < at[k] {
            assert(apart(a[at[j]], a[at[k]]));
        } else {
            assert(apart(a[at[k]], a[at[j]]));
        }
    }
}

/// What was announced does not depend on the order.
proof fn lemma_announced_same(g: Gathered, a: Seq<Placed>, b: Seq<Placed>, at: Seq<int>)
    requires
        rearranged(a, b, at),
        g.defs.funcs == Seq::<(Text, TSig)>::empty(),
        g.defs.consts == Seq::<(Text, TType)>::empty(),
        consts_known(g.defs, a),
        program::announce_all(g, a, 0).diags.len() == g.diags.len(),
    ensures
        program::announce_all(g, a, 0) == program::announce_all(g, b, 0),
        all_apart(a, 0),
        all_apart(b, 0),
{
    let r = program::announce_all(g, a, 0);
    let q = program::announce_all(g, b, 0);
    assert(consts_known(g.defs, b)) by {
        assert forall|j: int| 0 <= j < b.len() implies ((#[trigger] b[j]).1 matches AItem::Const(
            c,
        ) ==> typing::resolve(g.defs, b[j].0, c.ty, c.span) is Ok) by {
            assert(b[j] == a[at[j]]);
        }
    }
    lemma_announce_clean(g, a, 0);
    lemma_announce_clean(g, b, 0);
    lemma_rearranged_apart(a, b, at);
    assert(q.diags == g.diags);
    lemma_announce_diags(g, a, 0);
    safety::lemma_announce_all(g, a, 0);
    safety::lemma_announce_all(g, b, 0);
    lemma_known_same(g.defs, r.defs, a);
    lemma_known_same(g.defs, q.defs, b);
    assert forall|n: Text| #[trigger] name_map::find(r.defs.funcs, n) == name_map::find(
        q.defs.funcs,
        n,
    ) by {
        if name_map::find(r.defs.funcs, n) is Some {
            let j = choose|j: int| 0 <= j < a.len() && safety::is_func(#[trigger] a[j], n);
            let k = lemma_onto(a, b, at, j);
            lemma_values(r.defs, q.defs, a[j], n);
            assert(safety::announced(q.defs, b[k]));
            assert(safety::announced(r.defs, a[j]));
        } else if name_map::find(q.defs.funcs, n) is Some {
            let k = choose|k: int| 0 <= k < b.len() && safety::is_func(#[trigger] b[k], n);
            assert(b[k] == a[at[k]]);
            assert(safety::announced(r.defs, a[at[k]]));
        }
    }
    assert forall|n: Text| #[trigger] name_map::find(r.defs.consts, n) == name_map::find(
        q.defs.consts,
        n,
    ) by {
        if name_map::find(r.defs.consts, n) is Some {
            let j = choose|j: int| 0 <= j < a.len() && safety::is_const(#[trigger] a[j], n);
            let k = lemma_onto(a, b, at, j);
            lemma_values(r.defs, q.defs, a[j], n);
            assert(safety::announced(q.defs, b[k]));
            assert(safety::announced(r.defs, a[j]));
        } else if name_map::find(q.defs.consts, n) is Some {
            let k = choose|k: int| 0 <= k < b.len() && safety::is_const(#[trigger] b[k], n);
            assert(b[k] == a[at[k]]);
            assert(safety::announced(r.defs, a[at[k]]));
        }
    }
    name_map::lemma_tables_equal(r.defs.funcs, q.defs.funcs);
    name_map::lemma_tables_equal(r.defs.consts, q.defs.consts);
}

proof fn lemma_announce_diags(g: Gathered, its: Seq<Placed>, i: int)
    requires
        0 <= i <= its.len(),
        tables_sorted(g.defs),
        consts_known(g.defs, its),
        program::announce_all(g, its, i).diags.len() == g.diags.len(),
    ensures
        program::announce_all(g, its, i).diags == g.diags,
{
    lemma_announce_clean(g, its, i);
}

proof fn lemma_values(a: Defs, b: Defs, it: Placed, n: Text)
    requires
        safety::same_types(a, b),
    ensures
        it.1 matches AItem::Func(f) ==> safety::declared_sig(a, it.0, f) == safety::declared_sig(
            b,
            it.0,
            f,
        ),
        it.1 matches AItem::Const(c) ==> typing::resolve(a, it.0, c.ty, c.span) == typing::resolve(
            b,
            it.0,
            c.ty,
            c.span,
        ),
{
    match it.1 {
        AItem::Func(f) => safety::lemma_declared_sig(a, b, it.0, f),
        AItem::Const(c) => safety::lemma_resolve(a, b, it.0, c.ty, c.span),
        _ => {},
    }
}

// ---- building -----------------------------------------------------------

/// Whether an item is accepted.
pub open spec fn accepted(d: Defs, it: Placed) -> bool {
    match it.1 {
        AItem::Func(f) => program::check_func(d, it.0, f) is Ok,
        AItem::Const(c) => program::check_const(d, it.0, c) is Ok,
        _ => true,
    }
}

/// Whether what is built of an item stands in the tables.
pub open spec fn stands(d: Defs, b: Built, it: Placed) -> bool {
    match it.1 {
        AItem::Func(f) => program::check_func(d, it.0, f) matches Ok(x) && name_map::find(
            b.funcs,
            typing::qualify(it.0, f.name),
        ) == Some(x),
        AItem::Const(c) => program::check_const(d, it.0, c) matches Ok(x) && name_map::find(
            b.consts,
            typing::qualify(it.0, c.name),
        ) == Some(x),
        _ => true,
    }
}

/// Without complaints every item is accepted, and the other way round.
pub proof fn lemma_build_clean(d: Defs, b: Built, its: Seq<Placed>, i: int)
    requires
        0 <= i <= its.len(),
    ensures
        ({
            let r = program::build_all(d, b, its, i);
            &&& b.diags.len() <= r.diags.len()
            &&& (forall|j: int| i <= j < its.len() ==> accepted(d, #[trigger] its[j])) ==> r.diags
                == b.diags
            &&& r.diags.len() == b.diags.len() ==> forall|j: int|
                i <= j < its.len() ==> accepted(d, #[trigger] its[j])
        }),
    decreases its.len() - i,
{
    if i < its.len() {
        reveal(program::build);
        lemma_build_clean(d, program::build(d, b, its[i]), its, i + 1);
    }
}

proof fn lemma_build_one(d: Defs, b: Built, it: Placed, other: Placed)
    requires
        name_map::sorted(b.funcs),
        name_map::sorted(b.consts),
        accepted(d, it),
    ensures
        ({
            let r = program::build(d, b, it);
            &&& name_map::sorted(r.funcs)
            &&& name_map::sorted(r.consts)
            &&& stands(d, r, it)
            &&& stands(d, b, other) && apart(it, other) ==> stands(d, r, other)
        }),
{
    reveal(program::build);
    match it.1 {
        AItem::Func(f) => {
            safety::lemma_check_func(d, it.0, f);
            let x = program::check_func(d, it.0, f)->Ok_0;
            name_map::law_put_keeps_sorted(b.funcs, x.name, x);
            name_map::law_put_then_find(b.funcs, x.name, x, x.name);
            match other.1 {
                AItem::Func(h) => name_map::law_put_then_find(
                    b.funcs,
                    x.name,
                    x,
                    typing::qualify(other.0, h.name),
                ),
                _ => {},
            }
        },
        AItem::Const(c) => {
            safety::lemma_check_const(d, it.0, c);
            let x = program::check_const(d, it.0, c)->Ok_0;
            name_map::law_put_keeps_sorted(b.consts, x.name, x);
            name_map::law_put_then_find(b.consts, x.name, x, x.name);
            match other.1 {
                AItem::Const(e) => name_map::law_put_then_find(
                    b.consts,
                    x.name,
                    x,
                    typing::qualify(other.0, e.name),
                ),
                _ => {},
            }
        },
        _ => {},
    }
}

pub proof fn lemma_build_all(d: Defs, b: Built, its: Seq<Placed>, i: int)
    requires
        0 <= i <= its.len(),
        name_map::sorted(b.funcs),
        name_map::sorted(b.consts),
        all_apart(its, 0),
        forall|j: int| 0 <= j < its.len() ==> accepted(d, #[trigger] its[j]),
        forall|j: int| 0 <= j < i ==> stands(d, b, #[trigger] its[j]),
    ensures
        ({
            let r = program::build_all(d, b, its, i);
            &&& name_map::sorted(r.funcs)
            &&& name_map::sorted(r.consts)
            &&& forall|j: int| 0 <= j < its.len() ==> stands(d, r, #[trigger] its[j])
        }),
    decreases its.len() - i,
{
    if i < its.len() {
        let r = program::build(d, b, its[i]);
        lemma_build_one(d, b, its[i], its[i]);
        assert forall|j: int| 0 <= j < i + 1 implies stands(d, r, #[trigger] its[j]) by {
            if j < i {
                lemma_build_one(d, b, its[i], its[j]);
                assert(apart(its[j], its[i]));
            }
        }
        lemma_build_all(d, r, its, i + 1);
    }
}

/// Nothing stands in the tables but what was built of an item.
proof fn lemma_build_only(d: Defs, b: Built, its: Seq<Placed>, i: int, n: Text)
    requires
        0 <= i <= its.len(),
        name_map::sorted(b.funcs),
        name_map::sorted(b.consts),
    ensures
        ({
            let r = program::build_all(d, b, its, i);
            &&& name_map::find(r.funcs, n) is Some ==> name_map::find(b.funcs, n) is Some || exists|
                j: int,
            |
                i <= j < its.len() && safety::is_func(#[trigger] its[j], n)
            &&& name_map::find(r.consts, n) is Some ==> name_map::find(b.consts, n) is Some
                || exists|j: int| i <= j < its.len() && safety::is_const(#[trigger] its[j], n)
        }),
    decreases its.len() - i,
{
    if i < its.len() {
        reveal(program::build);
        let it = its[i];
        let b1 = program::build(d, b, it);
        match it.1 {
            AItem::Func(f) => match program::check_func(d, it.0, f) {
                Ok(x) => {
                    safety::lemma_check_func(d, it.0, f);
                    name_map::law_put_keeps_sorted(b.funcs, x.name, x);
                    name_map::law_put_then_find(b.funcs, x.name, x, n);
                    assert(n == x.name ==> safety::is_func(its[i], n));
                },
                Err(_) => {},
            },
            AItem::Const(c) => match program::check_const(d, it.0, c) {
                Ok(x) => {
                    safety::lemma_check_const(d, it.0, c);
                    name_map::law_put_keeps_sorted(b.consts, x.name, x);
                    name_map::law_put_then_find(b.consts, x.name, x, n);
                    assert(n == x.name ==> safety::is_const(its[i], n));
                },
                Err(_) => {},
            },
            _ => {},
        }
        lemma_build_only(d, b1, its, i + 1, n);
    }
}

/// What is built does not depend on the order.
proof fn lemma_built_same(d: Defs, a: Seq<Placed>, b: Seq<Placed>, at: Seq<int>)
    requires
        rearranged(a, b, at),
        all_apart(a, 0),
        all_apart(b, 0),
        program::build_all(d, no_bodies(), a, 0).diags.len() == 0,
    ensures
        program::build_all(d, no_bodies(), a, 0) == program::build_all(d, no_bodies(), b, 0),
{
    let none = no_bodies();
    let r = program::build_all(d, none, a, 0);
    let q = program::build_all(d, none, b, 0);
    lemma_build_clean(d, none, a, 0);
    assert forall|j: int| 0 <= j < b.len() implies accepted(d, #[trigger] b[j]) by {
        assert(b[j] == a[at[j]]);
    }
    lemma_build_clean(d, none, b, 0);
    lemma_build_all(d, none, a, 0);
    lemma_build_all(d, none, b, 0);
    assert forall|n: Text| name_map::find(none.funcs, n) is None && name_map::find(
        none.consts,
        n,
    ) is None by {}
    assert forall|n: Text| #[trigger] name_map::find(r.funcs, n) == name_map::find(q.funcs, n) by {
        lemma_build_only(d, none, a, 0, n);
        lemma_build_only(d, none, b, 0, n);
        if name_map::find(r.funcs, n) is Some {
            let j = choose|j: int| 0 <= j < a.len() && safety::is_func(#[trigger] a[j], n);
            let k = lemma_onto(a, b, at, j);
            assert(stands(d, r, a[j]) && stands(d, q, b[k]));
        } else if name_map::find(q.funcs, n) is Some {
            let k = choose|k: int| 0 <= k < b.len() && safety::is_func(#[trigger] b[k], n);
            assert(stands(d, r, a[at[k]]));
        }
    }
    assert forall|n: Text| #[trigger] name_map::find(r.consts, n) == name_map::find(
        q.consts,
        n,
    ) by {
        lemma_build_only(d, none, a, 0, n);
        lemma_build_only(d, none, b, 0, n);
        if name_map::find(r.consts, n) is Some {
            let j = choose|j: int| 0 <= j < a.len() && safety::is_const(#[trigger] a[j], n);
            let k = lemma_onto(a, b, at, j);
            assert(stands(d, r, a[j]) && stands(d, q, b[k]));
        } else if name_map::find(q.consts, n) is Some {
            let k = choose|k: int| 0 <= k < b.len() && safety::is_const(#[trigger] b[k], n);
            assert(stands(d, r, a[at[k]]));
        }
    }
    name_map::lemma_tables_equal(r.funcs, q.funcs);
    name_map::lemma_tables_equal(r.consts, q.consts);
}

/// What has been built before the first item.
pub open spec fn no_bodies() -> Built {
    Built { funcs: Seq::empty(), consts: Seq::empty(), diags: Seq::empty() }
}

// ---- programs -----------------------------------------------------------

/// The items of a program and of its modules, in source order.
pub open spec fn items_of(p: AProgram) -> Seq<Placed> {
    program::flatten(Seq::empty(), p.items, 0)
}

pub proof fn lemma_consts_known(d: Defs, its: Seq<Placed>)
    requires
        program::build_all(d, no_bodies(), its, 0).diags.len() == 0,
    ensures
        consts_known(d, its),
{
    lemma_build_clean(d, no_bodies(), its, 0);
    reveal(program::check_const);
    assert forall|j: int| 0 <= j < its.len() implies ((#[trigger] its[j]).1 matches AItem::Const(
        c,
    ) ==> typing::resolve(d, its[j].0, c.ty, c.span) is Ok) by {
        assert(accepted(d, its[j]));
    }
}

/// A rearranged program that is accepted gives the same module.
proof fn lemma_same_module(p: AProgram, q: AProgram, at: Seq<int>, m: TModule)
    requires
        rearranged(items_of(p), items_of(q), at),
        program::check_program(p) == Ok::<TModule, Seq<Diag>>(m),
    ensures
        program::check_program(q) == Ok::<TModule, Seq<Diag>>(m),
{
    let a = items_of(p);
    let b = items_of(q);
    let g1 = program::declare_all(nothing(), a, 0);
    let g2 = program::lengthen(filled(a));
    let g = program::announce_all(g2, a, 0);
    safety::lemma_declare_all(nothing(), a, 0);
    safety::lemma_fill_all(g1, a, 0);
    safety::lemma_announce_all(g2, a, 0);
    lemma_filled_same(a, b, at);
    assert(g2.defs.funcs == Seq::<(Text, TSig)>::empty());
    lemma_consts_known(g.defs, a);
    lemma_known_same(g.defs, g2.defs, a);
    lemma_announced_same(g2, a, b, at);
    lemma_built_same(g.defs, a, b, at);
}

/// Sequences of the same elements are rearrangements of one another.
proof fn lemma_arrangement(a: Seq<Placed>, b: Seq<Placed>) -> (at: Seq<int>)
    requires
        a.to_multiset() == b.to_multiset(),
    ensures
        rearranged(a, b, at),
    decreases b.len(),
{
    broadcast use vstd::seq_lib::group_to_multiset_ensures;

    assert(a.len() == a.to_multiset().len() && b.len() == b.to_multiset().len());
    if b.len() == 0 {
        Seq::empty()
    } else {
        let n = b.len() - 1;
        let x = b[n];
        assert(b.contains(x));
        assert(a.to_multiset().count(x) > 0);
        assert(a.contains(x));
        let i = choose|i: int| 0 <= i < a.len() && a[i] == x;
        let less = lemma_arrangement(a.remove(i), b.remove(n));
        let at = Seq::new(
            b.len(),
            |k: int|
                if k == n {
                    i
                } else if less[k] < i {
                    less[k]
                } else {
                    less[k] + 1
                },
        );
        assert forall|k: int| 0 <= k < at.len() implies 0 <= #[trigger] at[k] < a.len() && b[k]
            == a[at[k]] by {
            if k < n {
                assert(b.remove(n)[k] == a.remove(i)[less[k]]);
            }
        }
        assert forall|j: int, k: int| 0 <= j < k < at.len() implies #[trigger] at[j]
            != #[trigger] at[k] by {
            if k < n {
                assert(less[j] != less[k]);
            } else {
                assert(0 <= less[j] < a.len() - 1);
            }
        }
        at
    }
}

/// What an item adds to the items of a program.
pub open spec fn part(m: Text, it: AItem) -> Seq<Placed> {
    match it {
        AItem::Mod(d) => match d.items {
            None => Seq::empty(),
            Some(inner) => program::flatten(typing::qualify(m, d.name), inner, 0),
        },
        _ => seq![(m, it)],
    }
}

proof fn lemma_flatten_shift(m: Text, items: Seq<AItem>, i: int, k: int)
    requires
        0 <= i < items.len(),
        i <= k < items.len(),
    ensures
        program::flatten(m, items.remove(i), k) == program::flatten(m, items, k + 1),
    decreases items.len() - k,
{
    if k + 1 < items.len() {
        assert(items.remove(i)[k] == items[k + 1]);
        lemma_flatten_shift(m, items, i, k + 1);
    }
}

/// An item adds the same wherever it stands.
proof fn lemma_flatten_remove(m: Text, items: Seq<AItem>, i: int, k: int)
    requires
        0 <= k <= i < items.len(),
    ensures
        program::flatten(m, items, k).to_multiset() == program::flatten(
            m,
            items.remove(i),
            k,
        ).to_multiset().add(part(m, items[i]).to_multiset()),
    decreases i - k,
{
    let own = part(m, items[k]);
    let rest = program::flatten(m, items, k + 1);
    assert(program::flatten(m, items, k) == own + rest);
    vstd::seq_lib::lemma_multiset_commutative(own, rest);
    if k == i {
        lemma_flatten_shift(m, items, i, k);
        assert(own.to_multiset().add(rest.to_multiset()) =~= rest.to_multiset().add(
            own.to_multiset(),
        ));
    } else {
        lemma_flatten_remove(m, items, i, k + 1);
        assert(items.remove(i)[k] == items[k]);
        let less = program::flatten(m, items.remove(i), k + 1);
        assert(program::flatten(m, items.remove(i), k) == own + less);
        vstd::seq_lib::lemma_multiset_commutative(own, less);
        let x = part(m, items[i]).to_multiset();
        assert(own.to_multiset().add(less.to_multiset().add(x)) =~= own.to_multiset().add(
            less.to_multiset(),
        ).add(x));
    }
}

proof fn lemma_flatten_same(m: Text, xs: Seq<AItem>, ys: Seq<AItem>)
    requires
        xs.to_multiset() == ys.to_multiset(),
    ensures
        program::flatten(m, xs, 0).to_multiset() == program::flatten(m, ys, 0).to_multiset(),
    decreases xs.len(),
{
    broadcast use vstd::seq_lib::group_to_multiset_ensures;

    assert(xs.len() == xs.to_multiset().len() && ys.len() == ys.to_multiset().len());
    if xs.len() > 0 {
        let x = xs[0];
        assert(xs.contains(x));
        assert(ys.to_multiset().count(x) > 0);
        assert(ys.contains(x));
        let i = choose|i: int| 0 <= i < ys.len() && ys[i] == x;
        lemma_flatten_remove(m, xs, 0, 0);
        lemma_flatten_remove(m, ys, i, 0);
        lemma_flatten_same(m, xs.remove(0), ys.remove(i));
    }
}

/// Definitions may stand in any order, in their modules and among them: of two programs
/// that have the same items in the same modules one is accepted where the other is, and
/// both give the same module.
pub proof fn law_definitions_stand_in_any_order(p: AProgram, q: AProgram)
    requires
        items_of(p).to_multiset() == items_of(q).to_multiset(),
    ensures
        program::check_program(p) is Ok <==> program::check_program(q) is Ok,
        program::check_program(p) is Ok ==> program::check_program(p) == program::check_program(q),
{
    if program::check_program(p) is Ok {
        let at = lemma_arrangement(items_of(p), items_of(q));
        lemma_same_module(p, q, at, program::check_program(p)->Ok_0);
    }
    if program::check_program(q) is Ok {
        let at = lemma_arrangement(items_of(q), items_of(p));
        lemma_same_module(q, p, at, program::check_program(q)->Ok_0);
    }
}

/// The items of a program may stand in any order.
pub proof fn law_items_stand_in_any_order(p: AProgram, q: AProgram)
    requires
        p.items.to_multiset() == q.items.to_multiset(),
    ensures
        program::check_program(p) is Ok <==> program::check_program(q) is Ok,
        program::check_program(p) is Ok ==> program::check_program(p) == program::check_program(q),
{
    lemma_flatten_same(Seq::empty(), p.items, q.items);
    law_definitions_stand_in_any_order(p, q);
}

} // verus!
