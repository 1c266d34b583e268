//! A function checked on its own, against the definitions of a checked module, gives
//! what checking the whole program gave.

use crate::ast::{AFunc, AItem, AProgram};
use crate::catalogue;
use crate::diagnostic::Diag;
use crate::ir::{TEnum, TFunc, TModule, TSig, TType};
use crate::name_map::{self, Table};
use crate::ordering;
use crate::program::{self, Placed};
use crate::safety;
use crate::silent;
use crate::text::{self, Text};
use crate::typing::{AImport, Defs};
use vstd::prelude::*;

verus! {

// ---- programs -----------------------------------------------------------

/// Whether a program has no imports, and its enums stand at the root.
pub open spec fn self_contained(its: Seq<Placed>) -> bool {
    forall|j: int|
        0 <= j < its.len() ==> match (#[trigger] its[j]).1 {
            AItem::Use(_) => false,
            AItem::Enum(_) => its[j].0.len() == 0,
            _ => true,
        }
}

// ---- the variants of a module -------------------------------------------

/// Whether what stands in `a` stands in `b`.
pub open spec fn agrees(a: Table<(Text, usize)>, b: Table<(Text, usize)>) -> bool {
    forall|key: Text| #[trigger]
        name_map::find(a, key) is Some ==> name_map::find(a, key) == name_map::find(b, key)
}

/// Whether the name of a variant stands for position `k` of the enum `en`.
pub open spec fn known(t: Table<(Text, usize)>, en: Text, name: Text, k: int) -> bool {
    name_map::find(t, name) == Some((en, k as usize))
}

proof fn lemma_grown(
    a: Table<(Text, usize)>,
    b: Table<(Text, usize)>,
    en: Text,
    name: Text,
    k: int,
)
    requires
        catalogue::grown(a, b),
        known(a, en, name, k),
    ensures
        known(b, en, name, k),
{
    assert(name_map::find(a, name) is Some);
}

/// Whether the first `n` variants of an enum are known.
pub open spec fn all_known(t: Table<(Text, usize)>, e: (Text, TEnum), n: int) -> bool {
    forall|k: int| 0 <= k < n ==> known(t, e.0, (#[trigger] e.1.variants[k]).name, k)
}

proof fn lemma_plain_variants(
    t: Table<(Text, usize)>,
    acc: Table<(Text, usize)>,
    e: (Text, TEnum),
    i: int,
)
    requires
        0 <= i <= e.1.variants.len(),
        name_map::sorted(acc),
        agrees(acc, t),
        all_known(t, e, e.1.variants.len() as int),
        all_known(acc, e, i),
    ensures
        ({
            let r = program::plain_variants(acc, e.0, e.1.variants, i);
            &&& name_map::sorted(r)
            &&& agrees(r, t)
            &&& catalogue::grown(acc, r)
            &&& all_known(r, e, e.1.variants.len() as int)
        }),
    decreases e.1.variants.len() - i,
{
    let vs = e.1.variants;
    if i < vs.len() {
        let own = vs[i].name;
        let v = (e.0, i as usize);
        let next = name_map::put(acc, own, v);
        assert(known(t, e.0, own, i));
        name_map::law_put_keeps_sorted(acc, own, v);
        assert forall|n: Text| #[trigger]
            name_map::find(next, n) == if n == own {
                Some(v)
            } else {
                name_map::find(acc, n)
            } by {
            name_map::law_put_then_find(acc, own, v, n);
        }
        assert(catalogue::grown(acc, next));
        assert(all_known(next, e, i + 1)) by {
            assert forall|k: int| 0 <= k < i + 1 implies known(
                next,
                e.0,
                (#[trigger] vs[k]).name,
                k,
            ) by {
                if k < i {
                    lemma_grown(acc, next, e.0, vs[k].name, k);
                }
            }
        }
        lemma_plain_variants(t, next, e, i + 1);
    }
}

proof fn lemma_variants_from(
    t: Table<(Text, usize)>,
    acc: Table<(Text, usize)>,
    enums: Table<TEnum>,
    i: int,
)
    requires
        0 <= i <= enums.len(),
        name_map::sorted(acc),
        agrees(acc, t),
        forall|p: int|
            0 <= p < enums.len() ==> all_known(
                t,
                #[trigger] enums[p],
                enums[p].1.variants.len() as int,
            ),
        forall|p: int|
            0 <= p < i ==> all_known(acc, #[trigger] enums[p], enums[p].1.variants.len() as int),
    ensures
        ({
            let r = program::variants_from(acc, enums, i);
            &&& name_map::sorted(r)
            &&& agrees(r, t)
            &&& forall|p: int|
                0 <= p < enums.len() ==> all_known(
                    r,
                    #[trigger] enums[p],
                    enums[p].1.variants.len() as int,
                )
        }),
    decreases enums.len() - i,
{
    if i < enums.len() {
        let next = program::plain_variants(acc, enums[i].0, enums[i].1.variants, 0);
        lemma_plain_variants(t, acc, enums[i], 0);
        assert forall|p: int| 0 <= p < i + 1 implies all_known(
            next,
            #[trigger] enums[p],
            enums[p].1.variants.len() as int,
        ) by {
            if p < i {
                let e = enums[p];
                assert forall|k: int| 0 <= k < e.1.variants.len() implies known(
                    next,
                    e.0,
                    (#[trigger] e.1.variants[k]).name,
                    k,
                ) by {
                    lemma_grown(acc, next, e.0, e.1.variants[k].name, k);
                }
            }
        }
        lemma_variants_from(t, next, enums, i + 1);
    }
}

// ---- signatures ---------------------------------------------------------

proof fn lemma_signatures(acc: Table<TSig>, funcs: Table<TFunc>, i: int)
    requires
        0 <= i <= funcs.len(),
        name_map::sorted(acc),
        name_map::sorted(funcs),
    ensures
        name_map::sorted(program::signatures(acc, funcs, i)),
        forall|n: Text| #[trigger]
            name_map::find(program::signatures(acc, funcs, i), n) == match name_map::find_from(
                funcs,
                n,
                i,
            ) {
                Some(f) => Some(f.sig()),
                None => name_map::find(acc, n),
            },
    decreases funcs.len() - i,
{
    if i < funcs.len() {
        let k = funcs[i].0;
        let s = funcs[i].1.sig();
        let next = name_map::put(acc, k, s);
        name_map::law_put_keeps_sorted(acc, k, s);
        lemma_signatures(next, funcs, i + 1);
        assert forall|n: Text| #[trigger]
            name_map::find(program::signatures(acc, funcs, i), n) == match name_map::find_from(
                funcs,
                n,
                i,
            ) {
                Some(f) => Some(f.sig()),
                None => name_map::find(acc, n),
            } by {
            name_map::law_put_then_find(acc, k, s, n);
            if n == k && name_map::find_from(funcs, n, i + 1) is Some {
                name_map::lemma_find_some(funcs, n, i + 1);
                let p = choose|p: int| i + 1 <= p < funcs.len() && #[trigger] funcs[p].0 == n;
                assert(text::text_less(funcs[i].0, funcs[p].0));
                text::lemma_text_less_irreflexive(n, 0);
            }
        }
    }
}

// ---- the law ------------------------------------------------------------

/// The variants of a self-contained program are those of the enums of its module.
proof fn lemma_same_variants(its: Seq<Placed>, enums: Table<TEnum>)
    requires
        self_contained(its),
        ordering::filled(its).diags.len() == 0,
        enums == ordering::filled(its).defs.enums,
    ensures
        program::variants_from(Seq::empty(), enums, 0) == ordering::filled(its).defs.variants,
{
    let d = program::declare_all(ordering::nothing(), its, 0).defs;
    let r = ordering::filled(its).defs;
    ordering::lemma_filled(its);
    assert forall|q: int| 0 <= q < enums.len() implies all_known(
        r.variants,
        #[trigger] enums[q],
        enums[q].1.variants.len() as int,
    ) by {
        let (n, x) = enums[q];
        name_map::lemma_find_sorted(enums, q);
        assert(name_map::find(d.enums, n) is Some);
        let j = choose|j: int| 0 <= j < its.len() && catalogue::is_enum(#[trigger] its[j], n);
        let e = its[j].1->Enum_0;
        assert(its[j].1 == AItem::Enum(e));
        assert(catalogue::entered(r, d, its[j]));
        assert forall|k: int| 0 <= k < x.variants.len() implies known(
            r.variants,
            n,
            (#[trigger] x.variants[k]).name,
            k,
        ) by {
            assert(x.variants[k].name == e.variants[k].name);
            assert(catalogue::known(r.variants, its[j], k));
        }
    }
    let t = program::variants_from(Seq::empty(), enums, 0);
    lemma_variants_from(r.variants, Seq::empty(), enums, 0);
    assert forall|key: Text| #[trigger] name_map::find(t, key) == name_map::find(
        r.variants,
        key,
    ) by {
        if name_map::find(r.variants, key) is Some {
            let (a, k) = choose|a: int, k: int| #[trigger]
                catalogue::place(its, a, k) && catalogue::before(a, k, its.len() as int, 0) && key
                    == catalogue::own_key(its[a], k);
            assert(catalogue::place(its, a, k));
            assert(catalogue::entered(r, d, its[a]));
            let e = its[a].1->Enum_0;
            assert(its[a].1 == AItem::Enum(e));
            name_map::lemma_find_some(enums, e.name, 0);
            let q = choose|q: int|
                0 <= q < enums.len() && #[trigger] enums[q].0 == e.name && name_map::find(
                    enums,
                    e.name,
                ) == Some(enums[q].1);
            assert(all_known(t, enums[q], enums[q].1.variants.len() as int));
            assert(enums[q].1.variants[k].name == e.variants[k].name);
            assert(known(t, e.name, e.variants[k].name, k));
            assert(name_map::find(t, key) is Some);
        }
    }
    name_map::lemma_tables_equal(t, r.variants);
}

/// The definitions that a self-contained program makes are those of its module.
proof fn lemma_same_defs(p: AProgram, m: TModule)
    requires
        program::check_program(p) == Ok::<TModule, Seq<Diag>>(m),
        self_contained(ordering::items_of(p)),
    ensures
        program::defs_of(m.structs, m.enums, m.funcs) == (Defs {
            consts: Seq::empty(),
            ..safety::program_defs(p)
        }),
        safety::program_defs(p).imports.len() == 0,
{
    let its = ordering::items_of(p);
    let g1 = program::declare_all(ordering::nothing(), its, 0);
    let g2 = program::lengthen(ordering::filled(its));
    let d = safety::program_defs(p);
    safety::lemma_declare_all(ordering::nothing(), its, 0);
    safety::lemma_fill_all(g1, its, 0);
    safety::lemma_announce_all(g2, its, 0);
    catalogue::lemma_declare_all(ordering::nothing(), its, 0);
    assert forall|u: AImport| #[trigger]
        catalogue::imports_hold(g1.defs.imports, u) <==> catalogue::imports_hold(
            Seq::empty(),
            u,
        ) by {
        if catalogue::imports_hold(g1.defs.imports, u) {
            let j = choose|j: int| 0 <= j < its.len() && catalogue::is_import(#[trigger] its[j], u);
            assert(its[j].1 is Use);
        }
    }
    catalogue::lemma_imports_equal(g1.defs.imports, Seq::empty());
    ordering::lemma_consts_known(d, its);
    ordering::lemma_known_same(d, g2.defs, its);
    ordering::lemma_announce_clean(g2, its, 0);
    safety::lemma_describes(p, m);
    safety::law_checked_modules_are_well_formed(p, m);
    ordering::lemma_filled(its);
    lemma_same_variants(its, m.enums);
    assert(d.imports == Seq::<(Text, AImport)>::empty());
    let s = program::signatures(Seq::empty(), m.funcs, 0);
    lemma_signatures(Seq::empty(), m.funcs, 0);
    assert forall|n: Text| #[trigger] name_map::find(s, n) == name_map::find(d.funcs, n) by {}
    name_map::lemma_tables_equal(s, d.funcs);
}

/// A function at the root of an accepted program is one of its module.
proof fn lemma_in_module(p: AProgram, m: TModule, f: AFunc)
    requires
        program::check_program(p) == Ok::<TModule, Seq<Diag>>(m),
        ordering::items_of(p).contains((Seq::empty(), AItem::Func(f))),
    ensures
        name_map::find(m.funcs, f.name) matches Some(x) && program::check_func(
            safety::program_defs(p),
            Seq::empty(),
            f,
        ) == Ok::<TFunc, Diag>(x),
{
    let its = ordering::items_of(p);
    let g1 = program::declare_all(ordering::nothing(), its, 0);
    let g2 = program::lengthen(ordering::filled(its));
    let d = safety::program_defs(p);
    safety::lemma_declare_all(ordering::nothing(), its, 0);
    safety::lemma_fill_all(g1, its, 0);
    safety::lemma_announce_all(g2, its, 0);
    ordering::lemma_consts_known(d, its);
    ordering::lemma_known_same(d, g2.defs, its);
    ordering::lemma_announce_clean(g2, its, 0);
    ordering::lemma_build_clean(d, ordering::no_bodies(), its, 0);
    ordering::lemma_build_all(d, ordering::no_bodies(), its, 0);
    let j = choose|j: int|
        0 <= j < its.len() && its[j] == (Seq::<char>::empty(), AItem::Func(f));
    assert(ordering::stands(d, program::build_all(d, ordering::no_bodies(), its, 0), its[j]));
}

/// Checking a function at the root of an accepted program on its own, against the types
/// and functions of the module that the program stands for, gives the function of that
/// module. This is of functions that name no constant, and of programs without imports:
/// what is checked on its own sees neither.
pub proof fn law_functions_check_alone(p: AProgram, m: TModule, f: AFunc)
    requires
        program::check_program(p) == Ok::<TModule, Seq<Diag>>(m),
        self_contained(ordering::items_of(p)),
        ordering::items_of(p).contains((Seq::empty(), AItem::Func(f))),
        silent::block_silent(m.consts, f.body),
    ensures
        name_map::find(m.funcs, f.name) matches Some(x) && program::check_func(
            program::defs_of(m.structs, m.enums, m.funcs),
            Seq::empty(),
            f,
        ) == Ok::<TFunc, Diag>(x),
{
    lemma_same_defs(p, m);
    lemma_in_module(p, m, f);
    safety::lemma_describes(p, m);
    silent::lemma_func(m.consts, safety::program_defs(p), f);
}

/// Whether a program holds functions, structs and enums only.
pub open spec fn definitions_only(items: Seq<AItem>) -> bool {
    forall|i: int|
        0 <= i < items.len() ==> (#[trigger] items[i]) is Func || items[i] is Struct || items[i]
            is Enum
}

proof fn lemma_flat(items: Seq<AItem>, i: int)
    requires
        definitions_only(items),
        0 <= i <= items.len(),
    ensures
        program::flatten(Seq::empty(), items, i).len() == items.len() - i,
        forall|j: int|
            i <= j < items.len() ==> program::flatten(Seq::empty(), items, i)[j - i] == (
                Seq::<char>::empty(),
                #[trigger] items[j],
            ),
    decreases items.len() - i,
{
    if i < items.len() {
        lemma_flat(items, i + 1);
        let rest = program::flatten(Seq::empty(), items, i + 1);
        let own: Seq<Placed> = seq![(Seq::empty(), items[i])];
        assert(program::flatten(Seq::empty(), items, i) == own + rest);
        assert forall|j: int| i <= j < items.len() implies (own + rest)[j - i] == (
            Seq::<char>::empty(),
            #[trigger] items[j],
        ) by {
            if j > i {
                assert((own + rest)[j - i] == rest[j - (i + 1)]);
            }
        }
    }
}

/// Every function of an accepted program of functions, structs and enums gives, checked
/// on its own, the function of the module.
pub proof fn law_definitions_check_alone(p: AProgram, m: TModule, f: AFunc)
    requires
        program::check_program(p) == Ok::<TModule, Seq<Diag>>(m),
        definitions_only(p.items),
        p.items.contains(AItem::Func(f)),
    ensures
        name_map::find(m.funcs, f.name) matches Some(x) && program::check_func(
            program::defs_of(m.structs, m.enums, m.funcs),
            Seq::empty(),
            f,
        ) == Ok::<TFunc, Diag>(x),
{
    let its = ordering::items_of(p);
    let d = safety::program_defs(p);
    lemma_flat(p.items, 0);
    assert forall|j: int| 0 <= j < its.len() implies (#[trigger] its[j]) == (
        Seq::<char>::empty(),
        p.items[j],
    ) by {
        assert(its[j - 0] == (Seq::<char>::empty(), p.items[j]));
    }
    let i = choose|i: int| 0 <= i < p.items.len() && p.items[i] == AItem::Func(f);
    assert(its[i] == (Seq::<char>::empty(), AItem::Func(f)));
    lemma_same_defs(p, m);
    lemma_in_module(p, m, f);
    safety::lemma_declare_all(ordering::nothing(), its, 0);
    safety::lemma_fill_all(program::declare_all(ordering::nothing(), its, 0), its, 0);
    safety::lemma_announce_all(program::lengthen(ordering::filled(its)), its, 0);
    assert forall|n: Text| #[trigger] name_map::find(d.consts, n) == name_map::find(
        Seq::<(Text, TType)>::empty(),
        n,
    ) by {
        if name_map::find(d.consts, n) is Some {
            let j = choose|j: int| 0 <= j < its.len() && safety::is_const(#[trigger] its[j], n);
            assert(its[j].1 is Const);
        }
    }
    name_map::lemma_tables_equal(d.consts, Seq::<(Text, TType)>::empty());
}

} // verus!
