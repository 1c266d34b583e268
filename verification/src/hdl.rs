//! # HDL-subset analysis
//!
//! A read-only classification of every function of a module: whether it belongs
//! to the *synthesizable subset*, the fragment of the language that can be lowered
//! to hardware.
//!
//! A function qualifies iff all of the following hold:
//!
//! 1. Hardware-typed signature: every parameter type and the return type is
//!    `bool`, `bit<N>`, or an array, tuple, struct or enum made only of such types.
//! 2. Pure: the body contains no `print`.
//! 3. Bounded loops only: the body contains no `while`.
//! 4. Non-recursive: the function is on no cycle of the call graph.
//! 5. Every function that it calls is itself synthesizable.
//!
//! All failure reasons are collected for each function.

use crate::graph::{self, lies_on_cycle, prune};
use crate::ir::{self, Block, EnumDef, Field, Func, Module, Param, StructDef, TBlock, TField, TFunc, TModule, TParam, TType, TVariant, Type, Variant};
use crate::model;
use crate::name_map::{self, Table};
use crate::scan::{self, scan_block, Seek, Sought};
use crate::text::{self, cat3, cat5, join, Text};
use vstd::prelude::*;

verus! {

broadcast use {ir::group_model, ir::group_built, text::group_texts, model::group_views};

// ---- hardware types -----------------------------------------------------

/// Whether `t` is made of `bool`, `bit<N>` and the named types of `s` only.
pub open spec fn made_of(t: TType, s: Set<TType>) -> bool
    decreases t, 0int,
{
    match t {
        TType::Bool => true,
        TType::Bit(_) => true,
        TType::Int(_) => false,
        TType::Unit => false,
        TType::Array(elem, _) => made_of(*elem, s),
        TType::Struct(_) => s.contains(t),
        TType::Enum(_) => s.contains(t),
        TType::Tuple(ts) => all_made_of(ts, s, 0),
    }
}

/// Whether the types from position `i` on are made of the named types of `s`.
pub open spec fn all_made_of(ts: Seq<TType>, s: Set<TType>, i: int) -> bool
    decreases ts, ts.len() - i,
{
    if i < 0 || i >= ts.len() {
        true
    } else {
        made_of(ts[i], s) && all_made_of(ts, s, i + 1)
    }
}

pub open spec fn fields_made_of(fs: Seq<TField>, s: Set<TType>) -> bool {
    forall|i: int| 0 <= i < fs.len() ==> made_of((#[trigger] fs[i]).ty, s)
}

pub open spec fn variants_made_of(vs: Seq<TVariant>, s: Set<TType>) -> bool {
    forall|i: int| 0 <= i < vs.len() ==> all_made_of((#[trigger] vs[i]).fields, s, 0)
}

/// Whether the definition of the named type `t` is made of the named types of `s`.
pub open spec fn defined_over(m: TModule, t: TType, s: Set<TType>) -> bool {
    match t {
        TType::Struct(n) => match name_map::find(m.structs, n) {
            Some(d) => fields_made_of(d.fields, s),
            None => false,
        },
        TType::Enum(n) => match name_map::find(m.enums, n) {
            Some(d) => variants_made_of(d.variants, s),
            None => false,
        },
        _ => false,
    }
}

/// Whether the named types of `s` are defined over one another and hardware.
pub open spec fn hardware_set(m: TModule, s: Set<TType>) -> bool {
    forall|t: TType| #[trigger] s.contains(t) ==> defined_over(m, t, s)
}

/// Whether `t` is a hardware type. Types may be defined over one another in a
/// circle.
pub open spec fn hardware(m: TModule, t: TType) -> bool {
    exists|s: Set<TType>| #[trigger] hardware_set(m, s) && made_of(t, s)
}

// ---- functions ----------------------------------------------------------

/// The functions from position `j` on that are called in the block.
pub open spec fn called_from(m: TModule, b: TBlock, j: int) -> Seq<usize>
    decreases m.funcs.len() - j,
{
    if j < 0 || j >= m.funcs.len() {
        Seq::empty()
    } else if scan::block_has(b, Sought::Call(m.funcs[j].0)) {
        seq![j as usize] + called_from(m, b, j + 1)
    } else {
        called_from(m, b, j + 1)
    }
}

/// The call graph: for each function the positions of those that it calls.
pub open spec fn call_graph(m: TModule) -> Seq<Seq<usize>> {
    Seq::new(m.funcs.len(), |i: int| called_from(m, m.funcs[i].1.body, 0))
}

/// The reasons that the parameters from position `i` on give.
pub open spec fn param_reasons(m: TModule, ps: Seq<TParam>, i: int, acc: Seq<Text>) -> Seq<Text>
    decreases ps.len() - i,
{
    if i < 0 || i >= ps.len() {
        acc
    } else if hardware(m, ps[i].ty) {
        param_reasons(m, ps, i + 1, acc)
    } else {
        param_reasons(
            m,
            ps,
            i + 1,
            acc.push(
                "parameter `"@ + ps[i].name + "` has type `"@ + ps[i].ty.show()
                    + "`, which contains non-hardware (machine-integer) types"@,
            ),
        )
    }
}

pub open spec fn push_if(acc: Seq<Text>, c: bool, t: Text) -> Seq<Text> {
    if c {
        acc.push(t)
    } else {
        acc
    }
}

/// The reasons that a function gives on its own.
pub open spec fn local_reasons(m: TModule, f: TFunc) -> Seq<Text> {
    let a = param_reasons(m, f.params, 0, Seq::empty());
    let b = push_if(
        a,
        !hardware(m, f.ret),
        "returns non-hardware type `"@ + f.ret.show() + "`"@,
    );
    let c = push_if(
        b,
        scan::block_has(f.body, Sought::Print),
        "uses `print` (not a pure function)"@,
    );
    push_if(
        c,
        scan::block_has(f.body, Sought::While),
        "contains a `while` loop (unbounded)"@,
    )
}

/// Whether the function at position `i` calls itself, over others or directly.
pub open spec fn recursive(m: TModule, i: int) -> bool {
    graph::on_cycle(call_graph(m), i)
}

/// For each function whether it meets the criteria that do not concern its callees.
pub open spec fn fine(m: TModule) -> Seq<bool> {
    Seq::new(
        m.funcs.len(),
        |i: int| local_reasons(m, m.funcs[i].1).len() == 0 && !recursive(m, i),
    )
}

/// Whether the function at position `i` is synthesizable: it, and everything that
/// it calls over any number of calls, meets the criteria.
pub open spec fn synthesizable(m: TModule, i: int) -> bool {
    graph::stays(call_graph(m), fine(m), i)
}

/// The reasons that the callees from position `j` of the list `cs` on give.
pub open spec fn callee_reasons(m: TModule, cs: Seq<usize>, j: int, acc: Seq<Text>) -> Seq<Text>
    decreases cs.len() - j,
{
    if j < 0 || j >= cs.len() {
        acc
    } else if synthesizable(m, cs[j] as int) {
        callee_reasons(m, cs, j + 1, acc)
    } else {
        callee_reasons(
            m,
            cs,
            j + 1,
            acc.push(
                "calls non-synthesizable function `"@ + m.funcs[cs[j] as int].0 + "`"@,
            ),
        )
    }
}

/// All reasons against the function at position `i`.
pub open spec fn reasons(m: TModule, i: int) -> Seq<Text> {
    callee_reasons(
        m,
        call_graph(m)[i],
        0,
        push_if(local_reasons(m, m.funcs[i].1), recursive(m, i), "is recursive"@),
    )
}

/// A [`FunctionReport`] as a mathematical object.
pub struct Report {
    pub name: Text,
    pub synthesizable: bool,
    pub reasons: Seq<Text>,
}

/// The report on the function at position `i`.
pub open spec fn report(m: TModule, i: int) -> Report {
    Report {
        name: m.funcs[i].0,
        synthesizable: synthesizable(m, i),
        reasons: if synthesizable(m, i) {
            Seq::empty()
        } else {
            reasons(m, i)
        },
    }
}

/// The reports on all functions, by name.
pub open spec fn reports(m: TModule) -> Seq<Report> {
    Seq::new(m.funcs.len(), |i: int| report(m, i))
}

pub open spec fn report_line(r: Report) -> Text {
    if r.synthesizable {
        "\u{2713} "@ + r.name + " \u{2014} synthesizable"@
    } else {
        "\u{2717} "@ + r.name + " \u{2014} not synthesizable: "@ + text::join_texts(
            r.reasons,
            "; "@,
        )
    }
}

/// One line for each report.
pub open spec fn report_text(rs: Seq<Report>) -> Text {
    text::join_texts(Seq::new(rs.len(), |i: int| report_line(rs[i])), "\n"@)
}

// ---- the analysis -------------------------------------------------------

/// The classification result for a single function.
#[derive(Clone, Debug, PartialEq)]
pub struct FunctionReport {
    pub name: String,
    pub synthesizable: bool,
    /// Human-readable failure reasons. Empty iff `synthesizable` is `true`.
    pub reasons: Vec<String>,
}

impl View for FunctionReport {
    type V = Report;

    open spec fn view(&self) -> Report {
        Report {
            name: self.name@,
            synthesizable: self.synthesizable,
            reasons: text::texts(self.reasons@),
        }
    }
}

/// The named types whose marks are set.
pub open spec fn types_marked(m: TModule, ss: Seq<bool>, es: Seq<bool>) -> Set<TType> {
    Set::new(
        |t: TType|
            match t {
                TType::Struct(n) => exists|i: int|
                    0 <= i < ss.len() && i < m.structs.len() && ss[i] && (#[trigger] m.structs[i]).0
                        == n,
                TType::Enum(n) => exists|i: int|
                    0 <= i < es.len() && i < m.enums.len() && es[i] && (#[trigger] m.enums[i]).0
                        == n,
                _ => false,
            },
    )
}

proof fn lemma_unique<T>(t: Table<T>, i: int, j: int)
    requires
        name_map::sorted(t),
        0 <= i < t.len(),
        0 <= j < t.len(),
        t[i].0 == t[j].0,
    ensures
        i == j,
{
    text::lemma_text_less_irreflexive(t[i].0, 0);
    if i < j {
        assert(text::text_less(t[i].0, t[j].0));
    } else if j < i {
        assert(text::text_less(t[j].0, t[i].0));
    }
}

/// Named types that may be hardware types, by position.
struct Marks {
    structs: Vec<bool>,
    enums: Vec<bool>,
}

impl Marks {
    spec fn set(&self, m: TModule) -> Set<TType> {
        types_marked(m, self.structs@, self.enums@)
    }

    spec fn fits(&self, m: TModule) -> bool {
        self.structs.len() == m.structs.len() && self.enums.len() == m.enums.len()
            && name_map::sorted(m.structs) && name_map::sorted(m.enums)
    }

    /// Whether `t` is made of marked types.
    fn made_of(&self, m: &Module, t: &Type) -> (b: bool)
        requires
            self.fits(m@),
        ensures
            b == made_of(t@, self.set(m@)),
        decreases t, 0int,
    {
        reveal(Type::model);
        match t {
            Type::Bool => true,
            Type::Bit(_) => true,
            Type::Int(_) => false,
            Type::Unit => false,
            Type::Array(elem, _) => self.made_of(m, elem),
            Type::Struct(n) => match m.structs.position(n.as_str()) {
                Some(i) => {
                    proof {
                        if self.set(m@).contains(t@) {
                            let j = choose|j: int|
                                0 <= j < self.structs.len() && j < m@.structs.len()
                                    && self.structs[j] && (#[trigger] m@.structs[j]).0 == n@;
                            lemma_unique(m@.structs, i as int, j);
                        }
                        assert(m@.structs[i as int].0 == n@);
                    }
                    self.structs[i]
                },
                None => false,
            },
            Type::Enum(n) => match m.enums.position(n.as_str()) {
                Some(i) => {
                    proof {
                        if self.set(m@).contains(t@) {
                            let j = choose|j: int|
                                0 <= j < self.enums.len() && j < m@.enums.len() && self.enums[j]
                                    && (#[trigger] m@.enums[j]).0 == n@;
                            lemma_unique(m@.enums, i as int, j);
                        }
                        assert(m@.enums[i as int].0 == n@);
                    }
                    self.enums[i]
                },
                None => false,
            },
            Type::Tuple(ts) => self.all_made_of(m, ts),
        }
    }

    fn all_made_of(&self, m: &Module, ts: &Vec<Type>) -> (b: bool)
        requires
            self.fits(m@),
        ensures
            b == all_made_of(ir::types_of(ts@), self.set(m@), 0),
        decreases ts, 1int,
    {
        let ghost ms = ir::types_of(ts@);
        let mut i: usize = 0;
        while i < ts.len()
            invariant
                self.fits(m@),
                i <= ts.len(),
                ms == ir::types_of(ts@),
                all_made_of(ms, self.set(m@), 0) == all_made_of(ms, self.set(m@), i as int),
            decreases ts.len() - i,
        {
            assert(ms[i as int] == ts[i as int]@);
            if !self.made_of(m, &ts[i]) {
                return false;
            }
            i += 1;
        }
        true
    }

    fn fields_made_of(&self, m: &Module, fs: &Vec<Field>) -> (b: bool)
        requires
            self.fits(m@),
        ensures
            b == fields_made_of(ir::fields_of(fs@), self.set(m@)),
    {
        let ghost ms = ir::fields_of(fs@);
        let mut i: usize = 0;
        while i < fs.len()
            invariant
                self.fits(m@),
                i <= fs.len(),
                ms == ir::fields_of(fs@),
                forall|j: int| 0 <= j < i ==> made_of((#[trigger] ms[j]).ty, self.set(m@)),
            decreases fs.len() - i,
        {
            assert(ms[i as int] == fs[i as int]@);
            assert(fs[i as int] == Field { name: fs[i as int].name, ty: fs[i as int].ty });
            if !self.made_of(m, &fs[i].ty) {
                return false;
            }
            i += 1;
        }
        true
    }

    fn variants_made_of(&self, m: &Module, vs: &Vec<Variant>) -> (b: bool)
        requires
            self.fits(m@),
        ensures
            b == variants_made_of(ir::variants_of(vs@), self.set(m@)),
    {
        let ghost ms = ir::variants_of(vs@);
        let mut i: usize = 0;
        while i < vs.len()
            invariant
                self.fits(m@),
                i <= vs.len(),
                ms == ir::variants_of(vs@),
                forall|j: int|
                    0 <= j < i ==> all_made_of((#[trigger] ms[j]).fields, self.set(m@), 0),
            decreases vs.len() - i,
        {
            assert(ms[i as int] == vs[i as int]@);
            assert(vs[i as int] == Variant {
                name: vs[i as int].name,
                fields: vs[i as int].fields,
            });
            if !self.all_made_of(m, &vs[i].fields) {
                return false;
            }
            i += 1;
        }
        true
    }
}

/// What is made of the named types of a smaller set is made of those of a larger.
pub proof fn lemma_made_of_more(t: TType, a: Set<TType>, b: Set<TType>)
    requires
        made_of(t, a),
        forall|x: TType| #[trigger] a.contains(x) ==> b.contains(x),
    ensures
        made_of(t, b),
    decreases t, 0int,
{
    match t {
        TType::Array(elem, _) => lemma_made_of_more(*elem, a, b),
        TType::Tuple(ts) => lemma_all_made_of_more(ts, a, b, 0),
        _ => {},
    }
}

pub proof fn lemma_all_made_of_more(ts: Seq<TType>, a: Set<TType>, b: Set<TType>, i: int)
    requires
        all_made_of(ts, a, i),
        forall|x: TType| #[trigger] a.contains(x) ==> b.contains(x),
    ensures
        all_made_of(ts, b, i),
    decreases ts, ts.len() - i,
{
    if 0 <= i < ts.len() {
        lemma_made_of_more(ts[i], a, b);
        lemma_all_made_of_more(ts, a, b, i + 1);
    }
}

pub proof fn lemma_defined_over_more(m: TModule, t: TType, a: Set<TType>, b: Set<TType>)
    requires
        defined_over(m, t, a),
        forall|x: TType| #[trigger] a.contains(x) ==> b.contains(x),
    ensures
        defined_over(m, t, b),
{
    match t {
        TType::Struct(n) => {
            let fs = name_map::find(m.structs, n)->Some_0.fields;
            assert forall|i: int| 0 <= i < fs.len() implies made_of((#[trigger] fs[i]).ty, b) by {
                lemma_made_of_more(fs[i].ty, a, b);
            }
        },
        TType::Enum(n) => {
            let vs = name_map::find(m.enums, n)->Some_0.variants;
            assert forall|i: int| 0 <= i < vs.len() implies all_made_of(
                (#[trigger] vs[i]).fields,
                b,
                0,
            ) by {
                lemma_all_made_of_more(vs[i].fields, a, b, 0);
            }
        },
        _ => {},
    }
}

/// Whether every hardware set is a part of the marked types.
spec fn covers(m: TModule, s: Set<TType>) -> bool {
    forall|h: Set<TType>, t: TType| #[trigger]
        hardware_set(m, h) && #[trigger] h.contains(t) ==> s.contains(t)
}

/// A hardware set keeps clear of a type that is not defined over a covering set.
proof fn lemma_uncover(m: TModule, s: Set<TType>, bad: TType, s1: Set<TType>)
    requires
        covers(m, s),
        !defined_over(m, bad, s),
        forall|t: TType| #[trigger] s.contains(t) && t != bad ==> s1.contains(t),
    ensures
        covers(m, s1),
{
    assert forall|h: Set<TType>, t: TType| #[trigger]
        hardware_set(m, h) && #[trigger] h.contains(t) implies s1.contains(t) by {
        assert(s.contains(t));
        if t == bad {
            assert(defined_over(m, bad, h));
            lemma_defined_over_more(m, bad, h, s);
        }
    }
}

/// The named types that are hardware types.
fn hardware_marks(m: &Module) -> (r: Marks)
    ensures
        r.fits(m@),
        hardware_set(m@, r.set(m@)),
        covers(m@, r.set(m@)),
{
    let ns = m.structs.len();
    let ne = m.enums.len();
    let mut k = Marks { structs: Vec::new(), enums: Vec::new() };
    let mut i: usize = 0;
    while i < ns
        invariant
            i <= ns,
            k.structs.len() == i,
            k.enums.len() == 0,
            forall|j: int| 0 <= j < i ==> #[trigger] k.structs[j],
        decreases ns - i,
    {
        k.structs.push(true);
        i += 1;
    }
    i = 0;
    while i < ne
        invariant
            i <= ne,
            k.structs.len() == ns,
            k.enums.len() == i,
            forall|j: int| 0 <= j < ns ==> #[trigger] k.structs[j],
            forall|j: int| 0 <= j < i ==> #[trigger] k.enums[j],
        decreases ne - i,
    {
        k.enums.push(true);
        i += 1;
    }
    assert(covers(m@, k.set(m@))) by {
        assert forall|h: Set<TType>, t: TType| #[trigger]
            hardware_set(m@, h) && #[trigger] h.contains(t) implies k.set(m@).contains(t) by {
            assert(defined_over(m@, t, h));
            match t {
                TType::Struct(n) => {
                    name_map::lemma_find_some(m@.structs, n, 0);
                },
                TType::Enum(n) => {
                    name_map::lemma_find_some(m@.enums, n, 0);
                },
                _ => {},
            }
        }
    }
    let mut changed = true;
    while changed
        invariant
            ns == m@.structs.len(),
            ne == m@.enums.len(),
            k.fits(m@),
            covers(m@, k.set(m@)),
            !changed ==> hardware_set(m@, k.set(m@)),
        decreases
                graph::count(k.structs@) + graph::count(k.enums@),
                (if changed {
                    1int
                } else {
                    0int
                }),
    {
        changed = false;
        let ghost c0 = graph::count(k.structs@) + graph::count(k.enums@);
        let mut i: usize = 0;
        while i < ns
            invariant
                ns == m@.structs.len(),
                ne == m@.enums.len(),
                i <= ns,
                k.fits(m@),
                covers(m@, k.set(m@)),
                !changed ==> forall|j: int|
                    0 <= j < i && k.structs[j] ==> defined_over(
                        m@,
                        TType::Struct((#[trigger] m@.structs[j]).0),
                        k.set(m@),
                    ),
                !changed ==> graph::count(k.structs@) + graph::count(k.enums@) == c0,
                changed ==> graph::count(k.structs@) + graph::count(k.enums@) < c0,
            decreases ns - i,
        {
            let (name, d) = m.structs.at(i);
            proof {
                name_map::lemma_find_sorted(m@.structs, i as int);
                assert(*d == StructDef { name: d.name, fields: d.fields });
            }
            if k.structs[i] && !k.fields_made_of(m, &d.fields) {
                let ghost s0 = k.set(m@);
                let ghost k0 = k;
                proof {
                    graph::lemma_count_update(k.structs@, i as int, false);
                }
                k.structs.set(i, false);
                changed = true;
                proof {
                    let bad = TType::Struct(name@);
                    assert forall|t: TType| #[trigger] s0.contains(t) && t != bad implies k.set(
                        m@,
                    ).contains(t) by {
                        match t {
                            TType::Struct(n) => {
                                let j = choose|j: int|
                                    0 <= j < k0.structs.len() && j < m@.structs.len()
                                        && k0.structs[j] && (#[trigger] m@.structs[j]).0 == n;
                                assert(k.structs[j] && m@.structs[j].0 == n);
                            },
                            TType::Enum(n) => {
                                let j = choose|j: int|
                                    0 <= j < k0.enums.len() && j < m@.enums.len() && k0.enums[j]
                                        && (#[trigger] m@.enums[j]).0 == n;
                                assert(k.enums[j] && m@.enums[j].0 == n);
                            },
                            _ => {},
                        }
                    }
                    lemma_uncover(m@, s0, bad, k.set(m@));
                }
            }
            i += 1;
        }
        let ghost mid = k.set(m@);
        i = 0;
        while i < ne
            invariant
                ns == m@.structs.len(),
                ne == m@.enums.len(),
                i <= ne,
                k.fits(m@),
                covers(m@, k.set(m@)),
                !changed ==> k.set(m@) == mid,
                !changed ==> forall|j: int|
                    0 <= j < ns && k.structs[j] ==> defined_over(
                        m@,
                        TType::Struct((#[trigger] m@.structs[j]).0),
                        k.set(m@),
                    ),
                !changed ==> forall|j: int|
                    0 <= j < i && k.enums[j] ==> defined_over(
                        m@,
                        TType::Enum((#[trigger] m@.enums[j]).0),
                        k.set(m@),
                    ),
                !changed ==> graph::count(k.structs@) + graph::count(k.enums@) == c0,
                changed ==> graph::count(k.structs@) + graph::count(k.enums@) < c0,
            decreases ne - i,
        {
            let (name, d) = m.enums.at(i);
            proof {
                name_map::lemma_find_sorted(m@.enums, i as int);
                assert(*d == EnumDef { name: d.name, variants: d.variants });
            }
            if k.enums[i] && !k.variants_made_of(m, &d.variants) {
                let ghost s0 = k.set(m@);
                let ghost k0 = k;
                proof {
                    graph::lemma_count_update(k.enums@, i as int, false);
                }
                k.enums.set(i, false);
                changed = true;
                proof {
                    let bad = TType::Enum(name@);
                    assert forall|t: TType| #[trigger] s0.contains(t) && t != bad implies k.set(
                        m@,
                    ).contains(t) by {
                        match t {
                            TType::Struct(n) => {
                                let j = choose|j: int|
                                    0 <= j < k0.structs.len() && j < m@.structs.len()
                                        && k0.structs[j] && (#[trigger] m@.structs[j]).0 == n;
                                assert(k.structs[j] && m@.structs[j].0 == n);
                            },
                            TType::Enum(n) => {
                                let j = choose|j: int|
                                    0 <= j < k0.enums.len() && j < m@.enums.len() && k0.enums[j]
                                        && (#[trigger] m@.enums[j]).0 == n;
                                assert(k.enums[j] && m@.enums[j].0 == n);
                            },
                            _ => {},
                        }
                    }
                    lemma_uncover(m@, s0, bad, k.set(m@));
                }
            }
            i += 1;
        }
    }
    k
}

/// Whether `t` is a hardware type.
fn is_hardware_type(m: &Module, k: &Marks, t: &Type) -> (b: bool)
    requires
        k.fits(m@),
        hardware_set(m@, k.set(m@)),
        covers(m@, k.set(m@)),
    ensures
        b == hardware(m@, t@),
{
    let b = k.made_of(m, t);
    proof {
        if hardware(m@, t@) {
            let s = choose|s: Set<TType>| #[trigger] hardware_set(m@, s) && made_of(t@, s);
            lemma_made_of_more(t@, s, k.set(m@));
        }
    }
    b
}

/// The reasons that a function gives on its own.
fn local_failure_reasons(m: &Module, k: &Marks, f: &Func) -> (r: Vec<String>)
    requires
        k.fits(m@),
        hardware_set(m@, k.set(m@)),
        covers(m@, k.set(m@)),
    ensures
        text::texts(r@) == local_reasons(m@, f@),
{
    proof {
        assert(*f == Func { name: f.name, params: f.params, ret: f.ret, body: f.body });
    }
    let ghost ps = ir::params_of(f.params@);
    let mut out: Vec<String> = Vec::new();
    assert(text::texts(out@) =~= Seq::<Text>::empty());
    let mut i: usize = 0;
    while i < f.params.len()
        invariant
            k.fits(m@),
            hardware_set(m@, k.set(m@)),
            covers(m@, k.set(m@)),
            i <= f.params.len(),
            ps == ir::params_of(f.params@),
            param_reasons(m@, ps, 0, Seq::empty()) == param_reasons(
                m@,
                ps,
                i as int,
                text::texts(out@),
            ),
        decreases f.params.len() - i,
    {
        let p = &f.params[i];
        assert(ps[i as int] == p@);
        assert(*p == Param { name: p.name, ty: p.ty });
        if !is_hardware_type(m, k, &p.ty) {
            let t = p.ty.to_text();
            out.push(
                cat5(
                    "parameter `",
                    p.name.as_str(),
                    "` has type `",
                    t.as_str(),
                    "`, which contains non-hardware (machine-integer) types",
                ),
            );
        }
        i += 1;
    }
    if !is_hardware_type(m, k, &f.ret) {
        let t = f.ret.to_text();
        out.push(cat3("returns non-hardware type `", t.as_str(), "`"));
    }
    if scan_block(&f.body, &Seek::Print) {
        out.push("uses `print` (not a pure function)".to_string());
    }
    if scan_block(&f.body, &Seek::While) {
        out.push("contains a `while` loop (unbounded)".to_string());
    }
    out
}

/// The positions of the functions that are called in the block.
pub(crate) fn callees(m: &Module, b: &Block) -> (r: Vec<usize>)
    ensures
        r@ == called_from(m@, b@, 0),
{
    let n = m.funcs.len();
    let mut out: Vec<usize> = Vec::new();
    let mut j: usize = 0;
    assert(out@ + called_from(m@, b@, 0) =~= called_from(m@, b@, 0));
    while j < n
        invariant
            n == m@.funcs.len(),
            j <= n,
            called_from(m@, b@, 0) == out@ + called_from(m@, b@, j as int),
        decreases n - j,
    {
        let (name, _) = m.funcs.at(j);
        let ghost before = out@;
        if scan_block(b, &Seek::Call(name.as_str())) {
            out.push(j);
            assert(before + (seq![j] + called_from(m@, b@, j as int + 1)) =~= out@ + called_from(
                m@,
                b@,
                j as int + 1,
            ));
        }
        j += 1;
    }
    assert(out@ + Seq::<usize>::empty() =~= out@);
    out
}

pub proof fn lemma_called_bound(m: TModule, b: TBlock, j: int, k: int)
    requires
        0 <= j,
        m.funcs.len() <= usize::MAX,
        0 <= k < called_from(m, b, j).len(),
    ensures
        j <= called_from(m, b, j)[k] < m.funcs.len(),
        scan::block_has(b, Sought::Call(m.funcs[called_from(m, b, j)[k] as int].0)),
    decreases m.funcs.len() - j,
{
    if j < m.funcs.len() {
        if scan::block_has(b, Sought::Call(m.funcs[j].0)) {
            if k > 0 {
                lemma_called_bound(m, b, j + 1, k - 1);
            }
        } else {
            lemma_called_bound(m, b, j + 1, k);
        }
    }
}

/// Every called function of the module is in the list.
pub proof fn lemma_called_all(m: TModule, b: TBlock, j: int, f: int)
    requires
        0 <= j <= f < m.funcs.len() <= usize::MAX,
        scan::block_has(b, Sought::Call(m.funcs[f].0)),
    ensures
        exists|k: int|
            0 <= k < called_from(m, b, j).len() && #[trigger] called_from(m, b, j)[k] == f,
    decreases m.funcs.len() - j,
{
    let c = called_from(m, b, j);
    if j == f {
        assert(c[0] == f);
    } else {
        lemma_called_all(m, b, j + 1, f);
        let d = called_from(m, b, j + 1);
        let k = choose|k: int| 0 <= k < d.len() && #[trigger] d[k] == f;
        if scan::block_has(b, Sought::Call(m.funcs[j].0)) {
            assert(c[k + 1] == d[k]);
        } else {
            assert(c[k] == d[k]);
        }
    }
}

pub proof fn lemma_call_graph_closed(m: TModule)
    requires
        m.funcs.len() <= usize::MAX,
    ensures
        graph::closed(call_graph(m)),
{
    let g = call_graph(m);
    assert forall|i: int, j: int| 0 <= i < g.len() && 0 <= j < g[i].len() implies #[trigger] g[i][j]
        < g.len() by {
        lemma_called_bound(m, m.funcs[i].1.body, 0, j);
    }
}

/// What the analysis finds of every function, by position.
struct Findings {
    adj: Vec<Vec<usize>>,
    local: Vec<Vec<String>>,
    cyclic: Vec<bool>,
    kept: Vec<bool>,
}

impl Findings {
    spec fn right(&self, m: TModule) -> bool {
        let n = m.funcs.len();
        &&& graph::edges(self.adj@) == call_graph(m)
        &&& self.adj.len() == n
        &&& self.local.len() == n
        &&& self.cyclic.len() == n
        &&& self.kept.len() == n
        &&& forall|i: int|
            0 <= i < n ==> text::texts(#[trigger] self.local[i]@) == local_reasons(
                m,
                m.funcs[i].1,
            )
        &&& forall|i: int| 0 <= i < n ==> #[trigger] self.cyclic[i] == recursive(m, i)
        &&& forall|i: int| 0 <= i < n ==> #[trigger] self.kept[i] == synthesizable(m, i)
    }
}

fn find(m: &Module) -> (r: Findings)
    ensures
        r.right(m@),
{
    let n = m.funcs.len();
    let k = hardware_marks(m);
    let mut adj: Vec<Vec<usize>> = Vec::new();
    let mut local: Vec<Vec<String>> = Vec::new();
    let mut i: usize = 0;
    while i < n
        invariant
            n == m@.funcs.len(),
            k.fits(m@),
            hardware_set(m@, k.set(m@)),
            covers(m@, k.set(m@)),
            i <= n,
            adj.len() == i,
            local.len() == i,
            forall|j: int| 0 <= j < i ==> #[trigger] adj[j]@ == call_graph(m@)[j],
            forall|j: int|
                0 <= j < i ==> text::texts(#[trigger] local[j]@) == local_reasons(
                    m@,
                    m@.funcs[j].1,
                ),
        decreases n - i,
    {
        let (_, f) = m.funcs.at(i);
        assert(*f == Func { name: f.name, params: f.params, ret: f.ret, body: f.body });
        adj.push(callees(m, &f.body));
        local.push(local_failure_reasons(m, &k, f));
        i += 1;
    }
    assert(graph::edges(adj@) =~= call_graph(m@));
    proof {
        lemma_call_graph_closed(m@);
    }
    let mut cyclic: Vec<bool> = Vec::new();
    let mut good: Vec<bool> = Vec::new();
    i = 0;
    while i < n
        invariant
            n == m@.funcs.len(),
            i <= n,
            adj.len() == n,
            local.len() == n,
            graph::edges(adj@) == call_graph(m@),
            graph::closed(graph::edges(adj@)),
            cyclic.len() == i,
            good.len() == i,
            forall|j: int|
                0 <= j < n ==> text::texts(#[trigger] local[j]@) == local_reasons(
                    m@,
                    m@.funcs[j].1,
                ),
            forall|j: int| 0 <= j < i ==> #[trigger] cyclic[j] == recursive(m@, j),
            forall|j: int| 0 <= j < i ==> #[trigger] good[j] == fine(m@)[j],
        decreases n - i,
    {
        let c = lies_on_cycle(&adj, i);
        cyclic.push(c);
        assert(text::texts(local[i as int]@).len() == local[i as int].len());
        good.push(local[i].len() == 0 && !c);
        i += 1;
    }
    assert(good@ =~= fine(m@));
    let kept = prune(&adj, &good);
    Findings { adj, local, cyclic, kept }
}

fn all_reasons(m: &Module, f: &Findings, i: usize) -> (r: Vec<String>)
    requires
        f.right(m@),
        i < m@.funcs.len(),
        m@.funcs.len() <= usize::MAX,
    ensures
        text::texts(r@) == reasons(m@, i as int),
{
    let ghost cs = call_graph(m@)[i as int];
    let mut out = text::copy_texts(&f.local[i]);
    if f.cyclic[i] {
        out.push("is recursive".to_string());
    }
    assert(cs == f.adj[i as int]@) by {
        assert(graph::edges(f.adj@)[i as int] == f.adj[i as int]@);
    }
    let ghost start = text::texts(out@);
    let mut j: usize = 0;
    while j < f.adj[i].len()
        invariant
            f.right(m@),
            i < m@.funcs.len() <= usize::MAX,
            cs == f.adj[i as int]@,
            cs == call_graph(m@)[i as int],
            j <= f.adj[i as int].len(),
            callee_reasons(m@, cs, 0, start) == callee_reasons(
                m@,
                cs,
                j as int,
                text::texts(out@),
            ),
        decreases f.adj[i as int].len() - j,
    {
        let c = f.adj[i][j];
        proof {
            lemma_called_bound(m@, m@.funcs[i as int].1.body, 0, j as int);
        }
        if !f.kept[c] {
            let (name, _) = m.funcs.at(c);
            out.push(cat3("calls non-synthesizable function `", name.as_str(), "`"));
        }
        j += 1;
    }
    out
}

/// Analyze every function in `module`, returning one [`FunctionReport`] per
/// function, sorted by function name.
pub fn analyze(module: &Module) -> (r: Vec<FunctionReport>)
    ensures
        model::views(r@) == reports(module@),
{
    let n = module.funcs.len();
    let f = find(module);
    let mut out: Vec<FunctionReport> = Vec::new();
    let mut i: usize = 0;
    while i < n
        invariant
            n == module@.funcs.len(),
            f.right(module@),
            i <= n,
            out.len() == i,
            forall|j: int| 0 <= j < i ==> #[trigger] out[j]@ == report(module@, j),
        decreases n - i,
    {
        let (name, _) = module.funcs.at(i);
        let synthesizable = f.kept[i];
        let why: Vec<String> = if synthesizable {
            Vec::new()
        } else {
            all_reasons(module, &f, i)
        };
        let r = FunctionReport { name: name.clone(), synthesizable, reasons: why };
        assert(synthesizable ==> text::texts(r.reasons@) =~= Seq::<Text>::empty());
        out.push(r);
        i += 1;
    }
    assert(model::views(out@) =~= reports(module@));
    out
}

/// Render a multi-line human-readable summary of the reports.
pub fn report_string(reports: &[FunctionReport]) -> (r: String)
    ensures
        r@ == report_text(model::views(reports@)),
{
    let mut lines: Vec<String> = Vec::new();
    let mut i: usize = 0;
    while i < reports.len()
        invariant
            i <= reports.len(),
            lines.len() == i,
            forall|j: int| 0 <= j < i ==> #[trigger] lines[j]@ == report_line(reports[j]@),
        decreases reports.len() - i,
    {
        let r = &reports[i];
        let line = if r.synthesizable {
            cat3("\u{2713} ", r.name.as_str(), " \u{2014} synthesizable")
        } else {
            let why = join(&r.reasons, "; ");
            text::cat4(
                "\u{2717} ",
                r.name.as_str(),
                " \u{2014} not synthesizable: ",
                why.as_str(),
            )
        };
        lines.push(line);
        i += 1;
    }
    let ghost rs = model::views(reports@);
    assert(text::texts(lines@) =~= Seq::new(rs.len(), |i: int| report_line(rs[i])));
    join(&lines, "\n")
}

// ---- laws ---------------------------------------------------------------

proof fn lemma_stays(g: Seq<Seq<usize>>, ok: Seq<bool>, i: int)
    requires
        0 <= i < g.len(),
        g.len() == ok.len(),
        ok[i],
        forall|b: int| #[trigger] graph::edge(g, i, b) ==> graph::stays(g, ok, b),
    ensures
        graph::stays(g, ok, i),
{
    let s = Set::new(|a: int| a == i || graph::stays(g, ok, a));
    assert(graph::sound(g, ok, s)) by {
        assert forall|a: int| #[trigger] s.contains(a) implies 0 <= a < g.len() && a < ok.len()
            && ok[a] && forall|b: int| #[trigger] graph::edge(g, a, b) ==> s.contains(b) by {
            if a != i {
                let t = choose|t: Set<int>| #[trigger] graph::sound(g, ok, t) && t.contains(a);
                assert forall|b: int| #[trigger] graph::edge(g, a, b) implies s.contains(b) by {
                    assert(t.contains(b));
                }
            }
        }
    }
    assert(s.contains(i));
}

/// A function is synthesizable exactly if it gives no reason on its own, is not
/// recursive, and calls synthesizable functions only.
pub proof fn law_synthesizable(m: TModule, i: int)
    requires
        0 <= i < m.funcs.len() <= usize::MAX,
    ensures
        synthesizable(m, i) <==> local_reasons(m, m.funcs[i].1).len() == 0 && !recursive(m, i) && (
        forall|b: int| #[trigger] graph::edge(call_graph(m), i, b) ==> synthesizable(m, b)),
{
    let g = call_graph(m);
    let ok = fine(m);
    if synthesizable(m, i) {
        let t = choose|t: Set<int>| #[trigger] graph::sound(g, ok, t) && t.contains(i);
        assert(ok[i]);
        assert forall|b: int| #[trigger] graph::edge(g, i, b) implies synthesizable(m, b) by {
            assert(t.contains(b));
        }
    } else if ok[i] {
        if forall|b: int| #[trigger] graph::edge(g, i, b) ==> synthesizable(m, b) {
            lemma_stays(g, ok, i);
        }
    }
}

proof fn lemma_callee_reasons_grow(m: TModule, cs: Seq<usize>, j: int, acc: Seq<Text>)
    requires
        0 <= j <= cs.len(),
    ensures
        callee_reasons(m, cs, j, acc).len() >= acc.len(),
        (exists|k: int| j <= k < cs.len() && !synthesizable(m, #[trigger] cs[k] as int))
            ==> callee_reasons(m, cs, j, acc).len() > acc.len(),
        (forall|k: int| j <= k < cs.len() ==> synthesizable(m, #[trigger] cs[k] as int))
            ==> callee_reasons(m, cs, j, acc) == acc,
    decreases cs.len() - j,
{
    if j < cs.len() {
        let one = "calls non-synthesizable function `"@ + m.funcs[cs[j] as int].0 + "`"@;
        if synthesizable(m, cs[j] as int) {
            lemma_callee_reasons_grow(m, cs, j + 1, acc);
        } else {
            lemma_callee_reasons_grow(m, cs, j + 1, acc.push(one));
        }
    }
}

/// There are no reasons against a function exactly if it is synthesizable.
pub proof fn law_reasons_empty_iff_synthesizable(m: TModule, i: int)
    requires
        0 <= i < m.funcs.len() <= usize::MAX,
    ensures
        reasons(m, i).len() == 0 <==> synthesizable(m, i),
        report(m, i).reasons.len() == 0 <==> report(m, i).synthesizable,
        report(m, i).reasons =~= reasons(m, i),
{
    let g = call_graph(m);
    let cs = g[i];
    let acc = push_if(local_reasons(m, m.funcs[i].1), recursive(m, i), "is recursive"@);
    law_synthesizable(m, i);
    lemma_callee_reasons_grow(m, cs, 0, acc);
    if synthesizable(m, i) {
        assert forall|k: int| 0 <= k < cs.len() implies synthesizable(m, #[trigger] cs[k] as int) by {
            assert(g[i][k] == cs[k]);
            assert(graph::edge(g, i, cs[k] as int));
        }
    } else if acc.len() == 0 {
        let b = choose|b: int| #[trigger] graph::edge(g, i, b) && !synthesizable(m, b);
        let k = choose|k: int| 0 <= k < g[i].len() && #[trigger] g[i][k] == b;
        assert(!synthesizable(m, cs[k] as int));
    }
}

} // verus!
