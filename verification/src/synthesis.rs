//! What can become hardware: types, functions, and what a function is searched for.

use crate::graph;
use crate::hdl;
use crate::ir::{IntTy, TBlock, TEnum, TExpr, TKind, TModule, TStmt, TStruct, TType};
use crate::lowering;
use crate::name_map;
use crate::rendering;
use crate::scan::{self, Sought};
use crate::text::{self, Text};
use crate::verilog;
use vstd::prelude::*;

verus! {

// ---- types --------------------------------------------------------------

/// All named types that are in a set of hardware types.
spec fn named(m: TModule) -> Set<TType> {
    Set::new(|t: TType| exists|h: Set<TType>| #[trigger] hdl::hardware_set(m, h) && h.contains(t))
}

proof fn lemma_named(m: TModule)
    ensures
        hdl::hardware_set(m, named(m)),
        forall|h: Set<TType>, t: TType| #[trigger]
            hdl::hardware_set(m, h) && #[trigger] hdl::made_of(t, h) ==> hdl::made_of(t, named(m)),
{
    let all = named(m);
    assert forall|t: TType| #[trigger] all.contains(t) implies hdl::defined_over(m, t, all) by {
        let h = choose|h: Set<TType>| #[trigger] hdl::hardware_set(m, h) && h.contains(t);
        lemma_below(m, h);
        hdl::lemma_defined_over_more(m, t, h, all);
    }
    assert forall|h: Set<TType>, t: TType| #[trigger]
        hdl::hardware_set(m, h) && #[trigger] hdl::made_of(t, h) implies hdl::made_of(t, all) by {
        lemma_below(m, h);
        hdl::lemma_made_of_more(t, h, all);
    }
}

proof fn lemma_below(m: TModule, h: Set<TType>)
    requires
        hdl::hardware_set(m, h),
    ensures
        forall|t: TType| #[trigger] h.contains(t) ==> named(m).contains(t),
        h.subset_of(named(m)),
{
    assert forall|t: TType| #[trigger] h.contains(t) implies named(m).contains(t) by {}
}

proof fn lemma_hardware(m: TModule, t: TType)
    ensures
        hdl::hardware(m, t) <==> hdl::made_of(t, named(m)),
{
    lemma_named(m);
    if hdl::hardware(m, t) {
        let h = choose|h: Set<TType>| #[trigger] hdl::hardware_set(m, h) && hdl::made_of(t, h);
        assert(hdl::made_of(t, named(m)));
    }
}

/// `bool` and bits are hardware types, machine integers and the unit type are not; an array is
/// one exactly if its element is.
pub proof fn law_plain_hardware_types(m: TModule, w: u32, it: IntTy, e: TType, n: u64)
    ensures
        hdl::hardware(m, TType::Bool),
        hdl::hardware(m, TType::Bit(w)),
        !hdl::hardware(m, TType::Int(it)),
        !hdl::hardware(m, TType::Unit),
        hdl::hardware(m, TType::Array(Box::new(e), n)) <==> hdl::hardware(m, e),
{
    lemma_hardware(m, TType::Bool);
    lemma_hardware(m, TType::Bit(w));
    lemma_hardware(m, TType::Int(it));
    lemma_hardware(m, TType::Unit);
    lemma_hardware(m, e);
    lemma_hardware(m, TType::Array(Box::new(e), n));
}

proof fn lemma_all(m: TModule, ts: Seq<TType>, i: int)
    requires
        0 <= i <= ts.len(),
    ensures
        hdl::all_made_of(ts, named(m), i) <==> forall|k: int|
            i <= k < ts.len() ==> hdl::hardware(m, #[trigger] ts[k]),
    decreases ts.len() - i,
{
    if i < ts.len() {
        lemma_all(m, ts, i + 1);
        lemma_hardware(m, ts[i]);
    }
}

/// A tuple is a hardware type exactly if its parts are.
pub proof fn law_hardware_tuples(m: TModule, ts: Seq<TType>)
    ensures
        hdl::hardware(m, TType::Tuple(ts)) <==> forall|k: int|
            0 <= k < ts.len() ==> hdl::hardware(m, #[trigger] ts[k]),
{
    lemma_hardware(m, TType::Tuple(ts));
    lemma_all(m, ts, 0);
}

/// A struct is a hardware type exactly if its fields are.
pub proof fn law_hardware_structs(m: TModule, n: Text, d: TStruct)
    requires
        name_map::find(m.structs, n) == Some(d),
    ensures
        hdl::hardware(m, TType::Struct(n)) <==> forall|k: int|
            0 <= k < d.fields.len() ==> hdl::hardware(m, (#[trigger] d.fields[k]).ty),
{
    let t = TType::Struct(n);
    let all = named(m);
    lemma_named(m);
    lemma_hardware(m, t);
    if hdl::hardware(m, t) {
        assert(hdl::defined_over(m, t, all));
        assert forall|k: int| 0 <= k < d.fields.len() implies hdl::hardware(
            m,
            (#[trigger] d.fields[k]).ty,
        ) by {
            lemma_hardware(m, d.fields[k].ty);
        }
    }
    if forall|k: int| 0 <= k < d.fields.len() ==> hdl::hardware(m, (#[trigger] d.fields[k]).ty) {
        let more = all.insert(t);
        assert forall|k: int| 0 <= k < d.fields.len() implies hdl::made_of(
            (#[trigger] d.fields[k]).ty,
            more,
        ) by {
            lemma_hardware(m, d.fields[k].ty);
            hdl::lemma_made_of_more(d.fields[k].ty, all, more);
        }
        lemma_one_more(m, t);
    }
}

proof fn lemma_one_more(m: TModule, t: TType)
    requires
        hdl::defined_over(m, t, named(m).insert(t)),
        t is Struct || t is Enum,
    ensures
        hdl::hardware(m, t),
{
    let all = named(m);
    let more = all.insert(t);
    lemma_named(m);
    assert forall|u: TType| #[trigger] more.contains(u) implies hdl::defined_over(m, u, more) by {
        if u != t {
            assert(all.contains(u));
            hdl::lemma_defined_over_more(m, u, all, more);
        }
    }
    assert(hdl::hardware_set(m, more));
    assert(hdl::made_of(t, more));
}

/// An enum is a hardware type exactly if all that its variants hold is.
pub proof fn law_hardware_enums(m: TModule, n: Text, d: TEnum)
    requires
        name_map::find(m.enums, n) == Some(d),
    ensures
        hdl::hardware(m, TType::Enum(n)) <==> forall|k: int, l: int|
            0 <= k < d.variants.len() && 0 <= l < d.variants[k].fields.len() ==> hdl::hardware(
                m,
                #[trigger] d.variants[k].fields[l],
            ),
{
    let t = TType::Enum(n);
    let all = named(m);
    lemma_named(m);
    lemma_hardware(m, t);
    if hdl::hardware(m, t) {
        assert(hdl::defined_over(m, t, all));
        assert forall|k: int, l: int|
            0 <= k < d.variants.len() && 0 <= l < d.variants[k].fields.len() implies hdl::hardware(
            m,
            #[trigger] d.variants[k].fields[l],
        ) by {
            lemma_all(m, d.variants[k].fields, 0);
        }
    }
    if forall|k: int, l: int|
        0 <= k < d.variants.len() && 0 <= l < d.variants[k].fields.len() ==> hdl::hardware(
            m,
            #[trigger] d.variants[k].fields[l],
        ) {
        let more = all.insert(t);
        assert forall|k: int| 0 <= k < d.variants.len() implies hdl::all_made_of(
            (#[trigger] d.variants[k]).fields,
            more,
            0,
        ) by {
            assert forall|l: int| 0 <= l < d.variants[k].fields.len() implies hdl::hardware(
                m,
                #[trigger] d.variants[k].fields[l],
            ) by {}
            lemma_all(m, d.variants[k].fields, 0);
            hdl::lemma_all_made_of_more(d.variants[k].fields, all, more, 0);
        }
        lemma_one_more(m, t);
    }
}

// ---- functions ----------------------------------------------------------

/// A function can become hardware exactly if its parameters and its result are of hardware
/// types, it neither prints nor holds a `while`, it does not call itself over any number of
/// calls, and everything that it calls can become hardware.
pub proof fn law_what_can_become_hardware(m: TModule, i: int)
    requires
        0 <= i < m.funcs.len() <= usize::MAX,
    ensures
        ({
            let f = m.funcs[i].1;
            hdl::synthesizable(m, i) <==> {
                &&& forall|k: int|
                    0 <= k < f.params.len() ==> hdl::hardware(m, (#[trigger] f.params[k]).ty)
                &&& hdl::hardware(m, f.ret)
                &&& !scan::block_has(f.body, Sought::Print)
                &&& !scan::block_has(f.body, Sought::While)
                &&& !calls_over(m, i, i)
                &&& forall|j: int|
                    0 <= j < m.funcs.len() && scan::block_has(
                        f.body,
                        Sought::Call((#[trigger] m.funcs[j]).0),
                    ) ==> hdl::synthesizable(m, j)
            }
        }),
{
    let f = m.funcs[i].1;
    hdl::law_synthesizable(m, i);
    lemma_params(m, f.params, 0, Seq::empty());
    lemma_recursive(m, i);
    assert forall|j: int| #[trigger] graph::edge(hdl::call_graph(m), i, j) <==> 0 <= j
        < m.funcs.len() && scan::block_has(f.body, Sought::Call(m.funcs[j].0)) by {
        lemma_edge(m, i, j);
    }
    if hdl::synthesizable(m, i) {
        assert forall|j: int|
            0 <= j < m.funcs.len() && scan::block_has(
                f.body,
                Sought::Call((#[trigger] m.funcs[j]).0),
            ) implies hdl::synthesizable(m, j) by {
            assert(graph::edge(hdl::call_graph(m), i, j));
        }
    }
    if forall|j: int|
        0 <= j < m.funcs.len() && scan::block_has(
            f.body,
            Sought::Call((#[trigger] m.funcs[j]).0),
        ) ==> hdl::synthesizable(m, j) {
        assert forall|j: int| #[trigger]
            graph::edge(hdl::call_graph(m), i, j) implies hdl::synthesizable(m, j) by {
            assert(scan::block_has(f.body, Sought::Call(m.funcs[j].0)));
        }
    }
}

/// Whether the function at `a` calls the one at `b`.
pub open spec fn calls(m: TModule, a: int, b: int) -> bool {
    0 <= a < m.funcs.len() && 0 <= b < m.funcs.len() && scan::block_has(
        m.funcs[a].1.body,
        Sought::Call(m.funcs[b].0),
    )
}

/// Whether the function at `a` calls the one at `b`, directly or over others.
pub open spec fn calls_over(m: TModule, a: int, b: int) -> bool {
    exists|p: Seq<int>| #[trigger] is_chain(m, p) && p.len() >= 2 && p[0] == a && p.last() == b
}

pub open spec fn is_chain(m: TModule, p: Seq<int>) -> bool {
    forall|i: int| 0 <= i < p.len() - 1 ==> calls(m, #[trigger] p[i], p[i + 1])
}

proof fn lemma_recursive(m: TModule, i: int)
    requires
        m.funcs.len() <= usize::MAX,
    ensures
        hdl::recursive(m, i) <==> calls_over(m, i, i),
{
    let g = hdl::call_graph(m);
    if hdl::recursive(m, i) {
        let p = choose|p: Seq<int>| #[trigger]
            graph::is_path(g, p) && p.len() >= 2 && p[0] == i && p[p.len() - 1] == i;
        assert forall|k: int| 0 <= k < p.len() - 1 implies calls(m, #[trigger] p[k], p[k + 1]) by {
            assert(graph::edge(g, p[k], p[k + 1]));
            lemma_edge(m, p[k], p[k + 1]);
        }
        assert(is_chain(m, p));
    }
    if calls_over(m, i, i) {
        let p = choose|p: Seq<int>| #[trigger]
            is_chain(m, p) && p.len() >= 2 && p[0] == i && p.last() == i;
        assert forall|k: int| 0 <= k < p.len() - 1 implies graph::edge(
            g,
            #[trigger] p[k],
            p[k + 1],
        ) by {
            assert(calls(m, p[k], p[k + 1]));
            lemma_edge(m, p[k], p[k + 1]);
        }
        assert(graph::is_path(g, p));
    }
}

proof fn lemma_edge(m: TModule, a: int, b: int)
    requires
        m.funcs.len() <= usize::MAX,
    ensures
        graph::edge(hdl::call_graph(m), a, b) <==> calls(m, a, b),
{
    if 0 <= a < m.funcs.len() {
        lemma_called(m, m.funcs[a].1.body, 0, b);
        let cs = hdl::call_graph(m)[a];
        assert(cs == hdl::called_from(m, m.funcs[a].1.body, 0));
        if graph::edge(hdl::call_graph(m), a, b) {
            let j = choose|j: int|
                0 <= j < hdl::call_graph(m)[a].len() && #[trigger] hdl::call_graph(m)[a][j] == b;
            assert(cs[j] == b);
            assert(cs.contains(b as usize));
        }
        if calls(m, a, b) {
            assert(cs.contains(b as usize));
            let j = choose|j: int| 0 <= j < cs.len() && cs[j] == b as usize;
            assert(hdl::call_graph(m)[a][j] == b);
        }
    }
}

proof fn lemma_called(m: TModule, b: TBlock, j: int, k: int)
    requires
        0 <= j <= m.funcs.len() <= usize::MAX,
    ensures
        0 <= k <= usize::MAX ==> (hdl::called_from(m, b, j).contains(k as usize) <==> j <= k
            < m.funcs.len() && scan::block_has(b, Sought::Call(m.funcs[k].0))),
    decreases m.funcs.len() - j,
{
    if j < m.funcs.len() {
        lemma_called(m, b, j + 1, k);
        let rest = hdl::called_from(m, b, j + 1);
        if scan::block_has(b, Sought::Call(m.funcs[j].0)) {
            let all = seq![j as usize] + rest;
            assert(all[0] == j as usize);
            if 0 <= k <= usize::MAX {
                if rest.contains(k as usize) {
                    let x = choose|x: int| 0 <= x < rest.len() && rest[x] == k as usize;
                    assert(all[x + 1] == k as usize);
                }
                if all.contains(k as usize) && k != j {
                    let x = choose|x: int| 0 <= x < all.len() && all[x] == k as usize;
                    assert(rest[x - 1] == k as usize);
                }
            }
        }
    }
}

proof fn lemma_params(m: TModule, ps: Seq<crate::ir::TParam>, i: int, acc: Seq<Text>)
    requires
        0 <= i <= ps.len(),
    ensures
        hdl::param_reasons(m, ps, i, acc).len() >= acc.len(),
        hdl::param_reasons(m, ps, i, acc).len() == acc.len() <==> forall|k: int|
            i <= k < ps.len() ==> hdl::hardware(m, (#[trigger] ps[k]).ty),
    decreases ps.len() - i,
{
    if i < ps.len() {
        if hdl::hardware(m, ps[i].ty) {
            lemma_params(m, ps, i + 1, acc);
        } else {
            let one = "parameter `"@ + ps[i].name + "` has type `"@ + ps[i].ty.show()
                + "`, which contains non-hardware (machine-integer) types"@;
            lemma_params(m, ps, i + 1, acc.push(one));
        }
    }
}

// ---- searching ----------------------------------------------------------

/// A `print` prints, a call calls, a `while` loops, and what is searched for in an expression
/// is there in every statement and every block that holds the expression.
pub proof fn law_searching(
    e: TExpr,
    x: Sought,
    func: Text,
    args: Seq<TExpr>,
    ty: TType,
    body: TBlock,
    b: TBlock,
    k: int,
)
    ensures
        scan::expr_has(TExpr { kind: TKind::Print { arg: Box::new(e) }, ty }, Sought::Print),
        scan::expr_has(TExpr { kind: TKind::Call { func, args }, ty }, Sought::Call(func)),
        scan::stmt_has(TStmt::While { cond: e, body }, Sought::While),
        scan::expr_has(e, x) ==> scan::stmt_has(TStmt::Expr(e), x),
        scan::block_has(body, x) ==> scan::expr_has(TExpr { kind: TKind::Block(body), ty }, x),
        0 <= k < b.stmts.len() && scan::stmt_has(b.stmts[k], x) ==> scan::block_has(b, x),
        b.tail matches Some(t) ==> (scan::expr_has(*t, x) ==> scan::block_has(b, x)),
{
    if 0 <= k < b.stmts.len() && scan::stmt_has(b.stmts[k], x) {
        lemma_some_statement(b.stmts, x, 0, k);
    }
}

proof fn lemma_some_statement(sts: Seq<TStmt>, x: Sought, i: int, k: int)
    requires
        0 <= i <= k < sts.len(),
        scan::stmt_has(sts[k], x),
    ensures
        scan::stmts_have(sts, x, i),
    decreases k - i,
{
    if i < k {
        lemma_some_statement(sts, x, i + 1, k);
    }
}

// ---- reports ------------------------------------------------------------

/// Whether `x` stands somewhere in `t`.
pub open spec fn stands_in(t: Text, x: Text) -> bool {
    exists|i: int| 0 <= i <= t.len() - x.len() && #[trigger] t.subrange(i, i + x.len()) == x
}

proof fn lemma_middle(a: Text, x: Text, b: Text)
    ensures
        stands_in(a + x + b, x),
{
    let t = a + x + b;
    let i = a.len() as int;
    assert(t.subrange(i, i + x.len()) =~= x);
}

proof fn lemma_wider(a: Text, t: Text, b: Text, x: Text)
    requires
        stands_in(t, x),
    ensures
        stands_in(a + t + b, x),
{
    let i = choose|i: int| 0 <= i <= t.len() - x.len() && #[trigger] t.subrange(i, i + x.len()) == x;
    let w = a + t + b;
    let k = a.len() + i;
    assert(w.subrange(k, k + x.len()) =~= t.subrange(i, i + x.len()));
}

proof fn lemma_joined(parts: Seq<Text>, sep: Text, k: int)
    requires
        0 <= k < parts.len(),
    ensures
        stands_in(text::join_texts(parts, sep), parts[k]),
    decreases parts.len(),
{
    let none: Text = Seq::empty();
    let less = parts.drop_last();
    let x = parts.last();
    assert(less.push(x) =~= parts);
    rendering::law_joining(less, x, sep);
    if less.len() == 0 {
        assert(parts =~= seq![x]);
        lemma_middle(none, x, none);
        assert(none + x + none =~= x);
    } else {
        let j = text::join_texts(less, sep);
        if k == parts.len() - 1 {
            lemma_middle(j + sep, x, none);
            assert(j + sep + x + none =~= j + sep + x);
        } else {
            lemma_joined(less, sep, k);
            lemma_wider(none, j, sep + x, parts[k]);
            assert(none + j + (sep + x) =~= j + sep + x);
        }
    }
}

/// The line of a report begins with a tick exactly if the function can become hardware; it holds
/// the name, and all the reasons against it.
pub proof fn law_reports_tell(r: hdl::Report, k: int)
    ensures
        ({
            let t = hdl::report_line(r);
            &&& t.len() > 0
            &&& t[0] == '\u{2713}' <==> r.synthesizable
            &&& stands_in(t, r.name)
            &&& !r.synthesizable && 0 <= k < r.reasons.len() ==> stands_in(t, r.reasons[k])
        }),
{
    reveal_strlit("\u{2713} ");
    reveal_strlit("\u{2717} ");
    let none: Text = Seq::empty();
    if r.synthesizable {
        lemma_middle("\u{2713} "@, r.name, " \u{2014} synthesizable"@);
        assert(hdl::report_line(r)[0] == "\u{2713} "@[0]);
    } else {
        let why = text::join_texts(r.reasons, "; "@);
        let mid = " \u{2014} not synthesizable: "@;
        lemma_middle("\u{2717} "@, r.name, mid + why);
        assert("\u{2717} "@ + r.name + (mid + why) =~= hdl::report_line(r));
        assert(hdl::report_line(r)[0] == "\u{2717} "@[0]);
        if 0 <= k < r.reasons.len() {
            lemma_joined(r.reasons, "; "@, k);
            lemma_wider("\u{2717} "@ + r.name + mid, why, none, r.reasons[k]);
            assert("\u{2717} "@ + r.name + mid + why + none =~= hdl::report_line(r));
        }
    }
}

/// Every module of a design stands in its text, and every function that is left out stands,
/// with the reason, in the text before it.
pub proof fn law_designs_are_written_whole(m: TModule, k: int)
    ensures
        0 <= k < lowering::design_from(m, 0).len() ==> stands_in(
            verilog::emitted(m),
            lowering::design_from(m, 0)[k].show(),
        ),
        0 <= k < lowering::skipped_from(m, 0).len() ==> stands_in(
            verilog::emitted(m),
            "// skipped `"@ + lowering::skipped_from(m, 0)[k].0 + "`: "@ + lowering::skipped_from(
                m,
                0,
            )[k].1 + "\n"@,
        ),
{
    let d = lowering::design_from(m, 0);
    let s = lowering::skipped_from(m, 0);
    let head = "// Generated by the Rune Verilog backend (synthesizable subset only).\n// Semantics match the Rune interpreter bit-for-bit.\n\n"@;
    let gap = if s.len() > 0 {
        "\n"@
    } else {
        Seq::empty()
    };
    let end = if d.len() > 0 {
        "\n"@
    } else {
        Seq::empty()
    };
    let lines = verilog::skip_lines(s, 0);
    let body = crate::netlist::design_text(d);
    if 0 <= k < d.len() {
        let parts = Seq::new(d.len(), |i: int| d[i].show());
        lemma_joined(parts, "\n"@, k);
        lemma_wider(head + lines + gap, body, end, d[k].show());
    }
    if 0 <= k < s.len() {
        lemma_skipped(s, 0, k);
        let line = "// skipped `"@ + s[k].0 + "`: "@ + s[k].1 + "\n"@;
        lemma_wider(head, lines, gap + body + end, line);
        assert(head + lines + (gap + body + end) =~= verilog::emitted(m));
    }
}

proof fn lemma_skipped(s: Seq<(Text, Text)>, i: int, k: int)
    requires
        0 <= i <= k < s.len(),
    ensures
        stands_in(
            verilog::skip_lines(s, i),
            "// skipped `"@ + s[k].0 + "`: "@ + s[k].1 + "\n"@,
        ),
    decreases k - i,
{
    let none: Text = Seq::empty();
    let line = "// skipped `"@ + s[i].0 + "`: "@ + s[i].1 + "\n"@;
    let rest = verilog::skip_lines(s, i + 1);
    if i == k {
        lemma_middle(none, line, rest);
        assert(none + line + rest =~= verilog::skip_lines(s, i));
    } else {
        lemma_skipped(s, i + 1, k);
        lemma_wider(line, rest, none, "// skipped `"@ + s[k].0 + "`: "@ + s[k].1 + "\n"@);
        assert(line + rest + none =~= verilog::skip_lines(s, i));
    }
}

} // verus!
