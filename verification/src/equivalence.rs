//! The equivalence of a design with the interpreter: whatever the interpreter
//! computes for a lowered function, the netlist computes bit for bit.

use crate::graph;
use crate::hdl;
use crate::ir::{TFunc, TModule, TParam};
use crate::lowering;
use crate::name_map;
use crate::netlist::{self, Dir, NModule, NPort, Wires};
use crate::purity;
use crate::scan::{self, Sought};
use crate::semantics::{self, Mem};
use crate::simulation::{self, Site};
use crate::text::{self, Text};
use crate::value::VVal;
use crate::wires;
use vstd::prelude::*;

verus! {

// ---- one function -------------------------------------------------------

/// The port of a parameter.
pub open spec fn port_of(p: TParam) -> NPort {
    NPort { dir: Dir::Input, name: p.name, width: lowering::kind_of(p.ty).width() }
}

proof fn lemma_input_ports(ps: Seq<TParam>, i: int, acc: Seq<NPort>)
    requires
        0 <= i <= ps.len(),
        acc.len() == i,
        lowering::input_ports(ps, i, acc) is Ok,
        forall|k: int| 0 <= k < i ==> #[trigger] acc[k] == port_of(ps[k]),
        forall|x: int, y: int| 0 <= x < y < i ==> (#[trigger] ps[x]).name != (#[trigger] ps[y]).name,
        forall|k: int| 0 <= k < i ==> (#[trigger] ps[k]).name != "out"@,
    ensures
        ({
            let ports = lowering::input_ports(ps, i, acc)->Ok_0;
            &&& ports.len() == ps.len()
            &&& forall|k: int| 0 <= k < ps.len() ==> #[trigger] ports[k] == port_of(ps[k])
        }),
        simulation::distinct(ps),
        forall|k: int| 0 <= k < ps.len() ==> (#[trigger] ps[k]).name != "out"@,
    decreases ps.len() - i,
{
    if i < ps.len() {
        let next = acc.push(port_of(ps[i]));
        assert forall|x: int, y: int| 0 <= x < y < i + 1 implies (#[trigger] ps[x]).name != (
        #[trigger] ps[y]).name by {}
        lemma_input_ports(ps, i + 1, next);
    }
}

/// The ports of a lowered function: one for each parameter, and the output.
pub proof fn lemma_ports(m: TModule, i: int)
    requires
        lowering::is_lowered(m, i),
    ensures
        ({
            let ps = m.funcs[i].1.params;
            let nm = lowering::module_of(m, i);
            &&& nm.name == lowering::module_name(m, m.funcs[i].0)
            &&& nm.ports.len() == ps.len() + 1
            &&& forall|k: int| 0 <= k < ps.len() ==> #[trigger] nm.ports[k] == port_of(ps[k])
            &&& nm.ports.last().dir is Output
            &&& nm.ports.last().width == lowering::kind_of(m.funcs[i].1.ret).width()
        }),
{
    reveal(lowering::lower_func);
    lemma_input_ports(m.funcs[i].1.params, 0, Seq::empty());
}

/// The wires that the inputs drive.
pub open spec fn driven(ps: Seq<TParam>, inputs: Wires) -> Wires {
    Seq::new(
        ps.len(),
        |i: int|
            (
                ps[i].name,
                netlist::truncated(
                    netlist::on_wire(inputs, ps[i].name),
                    lowering::kind_of(ps[i].ty).width(),
                ),
            ),
    )
}

proof fn lemma_drive(ports: Seq<NPort>, ps: Seq<TParam>, inputs: Wires, i: int, w: Wires)
    requires
        0 <= i <= ps.len(),
        ports.len() == ps.len() + 1,
        forall|k: int| 0 <= k < ps.len() ==> #[trigger] ports[k] == port_of(ps[k]),
        ports[ps.len() as int].dir == Dir::Output,
        simulation::supplied(inputs, ps),
        w == driven(ps, inputs).subrange(0, i),
    ensures
        netlist::drive(ports, inputs, i, w) == Some(driven(ps, inputs)),
    decreases ps.len() - i,
{
    let all = driven(ps, inputs);
    if i < ps.len() {
        assert(ports[i] == port_of(ps[i]));
        assert(semantics::slot(inputs, ps[i].name) is Some);
        assert(w.push(all[i]) =~= all.subrange(0, i + 1));
        lemma_drive(ports, ps, inputs, i + 1, all.subrange(0, i + 1));
    } else {
        assert(w =~= all);
        assert(netlist::drive(ports, inputs, i + 1, w) == Some(w));
    }
}

proof fn lemma_out_width(ports: Seq<NPort>, n: int, i: int)
    requires
        0 <= i <= n,
        ports.len() == n + 1,
        ports[n].name == "out"@,
        forall|k: int| 0 <= k < n ==> (#[trigger] ports[k]).name != "out"@,
    ensures
        netlist::port_width(ports, "out"@, i) == Some(ports[n].width),
    decreases n - i,
{
    if i < n {
        assert(ports[i].name != "out"@);
        lemma_out_width(ports, n, i + 1);
    }
}

/// The wires that the inputs drive carry the parameters.
proof fn lemma_params(ps: Seq<TParam>, inputs: Wires, args: Seq<VVal>, w: Wires)
    requires
        simulation::distinct(ps),
        simulation::supplied(inputs, ps),
        w == driven(ps, inputs),
    ensures
        wires::grounded(w, 0, ps),
        simulation::steady_env(lowering::param_nets(ps), w),
        simulation::agrees(inputs, ps, args) ==> simulation::related(
            lowering::param_nets(ps),
            semantics::bind_params(ps, args),
            w,
        ),
{
    let env = lowering::param_nets(ps);
    assert forall|x: int, y: int| 0 <= x < y < w.len() implies (#[trigger] w[x]).0 != (
    #[trigger] w[y]).0 by {
        assert(ps[x].name != ps[y].name);
    }
    assert forall|i: int| 0 <= i < w.len() implies wires::known((#[trigger] w[i]).0, 0, ps) by {
        assert(ps[i].name == w[i].0);
    }
    assert forall|i: int| 0 <= i < env.len() implies wires::steady((#[trigger] env[i]).1, w) by {
        assert(w[i].0 == ps[i].name);
        wires::lemma_slot_distinct(w, i, w.len() as int);
        wires::lemma_truncated_fits(
            netlist::on_wire(inputs, ps[i].name),
            lowering::kind_of(ps[i].ty).width(),
        );
    }
    if simulation::agrees(inputs, ps, args) {
        let vars = semantics::bind_params(ps, args);
        assert forall|i: int| 0 <= i < env.len() implies (#[trigger] env[i]).0 == vars[i].0
            && wires::carries(vars[i].1, env[i].1, w) by {
            assert(wires::steady(env[i].1, w));
            assert(w[i].0 == ps[i].name);
            wires::lemma_slot_distinct(w, i, w.len() as int);
            wires::lemma_kind(args[i], lowering::kind_of(ps[i].ty));
            wires::lemma_truncated(wires::bits(args[i]), lowering::kind_of(ps[i].ty));
        }
    }
}

proof fn lemma_longest(ps: Seq<TParam>, i: int, j: int)
    requires
        0 <= j < i <= ps.len(),
    ensures
        ps[j].name.len() <= lowering::longest(ps, i),
    decreases i,
{
    if j < i - 1 {
        lemma_longest(ps, i - 1, j);
    }
}

/// The names that are chosen for a function are not those of its parameters.
proof fn lemma_unhidden(m: TModule, f: TFunc)
    requires
        ({
            let kind = lowering::kind_of(f.ret);
            let first = lowering::lower_body(m, f, kind, Seq::empty());
            &&& first is Ok
            &&& lowering::lower_body(
                m,
                f,
                kind,
                lowering::padding(first->Ok_0.1.items, f.params),
            ) is Ok
        }),
    ensures
        ({
            let kind = lowering::kind_of(f.ret);
            let first = lowering::lower_body(m, f, kind, Seq::empty())->Ok_0.1;
            let pad = lowering::padding(first.items, f.params);
            !lowering::hides(lowering::lower_body(m, f, kind, pad)->Ok_0.1.items, f.params)
        }),
{
    reveal(lowering::lower_body);
    let kind = lowering::kind_of(f.ret);
    let env = lowering::param_nets(f.params);
    let first = lowering::lower_body(m, f, kind, Seq::empty())->Ok_0.1;
    if lowering::hides(first.items, f.params) {
        let lo = lowering::nothing(lowering::padding(first.items, f.params));
        let (_, lo1) = lowering::lower_block(m, env, lo, f.body, 0)->Ok_0;
        wires::grow_block(m, env, lo, f.body, 0);
        assert forall|i: int, j: int|
            0 <= i < lo1.items.len() && 0 <= j < f.params.len() implies !lowering::takes(
            #[trigger] lo1.items[i],
            (#[trigger] f.params[j]).name,
        ) by {
            assert(wires::outgrows(lo1.items[i], lo.pad));
            lemma_longest(f.params, f.params.len() as int, j);
        }
    }
}

/// A function whose module is in the design, and whose callees behave, behaves.
#[verifier::rlimit(60)]
proof fn lemma_function(m: TModule, d: Seq<NModule>, name: Text, f: TFunc, k: nat, inputs: Wires)
    requires
        name_map::find(m.funcs, name) == Some(f),
        lowering::lower_func(m, name, f) is Ok,
        netlist::module_at(d, lowering::module_name(m, name), 0) is Some,
        d[netlist::module_at(d, lowering::module_name(m, name), 0)->Some_0] == lowering::lower_func(
            m,
            name,
            f,
        )->Ok_0,
        forall|g: Text| #[trigger]
            scan::block_has(f.body, Sought::Call(g)) ==> simulation::behaves(m, d, g, k),
    ensures
        simulation::distinct(f.params),
        simulation::behaves_on(m, d, name, f, k + 1, inputs),
{
    reveal(lowering::lower_func);
    reveal(lowering::lower_body);
    let nm = lowering::lower_func(m, name, f)->Ok_0;
    let kind = lowering::kind_of(f.ret);
    let env = lowering::param_nets(f.params);
    let first = lowering::lower_body(m, f, kind, Seq::empty())->Ok_0.1;
    let lo = lowering::nothing(lowering::padding(first.items, f.params));
    let (n, lo1) = lowering::lower_block(m, env, lo, f.body, 0)->Ok_0;
    lemma_input_ports(f.params, 0, Seq::empty());
    if simulation::supplied(inputs, f.params) {
        let c = Site { m, d, depth: k, ports: nm.ports, items: nm.items, params: f.params };
        let w0 = driven(f.params, inputs);
        assert(w0.subrange(0, 0) =~= Seq::empty());
        lemma_drive(nm.ports, f.params, inputs, 0, Seq::empty());
        let size = lo1.items.len() as int;
        lemma_unhidden(m, f);
        assert(lo.pad =~= lowering::underscores(lo.pad.len()));
        assert(simulation::within(c, lo1));
        assert(lowering::declared(nm.items[size]) == "out"@);
        assert(simulation::clear(c)) by {
            assert forall|i: int, j: int|
                0 <= i < c.items.len() && 0 <= j < c.params.len() implies lowering::declared(
                #[trigger] c.items[i],
            ) != (#[trigger] c.params[j]).name by {
                if i < size {
                    assert(c.items[i] == lo1.items[i]);
                    assert(!lowering::takes(lo1.items[i], f.params[j].name));
                }
            }
        }
        lemma_params(f.params, inputs, Seq::empty(), w0);
        assert(simulation::fine_block(c, f.body));
        let s0 = Mem { env: Seq::empty(), out: Seq::empty(), cache: Seq::empty() };
        let w1 = simulation::eq_block(c, env, lo, f.body, 0, w0, 0, s0);
        let out = n.expr.value(w1);
        lemma_out_width(nm.ports, f.params.len() as int, 0);
        wires::lemma_truncated(out, kind);
        let w2 = w1.push(("out"@, out));
        assert(netlist::run_item(d, k, nm.ports, nm.items[size], w1) == Some(w2));
        assert(netlist::run_items(d, k, nm.ports, nm.items, size + 1, w2) == Some(w2));
        assert(netlist::run_items(d, k, nm.ports, nm.items, 0, w0) == Some(w2));
        wires::lemma_slot_push(w1, ("out"@, out), "out"@);
        assert(netlist::run(d, k + 1, lowering::module_name(m, name), inputs) == Some(out));
        assert forall|fuel: nat, args: Seq<VVal>, s: Mem|
            simulation::agrees(inputs, f.params, args) implies simulation::same_result(
            (#[trigger] semantics::call_func(m, fuel, name, args, s)).0,
            kind,
            out,
        ) by {
            lemma_params(f.params, inputs, args, w0);
            let s1 = semantics::with_env(s, semantics::bind_params(f.params, args));
            let w3 = simulation::eq_block(c, env, lo, f.body, 0, w0, fuel, s1);
            assert(simulation::go(c, size as nat, w1) == simulation::go(c, size as nat, w3));
            let end3 = w3.push(("out"@, netlist::truncated(n.expr.value(w3), kind.width())));
            assert(netlist::run_item(d, k, nm.ports, nm.items[size], w3) == Some(end3));
            assert(netlist::run_items(d, k, nm.ports, nm.items, size + 1, end3) == Some(end3));
            assert(end3 == w2);
            assert(end3.drop_last() =~= w3);
            assert(w2.drop_last() =~= w1);
        }
    }
}

// ---- which functions are lowered ----------------------------------------

proof fn lemma_callees_more(m: TModule, cs: Seq<usize>, j: int, k: nat, l: nat)
    requires
        lowering::callees_lowered(m, cs, j, k),
        k <= l,
    ensures
        lowering::callees_lowered(m, cs, j, l),
    decreases k, 2int, cs.len() - j,
{
    if 0 <= j < cs.len() {
        lemma_lowered_more(m, cs[j] as int, k, l);
        lemma_callees_more(m, cs, j + 1, k, l);
    }
}

/// A deeper bound admits every function that a lower one admits.
proof fn lemma_lowered_more(m: TModule, i: int, k: nat, l: nat)
    requires
        lowering::lowered_within(m, i, k),
        k <= l,
    ensures
        lowering::lowered_within(m, i, l),
    decreases k, 1int, 0int,
{
    lemma_callees_more(m, hdl::call_graph(m)[i], 0, (k - 1) as nat, (l - 1) as nat);
}

proof fn lemma_callee(m: TModule, cs: Seq<usize>, j: int, k: nat, x: int)
    requires
        lowering::callees_lowered(m, cs, j, k),
        0 <= j <= x < cs.len(),
    ensures
        lowering::lowered_within(m, cs[x] as int, k),
    decreases x - j,
{
    if j < x {
        lemma_callee(m, cs, j + 1, k, x);
    }
}

/// The functions that are lowered within the bound `k`.
pub open spec fn marks(m: TModule, k: nat) -> Seq<bool> {
    Seq::new(m.funcs.len(), |i: int| lowering::lowered_within(m, i, k))
}

proof fn lemma_callees_same(m: TModule, cs: Seq<usize>, j: int, k: nat, l: nat)
    requires
        0 <= j,
        marks(m, k) == marks(m, l),
        forall|x: int| 0 <= x < cs.len() ==> #[trigger] cs[x] < m.funcs.len(),
        lowering::callees_lowered(m, cs, j, k),
    ensures
        lowering::callees_lowered(m, cs, j, l),
    decreases cs.len() - j,
{
    if j < cs.len() {
        let x = cs[j] as int;
        assert(marks(m, k)[x] == lowering::lowered_within(m, x, k));
        assert(marks(m, l)[x] == lowering::lowered_within(m, x, l));
        lemma_callees_same(m, cs, j + 1, k, l);
    }
}

/// Once a deeper bound admits nothing more, no bound does.
proof fn lemma_stable(m: TModule, k: nat, l: nat)
    requires
        m.funcs.len() <= usize::MAX,
        marks(m, k) == marks(m, k + 1),
        k <= l,
    ensures
        marks(m, l) == marks(m, k),
    decreases l - k,
{
    if k < l {
        lemma_stable(m, k, (l - 1) as nat);
        assert(marks(m, l) =~= marks(m, k + 1)) by {
            assert forall|i: int| 0 <= i < m.funcs.len() implies lowering::lowered_within(m, i, l)
                == lowering::lowered_within(m, i, k + 1) by {
                let cs = hdl::call_graph(m)[i];
                assert forall|x: int| 0 <= x < cs.len() implies #[trigger] cs[x]
                    < m.funcs.len() by {
                    hdl::lemma_called_bound(m, m.funcs[i].1.body, 0, x);
                }
                if lowering::callees_lowered(m, cs, 0, (l - 1) as nat) {
                    lemma_callees_same(m, cs, 0, (l - 1) as nat, k);
                }
                if lowering::callees_lowered(m, cs, 0, k) {
                    lemma_callees_same(m, cs, 0, k, (l - 1) as nat);
                }
            }
        }
    }
}

proof fn lemma_marks_grow(m: TModule, k: nat, l: nat)
    requires
        k <= l,
    ensures
        graph::count(marks(m, k)) <= graph::count(marks(m, l)),
        marks(m, k) != marks(m, l) ==> graph::count(marks(m, k)) < graph::count(marks(m, l)),
{
    assert forall|i: int| 0 <= i < marks(m, k).len() && marks(m, k)[i] implies #[trigger] marks(
        m,
        l,
    )[i] by {
        lemma_lowered_more(m, i, k, l);
    }
    graph::lemma_count_grows(marks(m, k), marks(m, l));
}

/// Either the bound `k` admits at least `k` functions, or a deeper one admits
/// nothing more.
proof fn lemma_marks_count(m: TModule, k: nat)
    requires
        m.funcs.len() <= usize::MAX,
    ensures
        graph::count(marks(m, k)) >= k || marks(m, k) == marks(m, k + 1),
    decreases k,
{
    if k > 0 {
        lemma_marks_count(m, (k - 1) as nat);
        if marks(m, (k - 1) as nat) == marks(m, k) {
            lemma_stable(m, (k - 1) as nat, k + 1);
        } else {
            lemma_marks_grow(m, (k - 1) as nat, k);
        }
    }
}

/// The functions from position `i` on that are lowered, counted.
proof fn lemma_design_size(m: TModule, i: int)
    requires
        0 <= i <= m.funcs.len(),
    ensures
        lowering::design_from(m, i).len() + graph::count(
            marks(m, m.funcs.len()).subrange(0, i),
        ) == graph::count(marks(m, m.funcs.len())),
    decreases m.funcs.len() - i,
{
    let all = marks(m, m.funcs.len());
    if i < m.funcs.len() {
        lemma_design_size(m, i + 1);
        let next = all.subrange(0, i + 1);
        assert(next.drop_last() =~= all.subrange(0, i));
        assert(next.last() == lowering::is_lowered(m, i));
    } else {
        assert(all.subrange(0, i) =~= all);
    }
}

/// Calls of lowered functions nest at most as deep as there are modules.
proof fn lemma_depth(m: TModule, i: int)
    requires
        m.funcs.len() <= usize::MAX,
        0 <= i < m.funcs.len(),
        lowering::is_lowered(m, i),
    ensures
        lowering::lowered_within(m, i, lowering::design_from(m, 0).len()),
{
    let n = m.funcs.len();
    let size = lowering::design_from(m, 0).len();
    lemma_design_size(m, 0);
    assert(marks(m, n).subrange(0, 0) =~= Seq::<bool>::empty());
    assert(size == graph::count(marks(m, n)));
    graph::lemma_count_bound(marks(m, n));
    if size < n {
        if marks(m, size) == marks(m, size + 1) {
            lemma_stable(m, size, n);
        } else {
            lemma_marks_count(m, size + 1);
            lemma_marks_count(m, size);
            lemma_marks_grow(m, size, size + 1);
            lemma_marks_grow(m, size + 1, n);
        }
        assert(marks(m, size)[i] == marks(m, n)[i]);
    }
}

// ---- the design ---------------------------------------------------------

proof fn lemma_in_design(m: TModule, i: int, j: int) -> (k: int)
    requires
        0 <= j <= i < m.funcs.len(),
        lowering::is_lowered(m, i),
    ensures
        0 <= k < lowering::design_from(m, j).len(),
        lowering::design_from(m, j)[k] == lowering::module_of(m, i),
    decreases i - j,
{
    if i == j {
        0
    } else {
        let k = lemma_in_design(m, i, j + 1);
        if lowering::is_lowered(m, j) {
            k + 1
        } else {
            k
        }
    }
}

proof fn lemma_from_design(m: TModule, j: int, k: int) -> (i: int)
    requires
        0 <= j,
        0 <= k < lowering::design_from(m, j).len(),
    ensures
        j <= i < m.funcs.len(),
        lowering::is_lowered(m, i),
        lowering::design_from(m, j)[k] == lowering::module_of(m, i),
    decreases m.funcs.len() - j,
{
    if lowering::is_lowered(m, j) {
        if k == 0 {
            j
        } else {
            lemma_from_design(m, j + 1, k - 1)
        }
    } else {
        lemma_from_design(m, j + 1, k)
    }
}

proof fn lemma_module_at(d: Seq<NModule>, name: Text, i: int, k: int)
    requires
        0 <= i <= k < d.len(),
        d[k].name == name,
    ensures
        netlist::module_at(d, name, i) is Some,
        i <= netlist::module_at(d, name, i)->Some_0 < d.len(),
        d[netlist::module_at(d, name, i)->Some_0].name == name,
    decreases k - i,
{
    if d[i].name != name {
        lemma_module_at(d, name, i + 1, k);
    }
}

proof fn lemma_module_name(m: TModule, i: int)
    requires
        lowering::is_lowered(m, i),
    ensures
        lowering::module_of(m, i).name == lowering::module_name(m, m.funcs[i].0),
{
    reveal(lowering::lower_func);
}

proof fn lemma_longest_name(funcs: Seq<(Text, TFunc)>, i: int, j: int)
    requires
        0 <= j < i <= funcs.len(),
    ensures
        lowering::sanitized(funcs[j].0).len() <= lowering::longest_name(funcs, i),
    decreases i,
{
    if j < i - 1 {
        lemma_longest_name(funcs, i - 1, j);
    }
}

proof fn lemma_place_of(funcs: Seq<(Text, TFunc)>, p: int, i: int)
    requires
        name_map::sorted(funcs),
        0 <= i <= p < funcs.len(),
    ensures
        lowering::place_of(funcs, funcs[p].0, i) == p,
    decreases p - i,
{
    if i < p {
        assert(text::text_less(funcs[i].0, funcs[p].0));
        text::lemma_text_less_irreflexive(funcs[p].0, 0);
        lemma_place_of(funcs, p, i + 1);
    }
}

/// Functions become modules of different names.
proof fn lemma_names_distinct(m: TModule, i: int, j: int)
    requires
        name_map::sorted(m.funcs),
        0 <= i < m.funcs.len(),
        0 <= j < m.funcs.len(),
        i != j,
    ensures
        lowering::module_name(m, m.funcs[i].0) != lowering::module_name(m, m.funcs[j].0),
    decreases i,
{
    reveal(lowering::module_name);
    if j < i {
        lemma_names_distinct(m, j, i);
    } else {
        let a = m.funcs[i].0;
        let b = m.funcs[j].0;
        let n = m.funcs.len() as int;
        let most = lowering::longest_name(m.funcs, n);
        assert(text::text_less(a, b));
        text::lemma_text_less_irreflexive(b, 0);
        lemma_longest_name(m.funcs, n, i);
        lemma_longest_name(m.funcs, n, j);
        lemma_place_of(m.funcs, i, 0);
        lemma_place_of(m.funcs, j, 0);
        wires::lemma_dec(i as nat);
        wires::lemma_dec(j as nat);
        let x = lowering::sanitized(a);
        let y = lowering::sanitized(b);
        if lowering::taken(m.funcs, a) && lowering::taken(m.funcs, b) {
            lemma_named(a);
            lemma_named(b);
            assert((x + lowering::underscores(most)).last() == '_');
            assert((y + lowering::underscores(most)).last() == '_');
            if lowering::module_name(m, a) == lowering::module_name(m, b) {
                wires::lemma_number_unique(
                    x + lowering::underscores(most),
                    i as nat,
                    y + lowering::underscores(most),
                    j as nat,
                );
            }
        } else if !lowering::taken(m.funcs, a) && !lowering::taken(m.funcs, b) {
            if x == y {
                assert(m.funcs[i].0 == a && m.funcs[j].0 == b);
            }
        }
    }
}

/// The identifier that stands for a name is not empty.
proof fn lemma_named(name: Text)
    ensures
        lowering::sanitized(name).len() > 0,
{
}

/// The design finds a lowered function by its module name.
proof fn lemma_found(m: TModule, i: int)
    requires
        name_map::sorted(m.funcs),
        0 <= i < m.funcs.len(),
        lowering::is_lowered(m, i),
    ensures
        ({
            let d = lowering::design_from(m, 0);
            let at = netlist::module_at(d, lowering::module_name(m, m.funcs[i].0), 0);
            at is Some && 0 <= at->Some_0 < d.len() && d[at->Some_0] == lowering::module_of(m, i)
        }),
{
    let d = lowering::design_from(m, 0);
    let name = lowering::module_name(m, m.funcs[i].0);
    let k = lemma_in_design(m, i, 0);
    lemma_module_name(m, i);
    lemma_module_at(d, name, 0, k);
    let at = netlist::module_at(d, name, 0)->Some_0;
    let j = lemma_from_design(m, 0, at);
    lemma_module_name(m, j);
    if i != j {
        lemma_names_distinct(m, i, j);
    }
}

/// By induction over how deep calls nest, every lowered function behaves.
proof fn lemma_behaves(m: TModule, i: int, k: nat)
    requires
        name_map::sorted(m.funcs),
        m.funcs.len() <= usize::MAX,
        0 <= i < m.funcs.len(),
        lowering::is_lowered(m, i),
        lowering::lowered_within(m, i, k),
    ensures
        simulation::behaves(m, lowering::design_from(m, 0), m.funcs[i].0, k),
    decreases k,
{
    let d = lowering::design_from(m, 0);
    let name = m.funcs[i].0;
    let f = m.funcs[i].1;
    let n = m.funcs.len();
    let cs = hdl::call_graph(m)[i];
    name_map::lemma_find_sorted(m.funcs, i);
    lemma_found(m, i);
    assert forall|g: Text| #[trigger]
        scan::block_has(f.body, Sought::Call(g)) implies simulation::behaves(
        m,
        d,
        g,
        (k - 1) as nat,
    ) by {
        if name_map::find(m.funcs, g) is Some {
            name_map::lemma_find_some(m.funcs, g, 0);
            let j = choose|j: int|
                0 <= j < m.funcs.len() && #[trigger] m.funcs[j].0 == g && name_map::find(m.funcs, g)
                    == Some(m.funcs[j].1);
            hdl::lemma_called_all(m, f.body, 0, j);
            let x = choose|x: int| 0 <= x < cs.len() && #[trigger] cs[x] == j;
            lemma_callee(m, cs, 0, (k - 1) as nat, x);
            lemma_callee(m, cs, 0, (n - 1) as nat, x);
            lemma_lowered_more(m, j, (n - 1) as nat, n);
            lemma_behaves(m, j, (k - 1) as nat);
        } else {
            reveal(simulation::behaves);
        }
    }
    reveal(simulation::behaves);
    let empty: Wires = Seq::empty();
    lemma_function(m, d, name, f, (k - 1) as nat, empty);
    assert forall|inputs: Wires| #[trigger]
        simulation::behaves_on(m, d, name, f, k, inputs) by {
        lemma_function(m, d, name, f, (k - 1) as nat, inputs);
    }
}

// ---- the laws -----------------------------------------------------------

/// The netlist of a lowered function computes what the interpreter computes: with
/// its inputs driven by the bits of the arguments, its module drives the bits of
/// the value that a call gives, and the value has the declared type.
///
/// Where a call traps (a division by zero) the module still drives some value of
/// the type.
pub proof fn law_netlist_agrees_with_interpreter(
    m: TModule,
    i: int,
    inputs: Wires,
    args: Seq<VVal>,
    fuel: nat,
    s: Mem,
)
    requires
        name_map::sorted(m.funcs),
        m.funcs.len() <= usize::MAX,
        0 <= i < m.funcs.len(),
        lowering::is_lowered(m, i),
        simulation::agrees(inputs, m.funcs[i].1.params, args),
    ensures
        ({
            let d = lowering::design_from(m, 0);
            let kind = lowering::kind_of(m.funcs[i].1.ret);
            match netlist::run(d, d.len(), lowering::module_name(m, m.funcs[i].0), inputs) {
                None => false,
                Some(out) => wires::in_kind(out, kind) && match semantics::call_func(
                    m,
                    fuel,
                    m.funcs[i].0,
                    args,
                    s,
                ).0 {
                    Ok(v) => wires::typed(v, kind) && wires::bits(v) == out,
                    Err(f) => !(f is Return),
                },
            }
        }),
{
    let d = lowering::design_from(m, 0);
    let name = m.funcs[i].0;
    name_map::lemma_find_sorted(m.funcs, i);
    lemma_depth(m, i);
    lemma_behaves(m, i, d.len());
    reveal(simulation::behaves);
    assert(simulation::behaves_on(m, d, name, m.funcs[i].1, d.len(), inputs));
    purity::law_call_keeps_variables(m, fuel, name, args, s);
}

/// The module of a lowered function always drives its output, with a value of the
/// declared type, once all its inputs are driven.
pub proof fn law_netlist_is_total(m: TModule, i: int, inputs: Wires)
    requires
        name_map::sorted(m.funcs),
        m.funcs.len() <= usize::MAX,
        0 <= i < m.funcs.len(),
        lowering::is_lowered(m, i),
        simulation::supplied(inputs, m.funcs[i].1.params),
    ensures
        ({
            let d = lowering::design_from(m, 0);
            match netlist::run(d, d.len(), lowering::module_name(m, m.funcs[i].0), inputs) {
                None => false,
                Some(out) => wires::in_kind(out, lowering::kind_of(m.funcs[i].1.ret)),
            }
        }),
{
    let d = lowering::design_from(m, 0);
    name_map::lemma_find_sorted(m.funcs, i);
    lemma_depth(m, i);
    lemma_behaves(m, i, d.len());
    reveal(simulation::behaves);
    assert(simulation::behaves_on(m, d, m.funcs[i].0, m.funcs[i].1, d.len(), inputs));
}

/// Every function is accounted for: it has a module in the design, or is listed as
/// skipped with a reason, and no function is both.
pub proof fn law_lowered_or_skipped(m: TModule, i: int)
    requires
        0 <= i < m.funcs.len(),
    ensures
        lowering::is_lowered(m, i) ==> lowering::design_from(m, 0).contains(
            lowering::module_of(m, i),
        ),
        !lowering::is_lowered(m, i) ==> lowering::skipped_from(m, 0).contains(
            (m.funcs[i].0, lowering::skip_reason(m, i)),
        ),
        lowering::design_from(m, 0).len() + lowering::skipped_from(m, 0).len() == m.funcs.len(),
{
    if lowering::is_lowered(m, i) {
        let k = lemma_in_design(m, i, 0);
    } else {
        let k = lemma_in_skipped(m, i, 0);
    }
    lemma_sizes(m, 0);
}

proof fn lemma_in_skipped(m: TModule, i: int, j: int) -> (k: int)
    requires
        0 <= j <= i < m.funcs.len(),
        !lowering::is_lowered(m, i),
    ensures
        0 <= k < lowering::skipped_from(m, j).len(),
        lowering::skipped_from(m, j)[k] == (m.funcs[i].0, lowering::skip_reason(m, i)),
    decreases i - j,
{
    if i == j {
        0
    } else {
        let k = lemma_in_skipped(m, i, j + 1);
        if lowering::is_lowered(m, j) {
            k
        } else {
            k + 1
        }
    }
}

proof fn lemma_sizes(m: TModule, j: int)
    requires
        0 <= j <= m.funcs.len(),
    ensures
        lowering::design_from(m, j).len() + lowering::skipped_from(m, j).len() == m.funcs.len() - j,
    decreases m.funcs.len() - j,
{
    if j < m.funcs.len() {
        lemma_sizes(m, j + 1);
    }
}

/// The modules of a design have names of their own.
pub proof fn law_module_names_distinct(m: TModule, i: int, j: int)
    requires
        name_map::sorted(m.funcs),
        0 <= i < j < m.funcs.len(),
        lowering::is_lowered(m, i),
        lowering::is_lowered(m, j),
    ensures
        lowering::module_of(m, i).name != lowering::module_of(m, j).name,
{
    lemma_module_name(m, i);
    lemma_module_name(m, j);
    lemma_names_distinct(m, i, j);
}

/// A design instantiates only modules of its own: whatever a lowered function
/// calls is lowered.
pub proof fn law_callees_are_lowered(m: TModule, i: int, j: int)
    requires
        m.funcs.len() <= usize::MAX,
        0 <= i < m.funcs.len(),
        0 <= j < m.funcs.len(),
        lowering::is_lowered(m, i),
        scan::block_has(m.funcs[i].1.body, Sought::Call(m.funcs[j].0)),
    ensures
        lowering::is_lowered(m, j),
{
    let n = m.funcs.len();
    let cs = hdl::call_graph(m)[i];
    hdl::lemma_called_all(m, m.funcs[i].1.body, 0, j);
    let x = choose|x: int| 0 <= x < cs.len() && #[trigger] cs[x] == j;
    lemma_callee(m, cs, 0, (n - 1) as nat, x);
    lemma_lowered_more(m, j, (n - 1) as nat, n);
}

} // verus!
