//! What simulating a module does: what its wires carry, and when there is nothing to say.

use crate::arith;
use crate::netlist::{self, Dir, NExpr, NItem, NModule, NPort, Wires};
use crate::semantics;
use crate::text::Text;
use vstd::arithmetic::power2::*;
use vstd::prelude::*;

verus! {

/// What `width` wires carry of the number `v`: its lowest bits.
pub open spec fn carried(v: int, width: u32) -> int {
    v % (pow2(if width < 128 {
        width as nat
    } else {
        128
    }) as int)
}

proof fn lemma_carried(v: u128, width: u32)
    ensures
        netlist::truncated(v, width) as int == carried(v as int, width),
{
    arith::law_wrap_range(v as int, width);
    arith::lemma_two128();
}

/// A wire carries the lowest bits of the value that drives it, as many as it is wide; the wires
/// before it are as they were.
pub proof fn law_wires_carry_their_width(
    d: Seq<NModule>,
    depth: nat,
    ps: Seq<NPort>,
    name: Text,
    width: u32,
    value: NExpr,
    env: Wires,
)
    ensures
        netlist::run_item(d, depth, ps, NItem::Wire { name, width, value }, env) matches Some(e)
            && e.len() == env.len() + 1 && e.drop_last() == env && e.last().0 == name && (
        e.last().1 as int) == carried(value.value(env) as int, width),
{
    lemma_carried(value.value(env), width);
    let v = netlist::truncated(value.value(env), width);
    assert(env.push((name, v)).drop_last() =~= env);
}

/// An instance carries, on the wire of its output, the lowest bits of what its module gives for
/// the values of its connections.
pub proof fn law_instances_carry_their_modules(
    d: Seq<NModule>,
    depth: nat,
    ps: Seq<NPort>,
    module: Text,
    inst: Text,
    conns: Seq<(Text, NExpr)>,
    out_wire: Text,
    out_width: u32,
    env: Wires,
    v: u128,
)
    ensures
        ({
            let given = Seq::new(conns.len(), |i: int| (conns[i].0, conns[i].1.value(env)));
            let r = netlist::run_item(
                d,
                depth,
                ps,
                NItem::Instance { module, inst, conns, out_wire, out_width },
                env,
            );
            &&& netlist::run(d, depth, module, given) is None ==> r is None
            &&& netlist::run(d, depth, module, given) == Some(v) ==> (r matches Some(e) && e.len()
                == env.len() + 1 && e.drop_last() == env && e.last().0 == out_wire && (
            e.last().1 as int) == carried(v as int, out_width))
        }),
{
    let given = Seq::new(conns.len(), |i: int| (conns[i].0, conns[i].1.value(env)));
    assert(netlist::conn_values(conns, env) =~= given);
    lemma_carried(v, out_width);
    assert(env.push((out_wire, netlist::truncated(v, out_width))).drop_last() =~= env);
}

/// Whether the wires are those of the input ports from position `i` on, each with the lowest bits
/// of what is put on it.
pub open spec fn driven(ps: Seq<NPort>, inputs: Wires, i: int, env: Wires, k: int) -> bool
    decreases ps.len() - i,
{
    if i < 0 || i >= ps.len() {
        k == env.len()
    } else if ps[i].dir == Dir::Output {
        driven(ps, inputs, i + 1, env, k)
    } else {
        &&& 0 <= k < env.len()
        &&& env[k].0 == ps[i].name
        &&& semantics::slot(inputs, ps[i].name) matches Some(p) && env[k].1 as int == carried(
            inputs[p].1 as int,
            ps[i].width,
        )
        &&& driven(ps, inputs, i + 1, env, k + 1)
    }
}

proof fn lemma_drive(ps: Seq<NPort>, inputs: Wires, i: int, env: Wires)
    requires
        0 <= i <= ps.len(),
    ensures
        netlist::drive(ps, inputs, i, env) matches Some(e) ==> e.len() >= env.len() && e.subrange(
            0,
            env.len() as int,
        ) == env && driven(ps, inputs, i, e, env.len() as int),
        netlist::drive(ps, inputs, i, env) is None <==> exists|j: int|
            i <= j < ps.len() && (#[trigger] ps[j]).dir == Dir::Input && semantics::slot(
                inputs,
                ps[j].name,
            ) is None,
    decreases ps.len() - i,
{
    if i < ps.len() {
        if ps[i].dir == Dir::Output {
            lemma_drive(ps, inputs, i + 1, env);
        } else {
            match semantics::slot(inputs, ps[i].name) {
                None => {
                    assert(ps[i].dir == Dir::Input);
                },
                Some(p) => {
                    let v = netlist::truncated(inputs[p].1, ps[i].width);
                    lemma_carried(inputs[p].1, ps[i].width);
                    let next = env.push((ps[i].name, v));
                    lemma_drive(ps, inputs, i + 1, next);
                    if let Some(e) = netlist::drive(ps, inputs, i + 1, next) {
                        assert(e.subrange(0, next.len() as int)[env.len() as int] == next[
                        env.len() as int]);
                        assert(e.subrange(0, env.len() as int) =~= e.subrange(
                            0,
                            next.len() as int,
                        ).subrange(0, env.len() as int));
                        assert(next.subrange(0, env.len() as int) =~= env);
                    }
                },
            }
        }
    } else {
        assert(env.subrange(0, env.len() as int) =~= env);
    }
}

/// The input ports carry what is put on them by their names, cut to their widths; where one of
/// them gets nothing, there is no result.
pub proof fn law_inputs_are_put_on_ports(ps: Seq<NPort>, inputs: Wires)
    ensures
        netlist::drive(ps, inputs, 0, Seq::empty()) matches Some(e) ==> driven(ps, inputs, 0, e, 0),
        netlist::drive(ps, inputs, 0, Seq::empty()) is None <==> exists|j: int|
            0 <= j < ps.len() && (#[trigger] ps[j]).dir == Dir::Input && semantics::slot(
                inputs,
                ps[j].name,
            ) is None,
{
    lemma_drive(ps, inputs, 0, Seq::empty());
}

/// The output carries the lowest bits of what is assigned to it, as many as it is wide.
pub proof fn law_outputs_carry_their_width(
    d: Seq<NModule>,
    depth: nat,
    ps: Seq<NPort>,
    k: int,
    rhs: NExpr,
    env: Wires,
)
    requires
        0 <= k < ps.len(),
        forall|j: int| 0 <= j < k ==> (#[trigger] ps[j]).name != ps[k].name,
    ensures
        netlist::run_item(d, depth, ps, NItem::Assign { lhs: ps[k].name, rhs }, env) matches Some(e)
            && e.len() == env.len() + 1 && e.drop_last() == env && e.last().0 == ps[k].name && (
        e.last().1 as int) == carried(rhs.value(env) as int, ps[k].width),
{
    lemma_port_width(ps, k, 0);
    lemma_carried(rhs.value(env), ps[k].width);
    let v = netlist::truncated(rhs.value(env), ps[k].width);
    assert(env.push((ps[k].name, v)).drop_last() =~= env);
}

proof fn lemma_port_width(ps: Seq<NPort>, k: int, i: int)
    requires
        0 <= i <= k < ps.len(),
        forall|j: int| 0 <= j < k ==> (#[trigger] ps[j]).name != ps[k].name,
    ensures
        netlist::port_width(ps, ps[k].name, i) == Some(ps[k].width),
    decreases k - i,
{
    if i < k {
        lemma_port_width(ps, k, i + 1);
    }
}

/// A module gives what its items, one behind the other, leave on `out`.
pub proof fn law_modules_give_what_is_on_out(
    d: Seq<NModule>,
    depth: nat,
    k: int,
    inputs: Wires,
    env: Wires,
    last: Wires,
    p: int,
)
    requires
        depth > 0,
        0 <= k < d.len(),
        forall|j: int| 0 <= j < k ==> (#[trigger] d[j]).name != d[k].name,
        netlist::drive(d[k].ports, inputs, 0, Seq::empty()) == Some(env),
        netlist::run_items(d, (depth - 1) as nat, d[k].ports, d[k].items, 0, env) == Some(last),
        0 <= p < last.len(),
        last[p].0 == "out"@,
        forall|j: int| p < j < last.len() ==> (#[trigger] last[j]).0 != "out"@,
    ensures
        netlist::run(d, depth, d[k].name, inputs) == Some(last[p].1),
{
    lemma_module(d, k, 0);
    lemma_last(last, "out"@, last.len() as int, p);
}

proof fn lemma_module(d: Seq<NModule>, k: int, i: int)
    requires
        0 <= i <= k < d.len(),
        forall|j: int| 0 <= j < k ==> (#[trigger] d[j]).name != d[k].name,
    ensures
        netlist::module_at(d, d[k].name, i) == Some(k),
    decreases k - i,
{
    if i < k {
        lemma_module(d, k, i + 1);
    }
}

proof fn lemma_last(env: Wires, n: Text, i: int, p: int)
    requires
        0 <= p < i <= env.len(),
        env[p].0 == n,
        forall|j: int| p < j < i ==> (#[trigger] env[j]).0 != n,
    ensures
        semantics::slot_before(env, n, i) == Some(p),
    decreases i,
{
    if p < i - 1 {
        lemma_last(env, n, i - 1, p);
    }
}

/// A name means the last wire of that name, and one that there is not carries zero.
pub proof fn law_wires_by_name(env: Wires, n: Text, p: int)
    ensures
        0 <= p < env.len() && env[p].0 == n && (forall|j: int|
            p < j < env.len() ==> (#[trigger] env[j]).0 != n) ==> netlist::on_wire(env, n) == env[p].1,
        (forall|j: int| 0 <= j < env.len() ==> (#[trigger] env[j]).0 != n) ==> netlist::on_wire(env, n)
            == 0,
{
    if 0 <= p < env.len() && env[p].0 == n && (forall|j: int|
        p < j < env.len() ==> (#[trigger] env[j]).0 != n) {
        lemma_last(env, n, env.len() as int, p);
    }
    if forall|j: int| 0 <= j < env.len() ==> (#[trigger] env[j]).0 != n {
        lemma_nowhere(env, n, env.len() as int);
    }
}

proof fn lemma_nowhere(env: Wires, n: Text, i: int)
    requires
        0 <= i <= env.len(),
        forall|j: int| 0 <= j < env.len() ==> (#[trigger] env[j]).0 != n,
    ensures
        semantics::slot_before(env, n, i) is None,
    decreases i,
{
    if i > 0 {
        lemma_nowhere(env, n, i - 1);
    }
}

} // verus!
