//! The lines of a module in the target language, read back.

use crate::netlist::{Dir, NItem, NPort};
use crate::netlist::{self, NExpr, Wires};
use crate::text::{self, Text};
use crate::verilog_text;
use vstd::prelude::*;

verus! {

/// The width that a range at `i` declares, and where the range ends: `[h:0]` and a blank
/// declare `h + 1` bits, and no range one.
pub open spec fn read_range(t: Text, i: int) -> Option<(int, int)> {
    if verilog_text::char_at(t, i) == '[' {
        let j = verilog_text::digits_end(t, i + 1);
        if i + 1 < j && verilog_text::char_at(t, j) == ':' && verilog_text::char_at(t, j + 1) == '0'
            && verilog_text::char_at(t, j + 2) == ']' && verilog_text::char_at(t, j + 3) == ' ' {
            Some((verilog_text::decimal(t, i + 1, j) + 1, j + 4))
        } else {
            None
        }
    } else {
        Some((1, i))
    }
}

/// A range and a name behind it: the width, the name and where the name ends.
pub open spec fn read_declared(t: Text, i: int) -> Option<(int, Text, int)> {
    match read_range(t, i) {
        Some((width, j)) => {
            let k = verilog_text::name_end(t, j);
            if j < k {
                Some((width, t.subrange(j, k), k))
            } else {
                None
            }
        },
        None => None,
    }
}

/// A port: whether it is an input, its width and its name.
pub open spec fn read_port(t: Text) -> Option<(bool, int, Text)> {
    if verilog_text::has(t, 0, "input "@) {
        match read_declared(t, 6) {
            Some((width, name, k)) => Some((true, width, name)),
            None => None,
        }
    } else if verilog_text::has(t, 0, "output "@) {
        match read_declared(t, 7) {
            Some((width, name, k)) => Some((false, width, name)),
            None => None,
        }
    } else {
        None
    }
}

/// The value behind `=` at `i`, up to the end of the line.
pub open spec fn read_driver(t: Text, i: int, w: Wires) -> Option<int> {
    if verilog_text::has(t, i, " = "@) {
        match verilog_text::read(t, i + 3, w) {
            Some((v, j)) => if verilog_text::has(t, j, ";\n"@) && j + 2 == t.len() {
                Some(v)
            } else {
                None
            },
            None => None,
        }
    } else {
        None
    }
}

/// A line that declares a wire with its driver: the name, the width and the value.
pub open spec fn read_wire(t: Text, w: Wires) -> Option<(Text, int, int)> {
    if verilog_text::has(t, 0, "    wire "@) {
        match read_declared(t, 9) {
            Some((width, name, k)) => match read_driver(t, k, w) {
                Some(v) => Some((name, width, v)),
                None => None,
            },
            None => None,
        }
    } else {
        None
    }
}

/// A line that drives a port: its name and the value.
pub open spec fn read_assign(t: Text, w: Wires) -> Option<(Text, int)> {
    if verilog_text::has(t, 0, "    assign "@) {
        let k = verilog_text::name_end(t, 11);
        match read_driver(t, k, w) {
            Some(v) => Some((t.subrange(11, k), v)),
            None => None,
        }
    } else {
        None
    }
}

proof fn lemma_name(t: Text, i: int, n: Text)
    requires
        verilog_text::has(t, i, n),
        verilog_text::is_name(n),
        !verilog_text::in_name(verilog_text::char_at(t, i + n.len())),
    ensures
        verilog_text::name_end(t, i) == i + n.len(),
        t.subrange(i, i + n.len()) == n,
        verilog_text::char_at(t, i) != '[',
{
    assert forall|k: int| 0 <= k < n.len() implies verilog_text::in_name(#[trigger] t[i + k]) by {
        assert(n[k] == t[i + k]);
    }
    verilog_text::lemma_name_run(t, i, n.len() as int);
    assert(t.subrange(i, i + n.len()) =~= n);
    assert(n[0] == t[i + 0]);
}

proof fn lemma_declared(t: Text, i: int, width: u32, n: Text)
    requires
        width >= 1,
        verilog_text::has(t, i, netlist::range_text(width) + n),
        verilog_text::is_name(n),
        !verilog_text::in_name(
            verilog_text::char_at(t, i + netlist::range_text(width).len() + n.len()),
        ),
    ensures
        read_declared(t, i) == Some(
            (width as int, n, i + netlist::range_text(width).len() + n.len()),
        ),
{
    let r = netlist::range_text(width);
    verilog_text::lemma_has_parts(t, i, r, n);
    lemma_name(t, i + r.len(), n);
    if width > 1 {
        reveal_strlit("[");
        reveal_strlit(":0] ");
        let d = text::dec((width - 1) as nat);
        assert(r == "["@ + d + ":0] "@);
        verilog_text::lemma_has_parts(t, i, "["@ + d, ":0] "@);
        verilog_text::lemma_has_parts(t, i, "["@, d);
        assert("["@[0] == t[i + 0]);
        verilog_text::lemma_decimal(t, i + 1, (width - 1) as nat);
        let j = i + 1 + d.len();
        assert(":0] "@[0] == t[j + 0] && ":0] "@[1] == t[j + 1] && ":0] "@[2] == t[j + 2]
            && ":0] "@[3] == t[j + 3]);
        verilog_text::lemma_digits_run(t, i + 1, d.len() as int);
    }
}

/// A port is declared as what it is: its direction, its width and its name can be read
/// back from its text.
pub proof fn law_ports_are_read_back(p: NPort)
    requires
        p.width >= 1,
        verilog_text::is_name(p.name),
    ensures
        read_port(p.show()) == Some((p.dir == Dir::Input, p.width as int, p.name)),
{
    reveal_strlit("input ");
    reveal_strlit("output ");
    let head = match p.dir {
        Dir::Input => "input "@,
        Dir::Output => "output "@,
    };
    let r = netlist::range_text(p.width);
    let t = p.show();
    assert(t == head + r + p.name);
    assert(t =~= head + (r + p.name));
    verilog_text::lemma_has_parts(t, 0, head, r + p.name);
    assert(head[0] == t[0int + 0]);
    if p.dir == Dir::Output {
        assert("input "@[0] != t[0int + 0]);
    }
    lemma_declared(t, head.len() as int, p.width, p.name);
}

proof fn lemma_driver(t: Text, i: int, w: Wires, e: NExpr)
    requires
        verilog_text::readable(e),
        verilog_text::has(t, i, " = "@ + e.show() + ";\n"@),
        i + 3 + e.show().len() + 2 == t.len(),
    ensures
        read_driver(t, i, w) == Some(e.value(w) as int),
{
    reveal_strlit(" = ");
    reveal_strlit(";\n");
    verilog_text::lemma_has_parts(t, i, " = "@ + e.show(), ";\n"@);
    verilog_text::lemma_has_parts(t, i, " = "@, e.show());
    let j = i + 3 + e.show().len();
    assert(";\n"@[0] == t[j + 0]);
    verilog_text::lemma_read(t, i + 3, w, e);
}

/// The line of a wire declares it with its name and its width and drives it with its
/// value, whatever the other wires carry.
pub proof fn law_wires_are_read_back(name: Text, width: u32, value: NExpr, w: Wires)
    requires
        width >= 1,
        verilog_text::is_name(name),
        verilog_text::readable(value),
    ensures
        read_wire((NItem::Wire { name, width, value }).show(), w) == Some(
            (name, width as int, value.value(w) as int),
        ),
{
    reveal_strlit("    wire ");
    reveal_strlit(" = ");
    reveal_strlit(";\n");
    let r = netlist::range_text(width);
    let e = value.show();
    let t = (NItem::Wire { name, width, value }).show();
    assert(t == "    wire "@ + r + name + " = "@ + e + ";\n"@);
    assert(t =~= ("    wire "@ + (r + name)) + (" = "@ + e + ";\n"@));
    verilog_text::lemma_has_parts(t, 0, "    wire "@ + (r + name), " = "@ + e + ";\n"@);
    verilog_text::lemma_has_parts(t, 0, "    wire "@, r + name);
    let k = 9int + r.len() + name.len();
    assert((" = "@ + e + ";\n"@)[0] == t[k + 0]);
    assert((" = "@ + e + ";\n"@)[0] == ' ');
    lemma_declared(t, 9, width, name);
    lemma_driver(t, k, w, value);
}

/// The line that drives a port names it and gives it its value.
pub proof fn law_assignments_are_read_back(lhs: Text, rhs: NExpr, w: Wires)
    requires
        verilog_text::is_name(lhs),
        verilog_text::readable(rhs),
    ensures
        read_assign((NItem::Assign { lhs, rhs }).show(), w) == Some((lhs, rhs.value(w) as int)),
{
    reveal_strlit("    assign ");
    reveal_strlit(" = ");
    reveal_strlit(";\n");
    let e = rhs.show();
    let t = (NItem::Assign { lhs, rhs }).show();
    assert(t == "    assign "@ + lhs + " = "@ + e + ";\n"@);
    assert(t =~= ("    assign "@ + lhs) + (" = "@ + e + ";\n"@));
    verilog_text::lemma_has_parts(t, 0, "    assign "@ + lhs, " = "@ + e + ";\n"@);
    verilog_text::lemma_has_parts(t, 0, "    assign "@, lhs);
    let k = 11int + lhs.len();
    assert((" = "@ + e + ";\n"@)[0] == t[k + 0]);
    assert((" = "@ + e + ";\n"@)[0] == ' ');
    lemma_name(t, 11, lhs);
    lemma_driver(t, k, w, rhs);
}

// ---- instances ----------------------------------------------------------

/// The connections of an instance from `i` on, `.name(value)` with a comma and a blank
/// between two, and where the bracket behind them closes.
pub open spec fn read_connections(t: Text, i: int, w: Wires) -> Option<(Seq<(Text, int)>, int)>
    decreases t.len() - i,
{
    let j = verilog_text::name_end(t, i + 1);
    if i < 0 || i >= t.len() || verilog_text::char_at(t, i) != '.' || j <= i + 1
        || verilog_text::char_at(t, j) != '(' {
        None
    } else {
        match verilog_text::read(t, j + 1, w) {
            Some((v, k)) => if verilog_text::char_at(t, k) != ')' || k <= j {
                None
            } else if verilog_text::char_at(t, k + 1) == ',' && verilog_text::char_at(t, k + 2) == ' ' {
                match read_connections(t, k + 3, w) {
                    Some((rest, e)) => Some((seq![(t.subrange(i + 1, j), v)] + rest, e)),
                    None => None,
                }
            } else {
                Some((seq![(t.subrange(i + 1, j), v)], k + 1))
            },
            None => None,
        }
    }
}

/// An instance: a line that declares the wire for its output, then the module, the name of
/// the instance and the connections. What is read is the wire and its width, the module,
/// the name and the connections.
pub open spec fn read_instance(t: Text, w: Wires) -> Option<(Text, int, Text, Text, Seq<(Text, int)>)> {
    if !verilog_text::has(t, 0, "    wire "@) {
        None
    } else {
        match read_declared(t, 9) {
            None => None,
            Some((width, out, k)) => {
                let a = verilog_text::name_end(t, k + 6);
                let b = verilog_text::name_end(t, a + 1);
                if verilog_text::has(t, k, ";\n    "@) && k + 6 < a && verilog_text::char_at(t, a) == ' '
                    && a + 1 < b && verilog_text::has(t, b, " ("@) {
                    match read_connections(t, b + 2, w) {
                        Some((cs, e)) => if verilog_text::has(t, e, ");\n"@) && e + 3 == t.len() {
                            Some((out, width, t.subrange(k + 6, a), t.subrange(a + 1, b), cs))
                        } else {
                            None
                        },
                        None => None,
                    }
                } else {
                    None
                }
            },
        }
    }
}

/// The connections of an instance and that of its output.
pub open spec fn all_connections(conns: Seq<(Text, NExpr)>, out_wire: Text) -> Seq<(Text, NExpr)> {
    conns.push(("out"@, NExpr::Ref(out_wire)))
}

spec fn connection_text(c: (Text, NExpr)) -> Text {
    "."@ + c.0 + "("@ + c.1.show() + ")"@
}

/// The texts from position `i` on, with a comma and a blank between two.
spec fn listed(cs: Seq<(Text, NExpr)>, i: int) -> Text
    decreases cs.len() - i,
{
    if i < 0 || i >= cs.len() {
        Seq::empty()
    } else if i == cs.len() - 1 {
        connection_text(cs[i])
    } else {
        connection_text(cs[i]) + (", "@ + listed(cs, i + 1))
    }
}

proof fn lemma_listed(cs: Seq<(Text, NExpr)>, parts: Seq<Text>, i: int, acc: Text)
    requires
        0 <= i < cs.len(),
        parts.len() == cs.len(),
        forall|k: int| 0 <= k < cs.len() ==> #[trigger] parts[k] == connection_text(cs[k]),
    ensures
        text::join_from(parts, ", "@, i, acc) == acc + (if i > 0 {
            ", "@
        } else {
            Seq::empty()
        }) + listed(cs, i),
    decreases cs.len() - i,
{
    let head = if i > 0 {
        ", "@
    } else {
        Seq::empty()
    };
    let next = acc + head + parts[i];
    assert(parts[i] == connection_text(cs[i]));
    if i + 1 < cs.len() {
        lemma_listed(cs, parts, i + 1, next);
        assert(next + ", "@ + listed(cs, i + 1) =~= acc + head + listed(cs, i));
    } else {
        assert(text::join_from(parts, ", "@, i + 1, next) == next);
        assert(next =~= acc + head + listed(cs, i));
    }
    if i == 0 {
        assert(acc + parts[i] =~= next);
    }
}

proof fn lemma_connections(t: Text, i: int, w: Wires, cs: Seq<(Text, NExpr)>, n: int)
    requires
        0 <= n < cs.len(),
        forall|k: int|
            0 <= k < cs.len() ==> verilog_text::is_name((#[trigger] cs[k]).0)
                && verilog_text::readable(cs[k].1),
        verilog_text::has(t, i, listed(cs, n)),
        verilog_text::char_at(t, i + listed(cs, n).len()) == ')',
    ensures
        read_connections(t, i, w) == Some(
            (
                Seq::new((cs.len() - n) as nat, |k: int| (cs[n + k].0, cs[n + k].1.value(w) as int)),
                i + listed(cs, n).len(),
            ),
        ),
    decreases cs.len() - n,
{
    reveal_strlit(".");
    reveal_strlit("(");
    reveal_strlit(")");
    reveal_strlit(", ");
    let c = cs[n];
    let x = connection_text(c);
    let e = c.1.show();
    if n + 1 < cs.len() {
        verilog_text::lemma_has_parts(t, i, x, ", "@ + listed(cs, n + 1));
        verilog_text::lemma_has_parts(t, i + x.len(), ", "@, listed(cs, n + 1));
    }
    verilog_text::lemma_has_parts(t, i, "."@ + c.0 + "("@ + e, ")"@);
    verilog_text::lemma_has_parts(t, i, "."@ + c.0 + "("@, e);
    verilog_text::lemma_has_parts(t, i, "."@ + c.0, "("@);
    verilog_text::lemma_has_parts(t, i, "."@, c.0);
    let j = i + 1 + c.0.len();
    let k = j + 1 + e.len();
    assert("."@[0] == t[i + 0]);
    assert("("@[0] == t[j + 0]);
    assert(")"@[0] == t[k + 0]);
    lemma_name(t, i + 1, c.0);
    verilog_text::lemma_read(t, j + 1, w, c.1);
    assert(k + 1 == i + x.len());
    let all = Seq::new((cs.len() - n) as nat, |k: int| (cs[n + k].0, cs[n + k].1.value(w) as int));
    if n + 1 < cs.len() {
        assert(", "@[0] == t[k + 1 + 0] && ", "@[1] == t[k + 1 + 1]);
        lemma_connections(t, k + 3, w, cs, n + 1);
        let rest = Seq::new(
            (cs.len() - (n + 1)) as nat,
            |k: int| (cs[n + 1 + k].0, cs[n + 1 + k].1.value(w) as int),
        );
        assert(all =~= seq![(c.0, c.1.value(w) as int)] + rest);
    } else {
        assert(all =~= seq![(c.0, c.1.value(w) as int)]);
    }
}

/// The lines of an instance declare the wire for its output with its width, name the module
/// and the instance, and connect each input to its value and the output to the wire.
pub proof fn law_instances_are_read_back(
    module: Text,
    inst: Text,
    conns: Seq<(Text, NExpr)>,
    out_wire: Text,
    out_width: u32,
    w: Wires,
)
    requires
        out_width >= 1,
        verilog_text::is_name(module),
        verilog_text::is_name(inst),
        verilog_text::is_name(out_wire),
        forall|k: int|
            0 <= k < conns.len() ==> verilog_text::is_name((#[trigger] conns[k]).0)
                && verilog_text::readable(conns[k].1),
    ensures
        ({
            let cs = all_connections(conns, out_wire);
            read_instance((NItem::Instance { module, inst, conns, out_wire, out_width }).show(), w)
                == Some(
                (
                    out_wire,
                    out_width as int,
                    module,
                    inst,
                    Seq::new(cs.len(), |k: int| (cs[k].0, cs[k].1.value(w) as int)),
                ),
            )
        }),
{
    let cs = all_connections(conns, out_wire);
    let r = netlist::range_text(out_width);
    let l = listed(cs, 0);
    let t = (NItem::Instance { module, inst, conns, out_wire, out_width }).show();
    let tail = module + " "@ + inst + " ("@ + l + ");\n"@;
    lemma_instance_text(module, inst, conns, out_wire, out_width);
    assert forall|k: int| 0 <= k < cs.len() implies verilog_text::is_name((#[trigger] cs[k]).0)
        && verilog_text::readable(cs[k].1) by {
        if k < conns.len() {
            assert(cs[k] == conns[k]);
        } else {
            reveal_strlit("out");
            assert(cs[k].0 == "out"@);
        }
    }
    let k = 9int + r.len() + out_wire.len();
    lemma_instance_head(t, r, out_wire, out_width, tail);
    lemma_instance_tail(t, k, module, inst, cs, w);
}

/// The two halves of the text of an instance.
proof fn lemma_instance_text(
    module: Text,
    inst: Text,
    conns: Seq<(Text, NExpr)>,
    out_wire: Text,
    out_width: u32,
)
    ensures
        (NItem::Instance { module, inst, conns, out_wire, out_width }).show() == ("    wire "@ + (
        netlist::range_text(out_width) + out_wire)) + (";\n    "@ + (module + " "@ + inst + " ("@
            + listed(all_connections(conns, out_wire), 0) + ");\n"@)),
{
    reveal_strlit("out");
    reveal_strlit(".out(");
    reveal_strlit(".");
    reveal_strlit("(");
    let cs = all_connections(conns, out_wire);
    let r = netlist::range_text(out_width);
    let parts = netlist::conn_texts(conns, out_wire);
    assert forall|k: int| 0 <= k < cs.len() implies #[trigger] parts[k] == connection_text(
        cs[k],
    ) by {
        if k == conns.len() {
            assert("."@ + "out"@ + "("@ =~= ".out("@);
            assert(NExpr::Ref(out_wire).show() == out_wire);
        }
    }
    let l = listed(cs, 0);
    lemma_listed(cs, parts, 0, Seq::empty());
    assert(text::join_texts(parts, ", "@) =~= l);
    let tail = module + " "@ + inst + " ("@ + l + ");\n"@;
    assert(("    wire "@ + r + out_wire + ";\n    "@) + tail =~= ("    wire "@ + (r + out_wire))
        + (";\n    "@ + tail));
}

proof fn lemma_instance_head(t: Text, r: Text, out_wire: Text, out_width: u32, tail: Text)
    requires
        out_width >= 1,
        r == netlist::range_text(out_width),
        verilog_text::is_name(out_wire),
        t == ("    wire "@ + (r + out_wire)) + (";\n    "@ + tail),
    ensures
        ({
            let k = 9int + r.len() + out_wire.len();
            &&& verilog_text::has(t, 0, "    wire "@)
            &&& read_declared(t, 9) == Some((out_width as int, out_wire, k))
            &&& verilog_text::has(t, k, ";\n    "@)
            &&& verilog_text::has(t, k + 6, tail)
            &&& t.len() == k + 6 + tail.len()
        }),
{
    reveal_strlit("    wire ");
    reveal_strlit(";\n    ");
    let k = 9int + r.len() + out_wire.len();
    verilog_text::lemma_has_parts(t, 0, "    wire "@ + (r + out_wire), ";\n    "@ + tail);
    verilog_text::lemma_has_parts(t, 0, "    wire "@, r + out_wire);
    verilog_text::lemma_has_parts(t, k, ";\n    "@, tail);
    assert(";\n    "@[0] == t[k + 0]);
    lemma_declared(t, 9, out_width, out_wire);
}

proof fn lemma_instance_tail(
    t: Text,
    k: int,
    module: Text,
    inst: Text,
    cs: Seq<(Text, NExpr)>,
    w: Wires,
)
    requires
        0 <= k,
        verilog_text::is_name(module),
        verilog_text::is_name(inst),
        cs.len() > 0,
        forall|k: int|
            0 <= k < cs.len() ==> verilog_text::is_name((#[trigger] cs[k]).0)
                && verilog_text::readable(cs[k].1),
        verilog_text::has(
            t,
            k + 6,
            module + " "@ + inst + " ("@ + listed(cs, 0) + ");\n"@,
        ),
        t.len() == k + 6 + (module + " "@ + inst + " ("@ + listed(cs, 0) + ");\n"@).len(),
    ensures
        ({
            let a = verilog_text::name_end(t, k + 6);
            let b = verilog_text::name_end(t, a + 1);
            let e = b + 2 + listed(cs, 0).len();
            &&& k + 6 < a && verilog_text::char_at(t, a) == ' ' && a + 1 < b
            &&& verilog_text::has(t, b, " ("@)
            &&& t.subrange(k + 6, a) == module
            &&& t.subrange(a + 1, b) == inst
            &&& read_connections(t, b + 2, w) == Some(
                (Seq::new(cs.len(), |k: int| (cs[k].0, cs[k].1.value(w) as int)), e),
            )
            &&& verilog_text::has(t, e, ");\n"@)
            &&& e + 3 == t.len()
        }),
{
    reveal_strlit(" ");
    reveal_strlit(" (");
    reveal_strlit(");\n");
    let l = listed(cs, 0);
    let at = k + 6;
    verilog_text::lemma_has_parts(t, at, module + " "@ + inst + " ("@ + l, ");\n"@);
    verilog_text::lemma_has_parts(t, at, module + " "@ + inst + " ("@, l);
    verilog_text::lemma_has_parts(t, at, module + " "@ + inst, " ("@);
    verilog_text::lemma_has_parts(t, at, module + " "@, inst);
    verilog_text::lemma_has_parts(t, at, module, " "@);
    let a = at + module.len();
    let b = a + 1 + inst.len();
    assert(" "@[0] == t[a + 0]);
    assert(" ("@[0] == t[b + 0]);
    lemma_name(t, at, module);
    lemma_name(t, a + 1, inst);
    let e = b + 2 + l.len();
    assert(");\n"@[0] == t[e + 0]);
    lemma_connections(t, b + 2, w, cs, 0);
    let seen = Seq::new((cs.len() - 0) as nat, |k: int| (cs[0 + k].0, cs[0 + k].1.value(w) as int));
    assert(seen =~= Seq::new(cs.len(), |k: int| (cs[k].0, cs[k].1.value(w) as int)));
}

} // verus!
