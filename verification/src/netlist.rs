//! Netlists: the generated hardware designs, their text and their meaning.
//!
//! A module is a list of items in single-assignment form. Every value is unsigned
//! and every wire truncates to its declared width.

use crate::arith::{self, low_bits};
use crate::env::{self, find_slot};
use crate::ir::{BinOp, UnOp};
use crate::model;
use crate::semantics;
use crate::text::{self, cat2, cat3, cat4, cat5, cat6, cat7, join, str_eq, u128_text, u32_text, Text};
use vstd::arithmetic::power2::*;
use vstd::prelude::*;

verus! {

broadcast use {text::group_texts, model::group_views, env::group_locals};

/// A complete generated design: a set of modules.
#[derive(Debug, PartialEq)]
pub struct Design {
    pub modules: Vec<Module>,
}

/// A single module.
#[derive(Debug, PartialEq)]
pub struct Module {
    /// A valid identifier of the target language.
    pub name: String,
    pub ports: Vec<Port>,
    /// Body items, in order (declarations before use, SSA style).
    pub items: Vec<Item>,
}

#[derive(Clone, Copy, Debug, PartialEq, Eq, Structural)]
pub enum Dir {
    Input,
    Output,
}

/// A module port. Width 1 emits a scalar (no `[0:0]`).
#[derive(Clone, Debug, PartialEq, Eq)]
pub struct Port {
    pub dir: Dir,
    pub name: String,
    pub width: u32,
}

/// A module body item.
#[derive(Debug, PartialEq)]
#[allow(inconsistent_fields)]
pub enum Item {
    /// `wire [w-1:0] name = value;`
    Wire { name: String, width: u32, value: Expr },
    /// `assign lhs = rhs;`
    Assign { lhs: String, rhs: Expr },
    /// Instantiate a submodule, binding input ports to expressions and the
    /// `out` port to a freshly-declared wire `out_wire`.
    Instance {
        module: String,
        inst: String,
        /// (port name, driving expression)
        conns: Vec<(String, Expr)>,
        out_wire: String,
        out_width: u32,
    },
}

/// An expression. Operations carry the operator of the core IR, so a single
/// definition drives both the text and the evaluator.
#[derive(Debug, PartialEq)]
#[allow(inconsistent_fields)]
pub enum Expr {
    /// A sized literal, e.g. `8'd44`.
    Const { value: u128, width: u32 },
    /// A reference to a port or wire.
    Ref(String),
    Bin { op: BinOp, l: Box<Expr>, r: Box<Expr> },
    Un { op: UnOp, e: Box<Expr> },
    /// `c ? t : e`
    Ternary { c: Box<Expr>, t: Box<Expr>, e: Box<Expr> },
}

// ---- mathematical counterparts ------------------------------------------

pub struct NModule {
    pub name: Text,
    pub ports: Seq<NPort>,
    pub items: Seq<NItem>,
}

pub struct NPort {
    pub dir: Dir,
    pub name: Text,
    pub width: u32,
}

#[allow(inconsistent_fields)]
pub enum NItem {
    Wire { name: Text, width: u32, value: NExpr },
    Assign { lhs: Text, rhs: NExpr },
    Instance {
        module: Text,
        inst: Text,
        conns: Seq<(Text, NExpr)>,
        out_wire: Text,
        out_width: u32,
    },
}

#[allow(inconsistent_fields)]
pub enum NExpr {
    Const { value: u128, width: u32 },
    Ref(Text),
    Bin { op: BinOp, l: Box<NExpr>, r: Box<NExpr> },
    Un { op: UnOp, e: Box<NExpr> },
    Ternary { c: Box<NExpr>, t: Box<NExpr>, e: Box<NExpr> },
}

impl Expr {
    pub open spec fn model(&self) -> NExpr
        decreases self,
    {
        match self {
            Expr::Const { value, width } => NExpr::Const { value: *value, width: *width },
            Expr::Ref(n) => NExpr::Ref(n@),
            Expr::Bin { op, l, r } => NExpr::Bin {
                op: *op,
                l: Box::new(l.model()),
                r: Box::new(r.model()),
            },
            Expr::Un { op, e } => NExpr::Un { op: *op, e: Box::new(e.model()) },
            Expr::Ternary { c, t, e } => NExpr::Ternary {
                c: Box::new(c.model()),
                t: Box::new(t.model()),
                e: Box::new(e.model()),
            },
        }
    }
}

impl View for Expr {
    type V = NExpr;

    open spec fn view(&self) -> NExpr {
        self.model()
    }
}

impl View for Port {
    type V = NPort;

    open spec fn view(&self) -> NPort {
        NPort { dir: self.dir, name: self.name@, width: self.width }
    }
}

impl View for Item {
    type V = NItem;

    open spec fn view(&self) -> NItem {
        match *self {
            Item::Wire { name, width, value } => NItem::Wire { name: name@, width, value: value@ },
            Item::Assign { lhs, rhs } => NItem::Assign { lhs: lhs@, rhs: rhs@ },
            Item::Instance { module, inst, conns, out_wire, out_width } => NItem::Instance {
                module: module@,
                inst: inst@,
                conns: env::locals(conns@),
                out_wire: out_wire@,
                out_width,
            },
        }
    }
}

impl View for Module {
    type V = NModule;

    open spec fn view(&self) -> NModule {
        NModule {
            name: self.name@,
            ports: model::views(self.ports@),
            items: model::views(self.items@),
        }
    }
}

impl View for Design {
    type V = Seq<NModule>;

    open spec fn view(&self) -> Seq<NModule> {
        model::views(self.modules@)
    }
}

impl Expr {
    /// A copy of the expression.
    pub fn dup(&self) -> (r: Expr)
        ensures
            r@ == self@,
        decreases self,
    {
        match self {
            Expr::Const { value, width } => Expr::Const { value: *value, width: *width },
            Expr::Ref(n) => Expr::Ref(n.clone()),
            Expr::Bin { op, l, r } => Expr::Bin {
                op: *op,
                l: Box::new(l.dup()),
                r: Box::new(r.dup()),
            },
            Expr::Un { op, e } => Expr::Un { op: *op, e: Box::new(e.dup()) },
            Expr::Ternary { c, t, e } => Expr::Ternary {
                c: Box::new(c.dup()),
                t: Box::new(t.dup()),
                e: Box::new(e.dup()),
            },
        }
    }
}

// ---- ports --------------------------------------------------------------

/// The position of the first port from `i` on that drives in direction `dir`.
pub open spec fn port_towards(ps: Seq<NPort>, dir: Dir, i: int) -> Option<int>
    decreases ps.len() - i,
{
    if i < 0 || i >= ps.len() {
        None
    } else if ps[i].dir == dir {
        Some(i)
    } else {
        port_towards(ps, dir, i + 1)
    }
}

/// The input ports from position `i` on.
pub open spec fn inputs_from(ps: Seq<NPort>, i: int) -> Seq<NPort>
    decreases ps.len() - i,
{
    if i < 0 || i >= ps.len() {
        Seq::empty()
    } else if ps[i].dir == Dir::Input {
        seq![ps[i]] + inputs_from(ps, i + 1)
    } else {
        inputs_from(ps, i + 1)
    }
}

/// The ports, by view.
pub open spec fn ports_of(ps: Seq<&Port>) -> Seq<NPort> {
    Seq::new(ps.len(), |i: int| ps[i]@)
}

impl Module {
    /// The input ports, in order.
    pub fn input_ports(&self) -> (r: Vec<&Port>)
        ensures
            ports_of(r@) == inputs_from(self@.ports, 0),
    {
        let ghost ps = self@.ports;
        let mut out: Vec<&Port> = Vec::new();
        let mut i: usize = 0;
        assert(ports_of(out@) + inputs_from(ps, 0) =~= inputs_from(ps, 0));
        while i < self.ports.len()
            invariant
                i <= self.ports.len(),
                ps == self@.ports,
                inputs_from(ps, 0) == ports_of(out@) + inputs_from(ps, i as int),
            decreases self.ports.len() - i,
        {
            assert(ps[i as int] == self.ports[i as int]@);
            let ghost before = ports_of(out@);
            let ghost rest = inputs_from(ps, i as int + 1);
            if self.ports[i].dir == Dir::Input {
                out.push(&self.ports[i]);
                assert(ports_of(out@) =~= before.push(ps[i as int]));
                assert(before + (seq![ps[i as int]] + rest) =~= ports_of(out@) + rest);
            }
            i += 1;
        }
        assert(ports_of(out@) + Seq::<NPort>::empty() =~= ports_of(out@));
        out
    }

    /// The first output port, which must exist.
    pub fn output_port(&self) -> (r: &Port)
        requires
            port_towards(self@.ports, Dir::Output, 0) is Some,
        ensures
            port_towards(self@.ports, Dir::Output, 0) matches Some(i) && r@ == self@.ports[i],
    {
        let ghost ps = self@.ports;
        let mut i: usize = 0;
        while i < self.ports.len() && self.ports[i].dir != Dir::Output
            invariant
                i <= self.ports.len(),
                ps == self@.ports,
                port_towards(ps, Dir::Output, 0) is Some,
                port_towards(ps, Dir::Output, 0) == port_towards(ps, Dir::Output, i as int),
            decreases self.ports.len() - i,
        {
            assert(ps[i as int] == self.ports[i as int]@);
            i += 1;
        }
        assert(i < ps.len());
        assert(ps[i as int] == self.ports[i as int]@);
        &self.ports[i]
    }
}

// ---- text ---------------------------------------------------------------

pub open spec fn binop_text(op: BinOp) -> Text {
    match op {
        BinOp::Add => "+"@,
        BinOp::Sub => "-"@,
        BinOp::Mul => "*"@,
        BinOp::Div => "/"@,
        BinOp::Rem => "%"@,
        BinOp::And => "&&"@,
        BinOp::Or => "||"@,
        BinOp::BitAnd => "&"@,
        BinOp::BitOr => "|"@,
        BinOp::BitXor => "^"@,
        BinOp::Shl => "<<"@,
        BinOp::Shr => ">>"@,
        BinOp::Eq => "=="@,
        BinOp::Ne => "!="@,
        BinOp::Lt => "<"@,
        BinOp::Le => "<="@,
        BinOp::Gt => ">"@,
        BinOp::Ge => ">="@,
    }
}

pub open spec fn unop_text(op: UnOp) -> Text {
    match op {
        UnOp::Neg => "-"@,
        UnOp::Not => "~"@,
    }
}

impl NExpr {
    pub open spec fn show(self) -> Text
        decreases self,
    {
        match self {
            NExpr::Const { value, width } => text::dec(
                if width == 0 {
                    1
                } else {
                    width as nat
                },
            ) + "'d"@ + text::dec(value as nat),
            NExpr::Ref(n) => n,
            NExpr::Bin { op, l, r } => "("@ + l.show() + " "@ + binop_text(op) + " "@ + r.show()
                + ")"@,
            NExpr::Un { op, e } => "("@ + unop_text(op) + e.show() + ")"@,
            NExpr::Ternary { c, t, e } => "("@ + c.show() + " ? "@ + t.show() + " : "@ + e.show()
                + ")"@,
        }
    }
}

/// The range of a declaration; a single bit has none.
pub open spec fn range_text(width: u32) -> Text {
    if width <= 1 {
        Seq::empty()
    } else {
        "["@ + text::dec((width - 1) as nat) + ":0] "@
    }
}

impl NPort {
    pub open spec fn show(self) -> Text {
        (match self.dir {
            Dir::Input => "input "@,
            Dir::Output => "output "@,
        }) + range_text(self.width) + self.name
    }
}

/// The connections of an instance, and that of its output.
pub open spec fn conn_texts(conns: Seq<(Text, NExpr)>, out_wire: Text) -> Seq<Text> {
    Seq::new(conns.len(), |i: int| "."@ + conns[i].0 + "("@ + conns[i].1.show() + ")"@).push(
        ".out("@ + out_wire + ")"@,
    )
}

impl NItem {
    pub open spec fn show(self) -> Text {
        match self {
            NItem::Wire { name, width, value } => "    wire "@ + range_text(width) + name + " = "@
                + value.show() + ";\n"@,
            NItem::Assign { lhs, rhs } => "    assign "@ + lhs + " = "@ + rhs.show() + ";\n"@,
            NItem::Instance { module, inst, conns, out_wire, out_width } => ("    wire "@
                + range_text(out_width) + out_wire + ";\n    "@) + (module + " "@ + inst + " ("@
                + text::join_texts(conn_texts(conns, out_wire), ", "@) + ");\n"@),
        }
    }
}

impl NModule {
    pub open spec fn show(self) -> Text {
        "module "@ + self.name + " (\n    "@ + text::join_texts(
            Seq::new(self.ports.len(), |i: int| self.ports[i].show()),
            ",\n    "@,
        ) + "\n);\n"@ + text::join_texts(
            Seq::new(self.items.len(), |i: int| self.items[i].show()),
            Seq::empty(),
        ) + "endmodule"@
    }
}

/// The text of a design.
pub open spec fn design_text(d: Seq<NModule>) -> Text {
    text::join_texts(Seq::new(d.len(), |i: int| d[i].show()), "\n"@)
}

fn binop_str(op: BinOp) -> (r: &'static str)
    ensures
        r@ == binop_text(op),
{
    match op {
        BinOp::Add => "+",
        BinOp::Sub => "-",
        BinOp::Mul => "*",
        BinOp::Div => "/",
        BinOp::Rem => "%",
        BinOp::And => "&&",
        BinOp::Or => "||",
        BinOp::BitAnd => "&",
        BinOp::BitOr => "|",
        BinOp::BitXor => "^",
        BinOp::Shl => "<<",
        BinOp::Shr => ">>",
        BinOp::Eq => "==",
        BinOp::Ne => "!=",
        BinOp::Lt => "<",
        BinOp::Le => "<=",
        BinOp::Gt => ">",
        BinOp::Ge => ">=",
    }
}

fn unop_str(op: UnOp) -> (r: &'static str)
    ensures
        r@ == unop_text(op),
{
    match op {
        UnOp::Neg => "-",
        UnOp::Not => "~",
    }
}

impl Expr {
    /// The expression as text.
    pub fn to_text(&self) -> (r: String)
        ensures
            r@ == self@.show(),
        decreases self,
    {
        match self {
            Expr::Const { value, width } => {
                let w = u32_text(
                    if *width == 0 {
                        1
                    } else {
                        *width
                    },
                );
                let v = u128_text(*value);
                cat3(w.as_str(), "'d", v.as_str())
            },
            Expr::Ref(n) => n.clone(),
            Expr::Bin { op, l, r } => {
                let a = l.to_text();
                let b = r.to_text();
                cat7("(", a.as_str(), " ", binop_str(*op), " ", b.as_str(), ")")
            },
            Expr::Un { op, e } => {
                let a = e.to_text();
                cat4("(", unop_str(*op), a.as_str(), ")")
            },
            Expr::Ternary { c, t, e } => {
                let x = c.to_text();
                let y = t.to_text();
                let z = e.to_text();
                cat7("(", x.as_str(), " ? ", y.as_str(), " : ", z.as_str(), ")")
            },
        }
    }
}

fn decl_range(width: u32) -> (r: String)
    ensures
        r@ == range_text(width),
{
    if width <= 1 {
        let s = String::new();
        assert(s@ =~= Seq::<char>::empty());
        s
    } else {
        let w = u32_text(width - 1);
        cat3("[", w.as_str(), ":0] ")
    }
}

impl Port {
    /// The declaration of the port.
    pub fn to_text(&self) -> (r: String)
        ensures
            r@ == self@.show(),
    {
        let range = decl_range(self.width);
        match self.dir {
            Dir::Input => cat3("input ", range.as_str(), self.name.as_str()),
            Dir::Output => cat3("output ", range.as_str(), self.name.as_str()),
        }
    }
}

fn conn_list(conns: &Vec<(String, Expr)>, out_wire: &String) -> (r: Vec<String>)
    ensures
        text::texts(r@) == conn_texts(env::locals(conns@), out_wire@),
{
    let ghost ms = env::locals(conns@);
    let mut out: Vec<String> = Vec::new();
    let mut i: usize = 0;
    while i < conns.len()
        invariant
            i <= conns.len(),
            ms == env::locals(conns@),
            out.len() == i,
            forall|j: int|
                0 <= j < i ==> #[trigger] out[j]@ == "."@ + ms[j].0 + "("@ + ms[j].1.show() + ")"@,
        decreases conns.len() - i,
    {
        assert(ms[i as int] == (conns[i as int].0@, conns[i as int].1@));
        let e = conns[i].1.to_text();
        out.push(cat5(".", conns[i].0.as_str(), "(", e.as_str(), ")"));
        i += 1;
    }
    out.push(cat3(".out(", out_wire.as_str(), ")"));
    assert(text::texts(out@) =~= conn_texts(ms, out_wire@));
    out
}

impl Item {
    /// The item as text.
    pub fn to_text(&self) -> (r: String)
        ensures
            r@ == self@.show(),
    {
        match self {
            Item::Wire { name, width, value } => {
                let range = decl_range(*width);
                let v = value.to_text();
                cat6("    wire ", range.as_str(), name.as_str(), " = ", v.as_str(), ";\n")
            },
            Item::Assign { lhs, rhs } => {
                let v = rhs.to_text();
                cat5("    assign ", lhs.as_str(), " = ", v.as_str(), ";\n")
            },
            Item::Instance { module, inst, conns, out_wire, out_width } => {
                let range = decl_range(*out_width);
                let parts = conn_list(conns, out_wire);
                let list = join(&parts, ", ");
                let head = cat4("    wire ", range.as_str(), out_wire.as_str(), ";\n    ");
                let tail = cat6(
                    module.as_str(),
                    " ",
                    inst.as_str(),
                    " (",
                    list.as_str(),
                    ");\n",
                );
                cat2(head.as_str(), tail.as_str())
            },
        }
    }
}

impl Module {
    /// The module as text.
    pub fn to_text(&self) -> (r: String)
        ensures
            r@ == self@.show(),
    {
        let ghost m = self@;
        let mut ports: Vec<String> = Vec::new();
        let mut i: usize = 0;
        while i < self.ports.len()
            invariant
                i <= self.ports.len(),
                m == self@,
                ports.len() == i,
                forall|j: int| 0 <= j < i ==> #[trigger] ports[j]@ == m.ports[j].show(),
            decreases self.ports.len() - i,
        {
            ports.push(self.ports[i].to_text());
            i += 1;
        }
        assert(text::texts(ports@) =~= Seq::new(m.ports.len(), |i: int| m.ports[i].show()));
        let mut items: Vec<String> = Vec::new();
        i = 0;
        while i < self.items.len()
            invariant
                i <= self.items.len(),
                m == self@,
                items.len() == i,
                forall|j: int| 0 <= j < i ==> #[trigger] items[j]@ == m.items[j].show(),
            decreases self.items.len() - i,
        {
            items.push(self.items[i].to_text());
            i += 1;
        }
        assert(text::texts(items@) =~= Seq::new(m.items.len(), |i: int| m.items[i].show()));
        let p = join(&ports, ",\n    ");
        proof {
            reveal_strlit("");
            assert(""@ =~= Seq::<char>::empty());
        }
        let b = join(&items, "");
        cat7(
            "module ",
            self.name.as_str(),
            " (\n    ",
            p.as_str(),
            "\n);\n",
            b.as_str(),
            "endmodule",
        )
    }
}

impl Design {
    /// The design as text.
    pub fn to_text(&self) -> (r: String)
        ensures
            r@ == design_text(self@),
    {
        let ghost d = self@;
        let mut out: Vec<String> = Vec::new();
        let mut i: usize = 0;
        while i < self.modules.len()
            invariant
                i <= self.modules.len(),
                d == self@,
                out.len() == i,
                forall|j: int| 0 <= j < i ==> #[trigger] out[j]@ == d[j].show(),
            decreases self.modules.len() - i,
        {
            out.push(self.modules[i].to_text());
            i += 1;
        }
        assert(text::texts(out@) =~= Seq::new(d.len(), |i: int| d[i].show()));
        join(&out, "\n")
    }
}

// ---- evaluation ---------------------------------------------------------

/// The values on ports and wires; of two with one name the later counts.
pub type Wires = Seq<(Text, u128)>;

/// The value on the wire called `n`; an unknown wire carries zero.
pub open spec fn on_wire(env: Wires, n: Text) -> u128 {
    match semantics::slot(env, n) {
        Some(p) => env[p].1,
        None => 0,
    }
}

pub open spec fn bit_of(b: bool) -> u128 {
    if b {
        1
    } else {
        0
    }
}

/// An operator on 128-bit values; the enclosing wire truncates the result.
/// Division by zero gives zero.
pub open spec fn apply(op: BinOp, a: u128, b: u128) -> u128 {
    match op {
        BinOp::Add => ((a + b) % arith::two128()) as u128,
        BinOp::Sub => ((a - b) % arith::two128()) as u128,
        BinOp::Mul => ((a * b) % arith::two128()) as u128,
        BinOp::Div => if b == 0 {
            0
        } else {
            (a as int / b as int) as u128
        },
        BinOp::Rem => if b == 0 {
            0
        } else {
            (a as int % b as int) as u128
        },
        BinOp::BitAnd => a & b,
        BinOp::BitOr => a | b,
        BinOp::BitXor => a ^ b,
        BinOp::Shl => if b >= 128 {
            0
        } else {
            ((a * pow2(b as nat)) % arith::two128()) as u128
        },
        BinOp::Shr => if b >= 128 {
            0
        } else {
            (a as int / (pow2(b as nat) as int)) as u128
        },
        BinOp::And => bit_of(a != 0 && b != 0),
        BinOp::Or => bit_of(a != 0 || b != 0),
        _ => bit_of(arith::compares(op, a as int, b as int)),
    }
}

pub open spec fn apply_un(op: UnOp, a: u128) -> u128 {
    match op {
        UnOp::Neg => ((-(a as int)) % arith::two128()) as u128,
        UnOp::Not => (arith::two128() - 1 - a) as u128,
    }
}

/// The value of `v` on a wire of the given width.
pub open spec fn truncated(v: u128, width: u32) -> u128 {
    arith::wrap(v as int, width) as u128
}

impl NExpr {
    pub open spec fn value(self, env: Wires) -> u128
        decreases self,
    {
        match self {
            NExpr::Const { value, width } => truncated(value, width),
            NExpr::Ref(n) => on_wire(env, n),
            NExpr::Un { op, e } => apply_un(op, e.value(env)),
            NExpr::Bin { op, l, r } => apply(op, l.value(env), r.value(env)),
            NExpr::Ternary { c, t, e } => if c.value(env) != 0 {
                t.value(env)
            } else {
                e.value(env)
            },
        }
    }
}

/// The position of the module called `name` from `i` on.
pub open spec fn module_at(d: Seq<NModule>, name: Text, i: int) -> Option<int>
    decreases d.len() - i,
{
    if i < 0 || i >= d.len() {
        None
    } else if d[i].name == name {
        Some(i)
    } else {
        module_at(d, name, i + 1)
    }
}

/// The width of the port called `name` from position `i` on.
pub open spec fn port_width(ps: Seq<NPort>, name: Text, i: int) -> Option<u32>
    decreases ps.len() - i,
{
    if i < 0 || i >= ps.len() {
        None
    } else if ps[i].name == name {
        Some(ps[i].width)
    } else {
        port_width(ps, name, i + 1)
    }
}

/// The wires `env` and the input ports from position `i` on, driven by `inputs`.
pub open spec fn drive(ps: Seq<NPort>, inputs: Wires, i: int, env: Wires) -> Option<Wires>
    decreases ps.len() - i,
{
    if i < 0 || i >= ps.len() {
        Some(env)
    } else if ps[i].dir == Dir::Output {
        drive(ps, inputs, i + 1, env)
    } else {
        match semantics::slot(inputs, ps[i].name) {
            None => None,
            Some(k) => drive(
                ps,
                inputs,
                i + 1,
                env.push((ps[i].name, truncated(inputs[k].1, ps[i].width))),
            ),
        }
    }
}

/// The values that the connections of an instance carry.
pub open spec fn conn_values(conns: Seq<(Text, NExpr)>, env: Wires) -> Wires {
    Seq::new(conns.len(), |i: int| (conns[i].0, conns[i].1.value(env)))
}

/// The wires after one item. Instances nest to the given depth at most.
pub open spec fn run_item(
    d: Seq<NModule>,
    depth: nat,
    ps: Seq<NPort>,
    item: NItem,
    env: Wires,
) -> Option<Wires>
    decreases depth, 1int, 0int,
{
    match item {
        NItem::Wire { name, width, value } => Some(
            env.push((name, truncated(value.value(env), width))),
        ),
        NItem::Assign { lhs, rhs } => Some(
            env.push(
                (
                    lhs,
                    match port_width(ps, lhs, 0) {
                        Some(w) => truncated(rhs.value(env), w),
                        None => rhs.value(env),
                    },
                ),
            ),
        ),
        NItem::Instance { module, inst, conns, out_wire, out_width } => match run(
            d,
            depth,
            module,
            conn_values(conns, env),
        ) {
            None => None,
            Some(v) => Some(env.push((out_wire, truncated(v, out_width)))),
        },
    }
}

/// The wires after the items from position `i` on.
pub open spec fn run_items(
    d: Seq<NModule>,
    depth: nat,
    ps: Seq<NPort>,
    items: Seq<NItem>,
    i: int,
    env: Wires,
) -> Option<Wires>
    decreases depth, 2int, items.len() - i,
{
    if i < 0 || i >= items.len() {
        Some(env)
    } else {
        match run_item(d, depth, ps, items[i], env) {
            None => None,
            Some(env1) => run_items(d, depth, ps, items, i + 1, env1),
        }
    }
}

/// The value that the module called `name` drives onto `out`. Instances nest to
/// the given depth at most.
pub open spec fn run(d: Seq<NModule>, depth: nat, name: Text, inputs: Wires) -> Option<u128>
    decreases depth, 0int, 0int,
{
    if depth == 0 {
        None
    } else {
        match module_at(d, name, 0) {
            None => None,
            Some(k) => match drive(d[k].ports, inputs, 0, Seq::empty()) {
                None => None,
                Some(env) => match run_items(
                    d,
                    (depth - 1) as nat,
                    d[k].ports,
                    d[k].items,
                    0,
                    env,
                ) {
                    None => None,
                    Some(env1) => match semantics::slot(env1, "out"@) {
                        Some(p) => Some(env1[p].1),
                        None => None,
                    },
                },
            },
        }
    }
}

fn bit_value(b: bool) -> (r: u128)
    ensures
        r == bit_of(b),
{
    if b {
        1
    } else {
        0
    }
}

fn eval_unop(op: UnOp, a: u128) -> (r: u128)
    ensures
        r == apply_un(op, a),
{
    match op {
        UnOp::Neg => {
            let r = 0u128.wrapping_sub(a);
            proof {
                arith::lemma_word(-(a as int), r);
            }
            r
        },
        UnOp::Not => 0xffff_ffff_ffff_ffff_ffff_ffff_ffff_ffff - a,
    }
}

fn eval_binop(op: BinOp, a: u128, b: u128) -> (r: u128)
    ensures
        r == apply(op, a, b),
{
    match op {
        BinOp::Add => {
            let r = a.wrapping_add(b);
            proof {
                arith::lemma_word(a + b, r);
            }
            r
        },
        BinOp::Sub => {
            let r = a.wrapping_sub(b);
            proof {
                arith::lemma_word(a - b, r);
            }
            r
        },
        BinOp::Mul => arith::mul_pattern(a, b),
        BinOp::Div => if b == 0 {
            0
        } else {
            a / b
        },
        BinOp::Rem => if b == 0 {
            0
        } else {
            a % b
        },
        BinOp::BitAnd => a & b,
        BinOp::BitOr => a | b,
        BinOp::BitXor => a ^ b,
        BinOp::Shl => if b >= 128 {
            0
        } else {
            arith::mul_pattern(a, arith::power(b as u32))
        },
        BinOp::Shr => if b >= 128 {
            0
        } else {
            proof {
                lemma_pow2_pos(b as nat);
            }
            a / arith::power(b as u32)
        },
        BinOp::And => bit_value(a != 0 && b != 0),
        BinOp::Or => bit_value(a != 0 || b != 0),
        BinOp::Eq => bit_value(a == b),
        BinOp::Ne => bit_value(a != b),
        BinOp::Lt => bit_value(a < b),
        BinOp::Le => bit_value(a <= b),
        BinOp::Gt => bit_value(a > b),
        BinOp::Ge => bit_value(a >= b),
    }
}

/// The value of an expression.
fn eval_expr(e: &Expr, env: &Vec<(String, u128)>) -> (r: u128)
    ensures
        r == e@.value(env::locals(env@)),
    decreases e,
{
    match e {
        Expr::Const { value, width } => low_bits(*value, *width),
        Expr::Ref(n) => match find_slot(env, n.as_str()) {
            Some(p) => {
                assert(env::locals(env@)[p as int] == (env[p as int].0@, env[p as int].1@));
                env[p].1
            },
            None => 0,
        },
        Expr::Un { op, e } => eval_unop(*op, eval_expr(e, env)),
        Expr::Bin { op, l, r } => eval_binop(*op, eval_expr(l, env), eval_expr(r, env)),
        Expr::Ternary { c, t, e } => if eval_expr(c, env) != 0 {
            eval_expr(t, env)
        } else {
            eval_expr(e, env)
        },
    }
}

fn find_module(d: &Design, name: &str) -> (r: Option<usize>)
    ensures
        match r {
            Some(k) => module_at(d@, name@, 0) == Some(k as int) && k < d.modules.len(),
            None => module_at(d@, name@, 0) is None,
        },
{
    let mut i: usize = 0;
    while i < d.modules.len()
        invariant
            i <= d.modules.len(),
            module_at(d@, name@, 0) == module_at(d@, name@, i as int),
        decreases d.modules.len() - i,
    {
        assert(d@[i as int] == d.modules[i as int]@);
        if str_eq(d.modules[i].name.as_str(), name) {
            return Some(i);
        }
        i += 1;
    }
    None
}

fn find_width(ps: &Vec<Port>, name: &String) -> (r: Option<u32>)
    ensures
        r == port_width(model::views(ps@), name@, 0),
{
    let ghost ms = model::views(ps@);
    let mut i: usize = 0;
    while i < ps.len()
        invariant
            i <= ps.len(),
            ms == model::views(ps@),
            port_width(ms, name@, 0) == port_width(ms, name@, i as int),
        decreases ps.len() - i,
    {
        assert(ms[i as int] == ps[i as int]@);
        if str_eq(ps[i].name.as_str(), name.as_str()) {
            return Some(ps[i].width);
        }
        i += 1;
    }
    None
}

/// Optional wires, by view.
pub open spec fn wires(r: Option<Vec<(String, u128)>>) -> Option<Wires> {
    match r {
        Some(w) => Some(env::locals(w@)),
        None => None,
    }
}

fn drive_ports(ps: &Vec<Port>, inputs: &Vec<(String, u128)>) -> (r: Option<Vec<(String, u128)>>)
    ensures
        wires(r) == drive(model::views(ps@), env::locals(inputs@), 0, Seq::empty()),
{
    let ghost ms = model::views(ps@);
    let ghost ins = env::locals(inputs@);
    let mut out: Vec<(String, u128)> = Vec::new();
    assert(env::locals(out@) =~= Seq::<(Text, u128)>::empty());
    let mut i: usize = 0;
    while i < ps.len()
        invariant
            i <= ps.len(),
            ms == model::views(ps@),
            ins == env::locals(inputs@),
            drive(ms, ins, 0, Seq::empty()) == drive(ms, ins, i as int, env::locals(out@)),
        decreases ps.len() - i,
    {
        assert(ms[i as int] == ps[i as int]@);
        if ps[i].dir == Dir::Input {
            match find_slot(inputs, ps[i].name.as_str()) {
                None => {
                    return None;
                },
                Some(k) => {
                    assert(ins[k as int] == (inputs[k as int].0@, inputs[k as int].1@));
                    out.push((ps[i].name.clone(), low_bits(inputs[k].1, ps[i].width)));
                },
            }
        }
        i += 1;
    }
    Some(out)
}

fn drive_conns(conns: &Vec<(String, Expr)>, env: &Vec<(String, u128)>) -> (r: Vec<(String, u128)>)
    ensures
        env::locals(r@) == conn_values(env::locals(conns@), env::locals(env@)),
{
    let ghost ms = env::locals(conns@);
    let mut out: Vec<(String, u128)> = Vec::new();
    let mut i: usize = 0;
    while i < conns.len()
        invariant
            i <= conns.len(),
            ms == env::locals(conns@),
            out.len() == i,
            forall|j: int|
                0 <= j < i ==> (#[trigger] out[j]).0@ == ms[j].0 && out[j].1@ == ms[j].1.value(
                    env::locals(env@),
                ),
        decreases conns.len() - i,
    {
        assert(ms[i as int] == (conns[i as int].0@, conns[i as int].1@));
        let v = eval_expr(&conns[i].1, env);
        out.push((conns[i].0.clone(), v));
        i += 1;
    }
    assert(env::locals(out@) =~= conn_values(ms, env::locals(env@)));
    out
}

fn eval_item(
    d: &Design,
    depth: usize,
    ps: &Vec<Port>,
    item: &Item,
    env: &mut Vec<(String, u128)>,
) -> (ok: bool)
    ensures
        match run_item(d@, depth as nat, model::views(ps@), item@, env::locals(old(env)@)) {
            Some(w) => ok && env::locals(final(env)@) == w,
            None => !ok,
        },
    decreases depth, 1int,
{
    match item {
        Item::Wire { name, width, value } => {
            let v = eval_expr(value, env);
            env.push((name.clone(), low_bits(v, *width)));
            true
        },
        Item::Assign { lhs, rhs } => {
            let v = eval_expr(rhs, env);
            match find_width(ps, lhs) {
                Some(w) => {
                    env.push((lhs.clone(), low_bits(v, w)));
                },
                None => {
                    env.push((lhs.clone(), v));
                },
            }
            true
        },
        Item::Instance { module, inst: _, conns, out_wire, out_width } => {
            let inputs = drive_conns(conns, env);
            match eval_within(d, depth, module.as_str(), &inputs) {
                None => false,
                Some(v) => {
                    env.push((out_wire.clone(), low_bits(v, *out_width)));
                    true
                },
            }
        },
    }
}

fn eval_within(d: &Design, depth: usize, name: &str, inputs: &Vec<(String, u128)>) -> (r: Option<
    u128,
>)
    ensures
        r == run(d@, depth as nat, name@, env::locals(inputs@)),
    decreases depth, 0int,
{
    if depth == 0 {
        return None;
    }
    let k = match find_module(d, name) {
        None => {
            return None;
        },
        Some(k) => k,
    };
    let m = &d.modules[k];
    assert(d@[k as int] == m@);
    let mut env = match drive_ports(&m.ports, inputs) {
        None => {
            return None;
        },
        Some(env) => env,
    };
    let ghost start = env::locals(env@);
    let ghost ps = m@.ports;
    let ghost items = m@.items;
    let mut i: usize = 0;
    while i < m.items.len()
        invariant
            depth > 0,
            i <= m.items.len(),
            ps == model::views(m.ports@),
            items == model::views(m.items@),
            run_items(d@, (depth - 1) as nat, ps, items, 0, start) == run_items(
                d@,
                (depth - 1) as nat,
                ps,
                items,
                i as int,
                env::locals(env@),
            ),
            run_items(d@, (depth - 1) as nat, ps, items, 0, start) is None ==> run(
                d@,
                depth as nat,
                name@,
                env::locals(inputs@),
            ) is None,
        decreases m.items.len() - i,
    {
        assert(items[i as int] == m.items[i as int]@);
        if !eval_item(d, depth - 1, &m.ports, &m.items[i], &mut env) {
            return None;
        }
        i += 1;
    }
    match find_slot(&env, "out") {
        Some(p) => {
            assert(env::locals(env@)[p as int] == (env[p as int].0@, env[p as int].1@));
            Some(env[p].1)
        },
        None => None,
    }
}

/// Evaluate the module called `name` on the given input port values, returning
/// the value driven onto `out`: unsigned, each wire truncated to its declared
/// width. There is no value where the module or an input is missing, or where
/// instances nest deeper than there are modules.
pub fn eval(design: &Design, name: &str, inputs: &Vec<(String, u128)>) -> (r: Option<u128>)
    ensures
        r == run(design@, design@.len(), name@, env::locals(inputs@)),
{
    eval_within(design, design.modules.len(), name, inputs)
}

} // verus!
