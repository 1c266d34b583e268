//! # Verilog backend
//!
//! Lowers the **synthesizable subset** of the typed core IR to synthesizable
//! Verilog, as [`crate::lowering`] states. Codegen is gated by the analysis pass
//! ([`crate::hdl::analyze`]): a function is only lowered if that pass marks it
//! synthesizable. The interpreter is the executable specification; generated
//! hardware agrees with it bit for bit.
//!
//! Each lowered function becomes a `module`: one `input` port per parameter (named
//! after the parameter) and a single `output` port named `out`. Calls become
//! module instantiations. Full names are sanitized (`std::bits::rotl32` becomes
//! `std__bits__rotl32`).

use crate::arith;
use crate::env::{self, find_slot};
use crate::hdl::{self, analyze, callees, FunctionReport};
use crate::ir::{self, BinOp, TExpr, TKind, TModule, Type};
use crate::lowering::{self, Lo, Lowered, Scalar, TNet};
use crate::model;
use crate::netlist::{NExpr, NItem, NModule, NPort};
use crate::scan::{scan_expr, Seek};
use crate::text::{self, cat2, cat3, cat4, chars_of, join, repeat_char, str_eq, str_less, u128_text, u32_text, Text};
use vstd::arithmetic::power2::*;
use vstd::prelude::*;

pub use crate::netlist::{eval, Design, Dir, Expr, Item, Module, Port};

verus! {

broadcast use {
    ir::group_model,
    ir::group_built,
    text::group_texts,
    model::group_views,
    env::group_locals,
};

/// The outcome of lowering a whole module.
#[derive(Debug)]
pub struct LowerResult {
    pub design: Design,
    /// Functions that were not lowered, with a human-readable reason (full name,
    /// reason): not synthesizable, or using a construct that is not lowered yet.
    pub skipped: Vec<(String, String)>,
}

/// Pairs of texts, by view.
pub open spec fn pairs(v: Seq<(String, String)>) -> Seq<(Text, Text)> {
    Seq::new(v.len(), |i: int| (v[i].0@, v[i].1@))
}

// ---- names --------------------------------------------------------------

fn is_word_char(c: char) -> (r: bool)
    ensures
        r == lowering::is_word_char(c),
{
    ('a' <= c && c <= 'z') || ('A' <= c && c <= 'Z') || ('0' <= c && c <= '9') || c == '_'
}

/// Convert a full name into a valid identifier.
pub fn sanitize(name: &str) -> (r: String)
    ensures
        r@ == lowering::sanitized(name@),
{
    let s = chars_of(name);
    let mut out = String::new();
    assert(out@ =~= Seq::<char>::empty());
    let mut i: usize = 0;
    assert(out@ + lowering::plain_chars(s@, 0) =~= lowering::plain_chars(s@, 0));
    while i < s.len()
        invariant
            i <= s.len(),
            lowering::plain_chars(s@, 0) == out@ + lowering::plain_chars(s@, i as int),
        decreases s.len() - i,
    {
        let ghost before = out@;
        if i + 1 < s.len() && s[i] == ':' && s[i + 1] == ':' {
            out.push('_');
            out.push('_');
            let ghost rest = lowering::plain_chars(s@, i as int + 2);
            assert(before + (seq!['_', '_'] + rest) =~= out@ + rest);
            i += 2;
        } else {
            let c = if is_word_char(s[i]) {
                s[i]
            } else {
                '_'
            };
            out.push(c);
            let ghost rest = lowering::plain_chars(s@, i as int + 1);
            assert(before + (seq![c] + rest) =~= out@ + rest);
            i += 1;
        }
    }
    assert(out@ + Seq::<char>::empty() =~= out@);
    let plain = chars_of(out.as_str());
    if plain.len() == 0 || ('0' <= plain[0] && plain[0] <= '9') {
        proof {
            reveal_strlit("_");
        }
        let r = cat2("_", out.as_str());
        assert(r@ =~= seq!['_'] + out@);
        r
    } else {
        out
    }
}

/// Whether another function goes before the one called `name` with the identifier
/// that its name becomes.
fn taken(m: &ir::Module, name: &str, own: &String) -> (b: bool)
    requires
        own@ == lowering::sanitized(name@),
    ensures
        b == lowering::taken(m@.funcs, name@),
{
    if str_eq(own.as_str(), name) {
        return false;
    }
    let n = m.funcs.len();
    let mut j: usize = 0;
    while j < n
        invariant
            n == m@.funcs.len(),
            j <= n,
            own@ == lowering::sanitized(name@),
            own@ != name@,
            forall|k: int|
                0 <= k < j && (#[trigger] m@.funcs[k]).0 != name@ && lowering::sanitized(
                    m@.funcs[k].0,
                ) == own@ ==> lowering::sanitized(m@.funcs[k].0) != m@.funcs[k].0
                    && !text::text_less(m@.funcs[k].0, name@),
        decreases n - j,
    {
        let (other, _) = m.funcs.at(j);
        if !str_eq(other.as_str(), name) {
            let s = sanitize(other.as_str());
            if str_eq(s.as_str(), own.as_str()) && (str_eq(s.as_str(), other.as_str()) || str_less(
                other.as_str(),
                name,
            )) {
                assert(m@.funcs[j as int].0 == other@);
                return true;
            }
        }
        j += 1;
    }
    false
}

/// The name of the module that the function called `name` becomes: the identifier that
/// stands for its name, with a number behind it where another function goes before
/// with that identifier.
pub fn module_name(m: &ir::Module, name: &str) -> (r: String)
    ensures
        r@ == lowering::module_name(m@, name@),
{
    reveal(lowering::module_name);
    let own = sanitize(name);
    if !taken(m, name, &own) {
        return own;
    }
    let n = m.funcs.len();
    let mut most: usize = 0;
    let mut place: usize = n;
    let mut i: usize = n;
    while i > 0
        invariant
            i <= n,
            n == m@.funcs.len(),
            place == lowering::place_of(m@.funcs, name@, i as int),
        decreases i,
    {
        i -= 1;
        if str_eq(m.funcs.at(i).0.as_str(), name) {
            place = i;
        }
    }
    while i < n
        invariant
            i <= n,
            n == m@.funcs.len(),
            most == lowering::longest_name(m@.funcs, i as int),
        decreases n - i,
    {
        let s = sanitize(m.funcs.at(i).0.as_str());
        let k = chars_of(s.as_str()).len();
        if k > most {
            most = k;
        }
        i += 1;
    }
    let pad = repeat_char('_', most);
    let number = text::usize_text(place);
    cat3(own.as_str(), pad.as_str(), number.as_str())
}

// ---- nets ---------------------------------------------------------------

/// A lowered value: what carries it, and its type.
struct Net {
    expr: Expr,
    kind: Scalar,
}

impl View for Net {
    type V = TNet;

    closed spec fn view(&self) -> TNet {
        TNet { expr: self.expr@, kind: self.kind }
    }
}

impl Net {
    fn dup(&self) -> (r: Net)
        ensures
            r@ == self@,
    {
        Net { expr: self.expr.dup(), kind: self.kind }
    }
}

impl Scalar {
    fn bits(self) -> (r: u32)
        ensures
            r == self.width(),
    {
        match self {
            Scalar::Bool => 1,
            Scalar::Bit(n) => n,
        }
    }
}

/// The items so far, the number of the next name, and what stands before the number
/// of every name.
struct Lowerer {
    items: Vec<Item>,
    temp: u128,
    pad: String,
}

impl View for Lowerer {
    type V = Lo;

    closed spec fn view(&self) -> Lo {
        Lo { items: model::views(self.items@), temp: self.temp as nat, pad: self.pad@ }
    }
}

/// Results that carry the state along, by view.
spec fn said(r: Result<Net, String>, lo: Lo) -> Lowered {
    match r {
        Ok(n) => Ok((n@, lo)),
        Err(t) => Err(t@),
    }
}

impl Lowerer {
    /// There are at most two numbered names for each item.
    spec fn ordered(&self) -> bool {
        self.temp <= 2 * self.items.len()
    }

    /// A wire with the prefix that carries `e`, truncated to its width.
    fn wire(&mut self, prefix: &str, kind: Scalar, e: Expr) -> (r: Net)
        requires
            old(self).ordered(),
        ensures
            (r@, final(self)@) == lowering::wire(old(self)@, prefix@, kind, e@),
            final(self).ordered(),
    {
        let n = u128_text(self.temp);
        let name = cat3(prefix, self.pad.as_str(), n.as_str());
        self.items.push(Item::Wire { name: name.clone(), width: kind.bits(), value: e });
        self.temp = self.temp + 1;
        Net { expr: Expr::Ref(name), kind }
    }

    /// A wire of the width of an operation's result.
    fn emit(&mut self, kind: Scalar, e: Expr) -> (r: Net)
        requires
            old(self).ordered(),
        ensures
            Ok::<(TNet, Lo), Text>((r@, final(self)@)) == lowering::emit_wire(old(self)@, kind, e@),
            final(self).ordered(),
    {
        self.wire("w", kind, e)
    }
}

fn mismatch() -> (r: String)
    ensures
        r@ == lowering::mismatch(),
{
    "internal type mismatch".to_string()
}

/// The scalar that a type is, or why it cannot be lowered.
fn scalar_of(t: &Type) -> (r: Result<Scalar, String>)
    ensures
        match r {
            Ok(k) => lowering::scalar_of(t@) == Ok::<Scalar, Text>(k),
            Err(e) => lowering::scalar_of(t@) == Err::<Scalar, Text>(e@),
        },
{
    reveal(lowering::scalar_of);
    reveal(Type::model);
    match t {
        Type::Bool => Ok(Scalar::Bool),
        Type::Bit(n) => Ok(Scalar::Bit(*n)),
        Type::Int(_) => {
            let s = t.to_text();
            Err(cat3("machine integer `", s.as_str(), "` is not a hardware type"))
        },
        Type::Array(_, _) => Err("arrays are not yet supported by codegen".to_string()),
        Type::Struct(n) => Err(cat3("struct `", n.as_str(), "` not yet supported by codegen")),
        Type::Enum(n) => Err(cat3("enum `", n.as_str(), "` not yet supported by codegen")),
        Type::Tuple(_) => Err("tuples are not yet supported by codegen".to_string()),
        Type::Unit => Err("unit type cannot be a hardware value".to_string()),
    }
}

/// The width of a hardware type, or why it cannot be lowered.
pub fn ty_width(t: &Type) -> (r: Result<u32, String>)
    ensures
        match lowering::scalar_of(t@) {
            Ok(k) => r == Ok::<u32, String>(k.width()),
            Err(e) => r matches Err(m) && m@ == e,
        },
{
    match scalar_of(t) {
        Ok(k) => Ok(k.bits()),
        Err(e) => Err(e),
    }
}

fn bin(op: BinOp, l: Expr, r: Expr) -> (e: Expr)
    ensures
        e@ == lowering::bin(op, l@, r@),
{
    Expr::Bin { op, l: Box::new(l), r: Box::new(r) }
}

fn ternary(c: Expr, t: Expr, e: Expr) -> (r: Expr)
    ensures
        r@ == lowering::ternary(c@, t@, e@),
{
    Expr::Ternary { c: Box::new(c), t: Box::new(t), e: Box::new(e) }
}

fn is_power_of_two(w: u32) -> (r: bool)
    requires
        w <= 128,
    ensures
        r == lowering::is_power_of_two(w as nat),
{
    let r = w == 1 || w == 2 || w == 4 || w == 8 || w == 16 || w == 32 || w == 64 || w == 128;
    proof {
        lemma2_to64();
        assert(pow2(0) == 1 && pow2(1) == 2 && pow2(2) == 4 && pow2(3) == 8 && pow2(4) == 16
            && pow2(5) == 32 && pow2(6) == 64 && pow2(7) == 128 && pow2(8) == 256);
        if lowering::is_power_of_two(w as nat) {
            let k = choose|k: nat| w as nat == pow2(k);
            if k > 8 {
                lemma_pow2_strictly_increases(8, k);
            }
            assert(k < 8);
        }
    }
    r
}

/// The amount of a shift of `width` bits, reduced modulo the width.
fn reduce_shift_amount(lo: &mut Lowerer, amount: Net, width: u32) -> (r: Net)
    requires
        old(lo).ordered(),
    ensures
        (r@, final(lo)@) == lowering::reduced(amount@, width, old(lo)@),
        final(lo).ordered(),
{
    let w: u32 = if width >= 128 {
        128
    } else {
        width
    };
    let aw = amount.kind.bits();
    if is_power_of_two(w) {
        proof {
            if w == 0 {
                let k = choose|k: nat| w as nat == pow2(k);
                lemma_pow2_pos(k);
            }
        }
        let mask = Expr::Const { value: (w - 1) as u128, width: aw };
        return lo.wire("w", amount.kind, bin(BinOp::BitAnd, amount.expr, mask));
    }
    proof {
        lemma2_to64();
        assert(pow2(8) == 256);
        if aw > 8 {
            lemma_pow2_strictly_increases(8, arith::bits_of_width(aw));
        }
    }
    if aw >= 8 || (w as u128) < arith::power(aw) {
        let modulus = Expr::Const { value: w as u128, width: aw };
        lo.wire("w", amount.kind, bin(BinOp::Rem, amount.expr, modulus))
    } else {
        amount
    }
}

fn binary_net(lo: &mut Lowerer, op: BinOp, ty: &Type, l: Net, r: Net) -> (n: Result<Net, String>)
    requires
        old(lo).ordered(),
    ensures
        said(n, final(lo)@) == lowering::binary_net(op, ty@, l@, r@, old(lo)@),
        n is Ok ==> final(lo).ordered(),
{
    reveal(lowering::binary_net);
    let shift = match op {
        BinOp::Shl => true,
        BinOp::Shr => true,
        _ => false,
    };
    if shift {
        let amount = reduce_shift_amount(lo, r, l.kind.bits());
        return Ok(lo.emit(l.kind, bin(op, l.expr, amount.expr)));
    }
    if op.is_comparison() {
        if l.kind == r.kind {
            return Ok(lo.emit(Scalar::Bool, bin(op, l.expr, r.expr)));
        }
        return Err(mismatch());
    }
    if op.is_logical() {
        return Ok(lo.emit(Scalar::Bool, bin(op, l.expr, r.expr)));
    }
    let kind = scalar_of(ty)?;
    if l.kind == kind && r.kind == kind {
        Ok(lo.emit(kind, bin(op, l.expr, r.expr)))
    } else {
        Err(mismatch())
    }
}

/// The literal that a pattern stands for against a value of the given type.
fn pattern_value(p: &ir::Pattern, kind: Scalar) -> (r: Result<u128, String>)
    ensures
        match r {
            Ok(v) => lowering::pattern_value(p@, kind) == Ok::<u128, Text>(v),
            Err(e) => lowering::pattern_value(p@, kind) == Err::<u128, Text>(e@),
        },
{
    reveal(lowering::pattern_value);
    reveal(ir::Pattern::model);
    match p {
        ir::Pattern::Int(v) => match kind {
            Scalar::Bool => Err(mismatch()),
            Scalar::Bit(n) => {
                let x = arith::norm_bit(*v, n);
                if *v >= 0 && x == *v as u128 {
                    Ok(x)
                } else {
                    Err(mismatch())
                }
            },
        },
        ir::Pattern::Bool(b) => match kind {
            Scalar::Bool => Ok(
                if *b {
                    1
                } else {
                    0
                },
            ),
            Scalar::Bit(_) => Err(mismatch()),
        },
        ir::Pattern::Variant { enum_name: _, tag: _, subpatterns: _ } => Err(
            "enum/variant `match` not yet supported by codegen".to_string(),
        ),
        _ => Err("this pattern is not yet supported by codegen".to_string()),
    }
}

/// The lowered variables, innermost last.
type Vars = Vec<(String, Net)>;

fn lower_local(env: &Vars, name: &String, Ghost(lo): Ghost<Lo>) -> (r: Result<Net, String>)
    ensures
        said(r, lo) == lowering::local(env::locals(env@), name@, lo),
{
    reveal(lowering::local);
    match find_slot(env, name.as_str()) {
        Some(p) => {
            assert(env::locals(env@)[p as int] == (env[p as int].0@, env[p as int].1@));
            Ok(env[p].1.dup())
        },
        None => Err(cat3("unbound local `", name.as_str(), "`")),
    }
}

fn refused(e: &ir::Expr) -> (r: Result<Net, String>)
    ensures
        r matches Err(t) && lowering::refused(e@) == Err::<(TNet, Lo), Text>(t@),
{
    reveal(lowering::refused);
    reveal(ir::Expr::model);
    reveal(ir::ExprKind::model);
    match &e.kind {
        ir::ExprKind::Unit => Err("unit value is not lowerable".to_string()),
        ir::ExprKind::ConstRef(_) => Err("constants are not yet supported by codegen".to_string()),
        ir::ExprKind::Print { arg: _ } => Err("`print` is not synthesizable".to_string()),
        ir::ExprKind::MakeStruct { name: _, fields: _ } => Err(
            "aggregate construction not yet supported by codegen".to_string(),
        ),
        ir::ExprKind::MakeEnum { name: _, tag: _, args: _ } => Err(
            "aggregate construction not yet supported by codegen".to_string(),
        ),
        ir::ExprKind::MakeTuple(_) => Err(
            "aggregate construction not yet supported by codegen".to_string(),
        ),
        _ => Err("aggregate access not yet supported by codegen".to_string()),
    }
}

/// Lower an expression, behind the items so far.
fn lower_expr(m: &ir::Module, env: &mut Vars, lo: &mut Lowerer, e: &ir::Expr) -> (r: Result<
    Net,
    String,
>)
    requires
        old(lo).ordered(),
    ensures
        said(r, final(lo)@) == lowering::lower_expr(
            m@,
            env::locals(old(env)@),
            old(lo)@,
            e@,
        ),
        r is Ok ==> final(lo).ordered() && env::locals(final(env)@) == env::locals(old(env)@),
    decreases e, 0int,
{
    proof {
        ir::lemma_plain_nodes();
        assert(*e == ir::Expr { kind: e.kind, ty: e.ty });
    }
    let ghost k = e.kind;
    match &e.kind {
        ir::ExprKind::Int(v) => {
            assert(k == ir::ExprKind::Int(*v));
            reveal(lowering::literal);
            match scalar_of(&e.ty)? {
                Scalar::Bool => Err(mismatch()),
                Scalar::Bit(n) => Ok(
                    Net {
                        expr: Expr::Const { value: arith::norm_bit(*v, n), width: n },
                        kind: Scalar::Bit(n),
                    },
                ),
            }
        },
        ir::ExprKind::Bool(b) => {
            assert(k == ir::ExprKind::Bool(*b));
            let value: u128 = if *b {
                1
            } else {
                0
            };
            Ok(Net { expr: Expr::Const { value, width: 1 }, kind: Scalar::Bool })
        },
        ir::ExprKind::Local(name) => {
            assert(k == ir::ExprKind::Local(*name));
            lower_local(env, name, Ghost(lo@))
        },
        ir::ExprKind::Unary { op, expr } => {
            assert(k == ir::ExprKind::Unary { op: *op, expr: *expr });
            reveal(lowering::unary_net);
            let inner = lower_expr(m, env, lo, expr)?;
            let kind = scalar_of(&e.ty)?;
            if kind == inner.kind {
                Ok(lo.emit(kind, Expr::Un { op: *op, e: Box::new(inner.expr) }))
            } else {
                Err(mismatch())
            }
        },
        ir::ExprKind::Binary { op, lhs, rhs } => {
            assert(k == ir::ExprKind::Binary { op: *op, lhs: *lhs, rhs: *rhs });
            reveal(lowering::binary_flow);
            let l = lower_expr(m, env, lo, lhs)?;
            let r = lower_expr(m, env, lo, rhs)?;
            binary_net(lo, *op, &e.ty, l, r)
        },
        ir::ExprKind::Call { func, args } => {
            assert(k == ir::ExprKind::Call { func: *func, args: *args });
            lower_call(m, env, lo, func, args, &e.ty)
        },
        ir::ExprKind::If { cond, then_branch, else_branch } => {
            assert(k == ir::ExprKind::If {
                cond: *cond,
                then_branch: *then_branch,
                else_branch: *else_branch,
            });
            reveal(lowering::if_flow);
            let c = lower_expr(m, env, lo, cond)?;
            let t = lower_block(m, env, lo, then_branch)?;
            let f = lower_block(m, env, lo, else_branch)?;
            let kind = scalar_of(&e.ty)?;
            if t.kind == kind && f.kind == kind {
                Ok(lo.emit(kind, ternary(c.expr, t.expr, f.expr)))
            } else {
                Err(mismatch())
            }
        },
        ir::ExprKind::Match { scrutinee, arms } => {
            assert(k == ir::ExprKind::Match { scrutinee: *scrutinee, arms: *arms });
            reveal(lowering::then_flow);
            reveal(lowering::scalar_flow);
            let s = lower_expr(m, env, lo, scrutinee)?;
            let kind = scalar_of(&e.ty)?;
            lower_arms(m, env, lo, arms, s, kind)
        },
        ir::ExprKind::Block(b) => {
            assert(k == ir::ExprKind::Block(*b));
            lower_block(m, env, lo, b)
        },
        _ => {
            reveal(ir::ExprKind::model);
            refused(e)
        },
    }
}

fn lower_call(
    m: &ir::Module,
    env: &mut Vars,
    lo: &mut Lowerer,
    func: &String,
    args: &Vec<ir::Expr>,
    ty: &Type,
) -> (r: Result<Net, String>)
    requires
        old(lo).ordered(),
    ensures
        said(r, final(lo)@) == lowering::lower_expr(
            m@,
            env::locals(old(env)@),
            old(lo)@,
            TExpr { kind: TKind::Call { func: func@, args: ir::exprs_of(args@) }, ty: ty@ },
        ),
        r is Ok ==> final(lo).ordered() && env::locals(final(env)@) == env::locals(old(env)@),
    decreases args, 1int,
{
    reveal(lowering::call_target);
    reveal(lowering::call_flow);
    let ghost nets = env::locals(env@);
    let ghost lo0 = lo@;
    let ghost margs = ir::exprs_of(args@);
    let callee = match m.funcs.get(func.as_str()) {
        Some(f) => f,
        None => {
            return Err(cat3("call to unknown function `", func.as_str(), "`"));
        },
    };
    proof {
        assert(*callee == ir::Func {
            name: callee.name,
            params: callee.params,
            ret: callee.ret,
            body: callee.body,
        });
    }
    let kind = scalar_of(ty)?;
    let fits = match scalar_of(&callee.ret) {
        Ok(k) => k == kind,
        Err(_) => false,
    };
    if !(callee.params.len() == args.len() && fits) {
        return Err(mismatch());
    }
    let ghost params = ir::params_of(callee.params@);
    let ghost whole = lowering::lower_args(m@, nets, lo0, margs, params, 0, Seq::empty());
    let mut conns: Vec<(String, Expr)> = Vec::new();
    assert(env::locals(conns@) =~= Seq::<(Text, NExpr)>::empty());
    let mut i: usize = 0;
    while i < args.len()
        invariant
            callee.params.len() == args.len(),
            i <= args.len(),
            nets == env::locals(old(env)@),
            env::locals(env@) == nets,
            margs == ir::exprs_of(args@),
            params == ir::params_of(callee.params@),
            lo.ordered(),
            whole == lowering::lower_args(
                m@,
                nets,
                lo@,
                margs,
                params,
                i as int,
                env::locals(conns@),
            ),
            whole matches Err(t) ==> lowering::lower_expr(
                m@,
                env::locals(old(env)@),
                old(lo)@,
                TExpr { kind: TKind::Call { func: func@, args: ir::exprs_of(args@) }, ty: ty@ },
            ) == Err::<(TNet, Lo), Text>(t),
        decreases args.len() - i,
    {
        reveal(lowering::arg_flow);
        let p = &callee.params[i];
        assert(margs[i as int] == args[i as int]@);
        assert(params[i as int] == p@);
        assert(*p == ir::Param { name: p.name, ty: p.ty });
        let n = lower_expr(m, env, lo, &args[i])?;
        let same = match scalar_of(&p.ty) {
            Ok(k) => k == n.kind,
            Err(_) => false,
        };
        if !same {
            return Err(mismatch());
        }
        conns.push((p.name.clone(), n.expr));
        i += 1;
    }
    let first = u128_text(lo.temp);
    let second = u128_text(lo.temp + 1);
    let out_wire = cat3("call", lo.pad.as_str(), first.as_str());
    let inst = cat3("u", lo.pad.as_str(), second.as_str());
    let item = Item::Instance {
        module: module_name(m, func.as_str()),
        inst,
        conns,
        out_wire: out_wire.clone(),
        out_width: kind.bits(),
    };
    lo.items.push(item);
    lo.temp = lo.temp + 2;
    Ok(Net { expr: Expr::Ref(out_wire), kind })
}

/// One arm of a `match`, before the arms that `rest` stands for.
fn lower_arm(
    m: &ir::Module,
    env: &mut Vars,
    lo: &mut Lowerer,
    arm: &ir::Arm,
    scrut: &Net,
    kind: Scalar,
    rest: Option<Net>,
) -> (r: Result<Net, String>)
    requires
        old(lo).ordered(),
    ensures
        said(r, final(lo)@) == lowering::lower_arm(
            m@,
            env::locals(old(env)@),
            old(lo)@,
            arm@,
            scrut@,
            kind,
            text::option_view(rest),
        ),
        r is Ok ==> final(lo).ordered() && env::locals(final(env)@) == env::locals(old(env)@),
    decreases arm, 0int,
{
    reveal(lowering::arm_flow);
    proof {
        ir::lemma_plain_nodes();
        assert(*arm == ir::Arm { pattern: arm.pattern, guard: arm.guard, body: arm.body });
    }
    if arm.guard.is_some() {
        return Err("match guards are not yet supported by codegen".to_string());
    }
    let ghost nets = env::locals(env@);
    let n = env.len();
    match &arm.pattern {
        ir::Pattern::Binding { name, ty } => {
            assert(arm.pattern == ir::Pattern::Binding { name: *name, ty: *ty });
            env.push((name.clone(), scrut.dup()));
            let b = lower_expr(m, env, lo, &arm.body)?;
            env.truncate(n);
            assert(env::locals(env@) =~= nets);
            if b.kind == kind {
                Ok(b)
            } else {
                Err(mismatch())
            }
        },
        ir::Pattern::Wildcard => {
            let b = lower_expr(m, env, lo, &arm.body)?;
            if b.kind == kind {
                Ok(b)
            } else {
                Err(mismatch())
            }
        },
        _ => {
            reveal(ir::Pattern::model);
            let v = pattern_value(&arm.pattern, scrut.kind)?;
            let b = lower_expr(m, env, lo, &arm.body)?;
            if b.kind != kind {
                return Err(mismatch());
            }
            let other = match rest {
                Some(x) => x,
                None => {
                    let is_bool = match &arm.pattern {
                        ir::Pattern::Bool(_) => true,
                        _ => false,
                    };
                    if is_bool {
                        return Err("non-exhaustive bool match has no fallthrough".to_string());
                    }
                    return Err("non-exhaustive scalar match has no fallthrough".to_string());
                },
            };
            let c = lo.wire(
                "w",
                Scalar::Bool,
                bin(
                    BinOp::Eq,
                    scrut.expr.dup(),
                    Expr::Const { value: v, width: scrut.kind.bits() },
                ),
            );
            Ok(lo.emit(kind, ternary(c.expr, b.expr, other.expr)))
        },
    }
}

/// The arms of a `match`, from the last to the first so that earlier arms take
/// priority.
fn lower_arms(
    m: &ir::Module,
    env: &mut Vars,
    lo: &mut Lowerer,
    arms: &Vec<ir::Arm>,
    scrut: Net,
    kind: Scalar,
) -> (r: Result<Net, String>)
    requires
        old(lo).ordered(),
    ensures
        said(r, final(lo)@) == lowering::lower_arms(
            m@,
            env::locals(old(env)@),
            old(lo)@,
            ir::arms_of(arms@),
            arms.len() - 1,
            scrut@,
            kind,
            None,
        ),
        r is Ok ==> final(lo).ordered() && env::locals(final(env)@) == env::locals(old(env)@),
    decreases arms, 1int,
{
    reveal(lowering::match_result);
    let ghost nets = env::locals(env@);
    let ghost lo0 = lo@;
    let ghost marms = ir::arms_of(arms@);
    let mut acc: Option<Net> = None;
    let mut i: usize = arms.len();
    while i > 0
        invariant
            i <= arms.len(),
            nets == env::locals(old(env)@),
            lo0 == old(lo)@,
            env::locals(env@) == nets,
            marms == ir::arms_of(arms@),
            lo.ordered(),
            lowering::lower_arms(m@, nets, lo0, marms, arms.len() - 1, scrut@, kind, None)
                == lowering::lower_arms(
                m@,
                nets,
                lo@,
                marms,
                i - 1,
                scrut@,
                kind,
                text::option_view(acc),
            ),
        decreases i,
    {
        i -= 1;
        assert(marms[i as int] == arms[i as int]@);
        let n = lower_arm(m, env, lo, &arms[i], &scrut, kind, acc)?;
        acc = Some(n);
    }
    match acc {
        Some(n) => Ok(n),
        None => Err("empty match".to_string()),
    }
}

/// The statements of a block and its value.
fn lower_block(
    m: &ir::Module,
    env: &mut Vars,
    lo: &mut Lowerer,
    b: &ir::Block,
) -> (r: Result<Net, String>)
    requires
        old(lo).ordered(),
    ensures
        said(r, final(lo)@) == lowering::lower_block(
            m@,
            env::locals(old(env)@),
            old(lo)@,
            b@,
            0,
        ),
        r is Ok ==> final(lo).ordered() && env::locals(final(env)@) == env::locals(old(env)@),
    decreases b, 0int,
{
    proof {
        ir::lemma_plain_nodes();
        assert(*b == ir::Block { stmts: b.stmts, tail: b.tail, ty: b.ty });
    }
    let ghost nets = env::locals(env@);
    let ghost lo0 = lo@;
    let ghost ms = ir::stmts_of(b.stmts@);
    let n = env.len();
    let mut i: usize = 0;
    while i < b.stmts.len()
        invariant
            i <= b.stmts.len(),
            nets == env::locals(old(env)@),
            lo0 == old(lo)@,
            n == nets.len(),
            n <= env.len(),
            env::locals(env@).subrange(0, n as int) == nets,
            ms == ir::stmts_of(b.stmts@),
            b@.stmts == ms,
            lo.ordered(),
            lowering::lower_block(m@, nets, lo0, b@, 0) == lowering::lower_block(
                m@,
                env::locals(env@),
                lo@,
                b@,
                i as int,
            ),
        decreases b.stmts.len() - i,
    {
        reveal(lowering::then_flow);
        let ghost st = b.stmts[i as int];
        assert(ms[i as int] == st@);
        match &b.stmts[i] {
            ir::Stmt::Let { name, mutable, ty, init } => {
                assert(st == ir::Stmt::Let {
                    name: *name,
                    mutable: *mutable,
                    ty: *ty,
                    init: *init,
                });
                let v = lower_expr(m, env, lo, init)?;
                let s = sanitize(name.as_str());
                let prefix = cat3("v", s.as_str(), "_");
                let net = lo.wire(prefix.as_str(), v.kind, v.expr);
                let ghost before = env::locals(env@);
                env.push((name.clone(), net));
                assert(env::locals(env@).subrange(0, n as int) =~= before.subrange(0, n as int));
            },
            ir::Stmt::Expr(e) => {
                assert(st == ir::Stmt::Expr(*e));
                if scan_expr(e, &Seek::Return) {
                    return Err("`return` is not yet supported by codegen".to_string());
                }
                if scan_expr(e, &Seek::Assign) {
                    return Err("a statement with effects is not yet supported".to_string());
                }
            },
            ir::Stmt::Return { value } => {
                assert(st == ir::Stmt::Return { value: *value });
                return Err("`return` is not yet supported by codegen".to_string());
            },
            ir::Stmt::Assign { place, value } => {
                assert(st == ir::Stmt::Assign { place: *place, value: *value });
                return Err("assignment / mutable locals not yet supported".to_string());
            },
            ir::Stmt::While { cond, body } => {
                assert(st == ir::Stmt::While { cond: *cond, body: *body });
                return Err("`while` loops are not synthesizable".to_string());
            },
            ir::Stmt::For { var, ty, lo: first, hi, body } => {
                assert(st == ir::Stmt::For {
                    var: *var,
                    ty: *ty,
                    lo: *first,
                    hi: *hi,
                    body: *body,
                });
                return Err("`for` loops (unrolling) not yet supported".to_string());
            },
        }
        i += 1;
    }
    match &b.tail {
        Some(e) => {
            let v = lower_expr(m, env, lo, e)?;
            env.truncate(n);
            Ok(v)
        },
        None => Err("block has no value to lower".to_string()),
    }
}

// ---- functions ----------------------------------------------------------

fn named_before(ps: &Vec<ir::Param>, n: usize) -> (b: bool)
    requires
        n < ps.len(),
    ensures
        b == exists|j: int|
            0 <= j < n && (#[trigger] ir::params_of(ps@)[j]).name == ir::params_of(ps@)[n as int].name,
{
    let ghost ms = ir::params_of(ps@);
    assert(ms[n as int] == ps[n as int]@);
    assert(ps[n as int] == ir::Param { name: ps[n as int].name, ty: ps[n as int].ty });
    let mut j: usize = 0;
    while j < n
        invariant
            j <= n < ps.len(),
            ms == ir::params_of(ps@),
            ms[n as int].name == ps[n as int].name@,
            forall|k: int| 0 <= k < j ==> (#[trigger] ms[k]).name != ms[n as int].name,
        decreases n - j,
    {
        assert(ms[j as int] == ps[j as int]@);
        assert(ps[j as int] == ir::Param { name: ps[j as int].name, ty: ps[j as int].ty });
        if str_eq(ps[j].name.as_str(), ps[n].name.as_str()) {
            assert(ms[j as int].name == ms[n as int].name);
            return true;
        }
        j += 1;
    }
    false
}

fn input_ports(ps: &Vec<ir::Param>) -> (r: Result<Vec<Port>, String>)
    ensures
        match r {
            Ok(x) => lowering::input_ports(ir::params_of(ps@), 0, Seq::empty()) == Ok::<
                Seq<NPort>,
                Text,
            >(model::views(x@)),
            Err(e) => lowering::input_ports(ir::params_of(ps@), 0, Seq::empty()) == Err::<
                Seq<NPort>,
                Text,
            >(e@),
        },
{
    let ghost ms = ir::params_of(ps@);
    let mut out: Vec<Port> = Vec::new();
    assert(model::views(out@) =~= Seq::<NPort>::empty());
    let mut i: usize = 0;
    while i < ps.len()
        invariant
            i <= ps.len(),
            ms == ir::params_of(ps@),
            lowering::input_ports(ms, 0, Seq::empty()) == lowering::input_ports(
                ms,
                i as int,
                model::views(out@),
            ),
        decreases ps.len() - i,
    {
        let p = &ps[i];
        assert(ms[i as int] == p@);
        assert(*p == ir::Param { name: p.name, ty: p.ty });
        if str_eq(p.name.as_str(), "out") {
            return Err("a parameter named `out` collides with the output port".to_string());
        }
        if named_before(ps, i) {
            return Err(cat3("two parameters are named `", p.name.as_str(), "`"));
        }
        let kind = scalar_of(&p.ty)?;
        out.push(Port { dir: Dir::Input, name: p.name.clone(), width: kind.bits() });
        i += 1;
    }
    Ok(out)
}

fn param_nets(ps: &Vec<ir::Param>) -> (r: Vars)
    ensures
        env::locals(r@) == lowering::param_nets(ir::params_of(ps@)),
{
    let ghost ms = ir::params_of(ps@);
    let mut out: Vars = Vec::new();
    let mut i: usize = 0;
    while i < ps.len()
        invariant
            i <= ps.len(),
            ms == ir::params_of(ps@),
            env::locals(out@) == lowering::param_nets(ms).subrange(0, i as int),
        decreases ps.len() - i,
    {
        let p = &ps[i];
        assert(ms[i as int] == p@);
        assert(*p == ir::Param { name: p.name, ty: p.ty });
        let kind = match scalar_of(&p.ty) {
            Ok(k) => k,
            Err(_) => Scalar::Bool,
        };
        out.push((p.name.clone(), Net { expr: Expr::Ref(p.name.clone()), kind }));
        i += 1;
        assert(env::locals(out@) =~= lowering::param_nets(ms).subrange(0, i as int));
    }
    assert(env::locals(out@) =~= lowering::param_nets(ms));
    out
}

fn is_declared(item: &Item, name: &String) -> (b: bool)
    ensures
        b == (lowering::declared(item@) == name@),
{
    match item {
        Item::Wire { name: n, width: _, value: _ } => str_eq(n.as_str(), name.as_str()),
        Item::Assign { lhs, rhs: _ } => str_eq(lhs.as_str(), name.as_str()),
        Item::Instance { module: _, inst: _, conns: _, out_wire, out_width: _ } => str_eq(
            out_wire.as_str(),
            name.as_str(),
        ),
    }
}

/// Whether an item gives the name to a wire or to an instance.
fn takes(item: &Item, name: &String) -> (b: bool)
    ensures
        b == lowering::takes(item@, name@),
{
    let inst = match item {
        Item::Instance { module: _, inst, conns: _, out_wire: _, out_width: _ } => str_eq(
            inst.as_str(),
            name.as_str(),
        ),
        _ => false,
    };
    is_declared(item, name) || inst
}

fn hides(items: &Vec<Item>, ps: &Vec<ir::Param>) -> (b: bool)
    ensures
        b == lowering::hides(model::views(items@), ir::params_of(ps@)),
{
    let ghost mi = model::views(items@);
    let ghost mp = ir::params_of(ps@);
    let mut i: usize = 0;
    while i < items.len()
        invariant
            i <= items.len(),
            mi == model::views(items@),
            mp == ir::params_of(ps@),
            forall|a: int, c: int|
                0 <= a < i && 0 <= c < mp.len() ==> !lowering::takes(
                    #[trigger] mi[a],
                    (#[trigger] mp[c]).name,
                ),
        decreases items.len() - i,
    {
        let mut j: usize = 0;
        while j < ps.len()
            invariant
                i < items.len(),
                j <= ps.len(),
                mi == model::views(items@),
                mp == ir::params_of(ps@),
                forall|a: int, c: int|
                    0 <= a < i && 0 <= c < mp.len() ==> !lowering::takes(
                        #[trigger] mi[a],
                        (#[trigger] mp[c]).name,
                    ),
                forall|c: int|
                    0 <= c < j ==> !lowering::takes(mi[i as int], (#[trigger] mp[c]).name),
            decreases ps.len() - j,
        {
            assert(mp[j as int] == ps[j as int]@);
            assert(ps[j as int] == ir::Param { name: ps[j as int].name, ty: ps[j as int].ty });
            assert(mi[i as int] == items[i as int]@);
            if takes(&items[i], &ps[j].name) {
                return true;
            }
            j += 1;
        }
        i += 1;
    }
    false
}

/// The length of the longest name of a parameter.
fn longest(ps: &Vec<ir::Param>) -> (r: usize)
    ensures
        r == lowering::longest(ir::params_of(ps@), ps.len() as int),
{
    let ghost mp = ir::params_of(ps@);
    let mut r: usize = 0;
    let mut i: usize = 0;
    while i < ps.len()
        invariant
            i <= ps.len(),
            mp == ir::params_of(ps@),
            r == lowering::longest(mp, i as int),
        decreases ps.len() - i,
    {
        assert(mp[i as int] == ps[i as int]@);
        assert(ps[i as int] == ir::Param { name: ps[i as int].name, ty: ps[i as int].ty });
        let n = chars_of(ps[i].name.as_str()).len();
        if n > r {
            r = n;
        }
        i += 1;
    }
    r
}

/// The body of a function that returns a value of the type `ret`.
fn lower_body(m: &ir::Module, f: &ir::Func, ret: Scalar, pad: String) -> (r: Result<
    (Net, Vec<Item>),
    String,
>)
    ensures
        match r {
            Ok((n, items)) => lowering::lower_body(m@, f@, ret, pad@) matches Ok((x, lo)) && x == n@
                && lo.items == model::views(items@),
            Err(e) => lowering::lower_body(m@, f@, ret, pad@) == Err::<(TNet, Lo), Text>(e@),
        },
{
    reveal(lowering::lower_body);
    proof {
        assert(*f == ir::Func { name: f.name, params: f.params, ret: f.ret, body: f.body });
    }
    let mut env = param_nets(&f.params);
    let mut lo = Lowerer { items: Vec::new(), temp: 0, pad };
    assert(model::views(lo.items@) =~= Seq::<NItem>::empty());
    let n = lower_block(m, &mut env, &mut lo, &f.body)?;
    if n.kind != ret {
        let a = u32_text(n.kind.bits());
        let b = u32_text(ret.bits());
        return Err(
            cat4("internal width mismatch: body ", a.as_str(), " vs return ", b.as_str()),
        );
    }
    Ok((n, lo.items))
}

/// The module that a function becomes, or why it cannot be lowered.
fn lower_func(m: &ir::Module, name: &String, f: &ir::Func) -> (r: Result<Module, String>)
    ensures
        match r {
            Ok(x) => lowering::lower_func(m@, name@, f@) == Ok::<NModule, Text>(x@),
            Err(e) => lowering::lower_func(m@, name@, f@) == Err::<NModule, Text>(e@),
        },
{
    reveal(lowering::lower_func);
    proof {
        assert(*f == ir::Func { name: f.name, params: f.params, ret: f.ret, body: f.body });
    }
    let mut ports = input_ports(&f.params)?;
    let ret = scalar_of(&f.ret)?;
    let none = String::new();
    assert(none@ =~= Seq::<char>::empty());
    let (n, items) = lower_body(m, f, ret, none)?;
    let (n, items) = if hides(&items, &f.params) {
        let pad = repeat_char('_', longest(&f.params));
        lower_body(m, f, ret, pad)?
    } else {
        (n, items)
    };
    ports.push(Port { dir: Dir::Output, name: "out".to_string(), width: ret.bits() });
    let mut items = items;
    items.push(Item::Assign { lhs: "out".to_string(), rhs: n.expr });
    Ok(Module { name: module_name(m, name.as_str()), ports, items })
}

// ---- modules ------------------------------------------------------------

/// What becomes of each function on its own: a module, a reason, or nothing where
/// it is not synthesizable.
enum Attempt {
    Rejected,
    Failed(String),
    Done(Module),
}

impl Attempt {
    spec fn right(&self, m: TModule, i: int) -> bool {
        let r = lowering::lower_func(m, m.funcs[i].0, m.funcs[i].1);
        match self {
            Attempt::Rejected => !hdl::synthesizable(m, i),
            Attempt::Failed(e) => hdl::synthesizable(m, i) && r == Err::<NModule, Text>(e@),
            Attempt::Done(x) => hdl::synthesizable(m, i) && r == Ok::<NModule, Text>(x@),
        }
    }

    fn is_done(&self) -> (b: bool)
        ensures
            b == self is Done,
    {
        match self {
            Attempt::Done(_) => true,
            _ => false,
        }
    }
}

spec fn attempts_right(a: Seq<Attempt>, m: TModule) -> bool {
    a.len() == m.funcs.len() && forall|i: int| 0 <= i < a.len() ==> (#[trigger] a[i]).right(m, i)
}

fn attempt_all(m: &ir::Module, reports: &Vec<FunctionReport>) -> (r: Vec<Attempt>)
    requires
        model::views(reports@) == hdl::reports(m@),
    ensures
        attempts_right(r@, m@),
{
    let n = m.funcs.len();
    let mut out: Vec<Attempt> = Vec::new();
    let mut i: usize = 0;
    while i < n
        invariant
            n == m@.funcs.len(),
            i <= n,
            model::views(reports@) == hdl::reports(m@),
            out.len() == i,
            forall|j: int| 0 <= j < i ==> (#[trigger] out[j]).right(m@, j),
        decreases n - i,
    {
        let (name, f) = m.funcs.at(i);
        assert(model::views(reports@).len() == n);
        assert(model::views(reports@)[i as int] == hdl::report(m@, i as int));
        let a = if reports[i].synthesizable {
            match lower_func(m, name, f) {
                Ok(x) => Attempt::Done(x),
                Err(e) => Attempt::Failed(e),
            }
        } else {
            Attempt::Rejected
        };
        out.push(a);
        i += 1;
    }
    out
}

fn all_marked(cs: &Vec<usize>, marks: &Vec<bool>, Ghost(m): Ghost<TModule>, Ghost(k): Ghost<nat>) -> (b:
    bool)
    requires
        marks.len() == m.funcs.len(),
        forall|j: int| 0 <= j < cs.len() ==> #[trigger] cs[j] < m.funcs.len(),
        forall|i: int|
            0 <= i < marks.len() ==> #[trigger] marks[i] == lowering::lowered_within(m, i, k),
    ensures
        b == lowering::callees_lowered(m, cs@, 0, k),
{
    let mut j: usize = 0;
    while j < cs.len()
        invariant
            j <= cs.len(),
            marks.len() == m.funcs.len(),
            forall|j: int| 0 <= j < cs.len() ==> #[trigger] cs[j] < m.funcs.len(),
            forall|i: int|
                0 <= i < marks.len() ==> #[trigger] marks[i] == lowering::lowered_within(m, i, k),
            lowering::callees_lowered(m, cs@, 0, k) == lowering::callees_lowered(
                m,
                cs@,
                j as int,
                k,
            ),
        decreases cs.len() - j,
    {
        if !marks[cs[j]] {
            return false;
        }
        j += 1;
    }
    true
}

/// For each function whether it is lowered.
fn lowered_marks(m: &ir::Module, free: &Vec<bool>, adj: &Vec<Vec<usize>>) -> (r: Vec<bool>)
    requires
        free.len() == m@.funcs.len(),
        adj.len() == m@.funcs.len(),
        m@.funcs.len() <= usize::MAX,
        forall|i: int|
            0 <= i < free.len() ==> #[trigger] free[i] == lowering::candidate(m@, i),
        forall|i: int| 0 <= i < adj.len() ==> #[trigger] adj[i]@ == hdl::call_graph(m@)[i],
    ensures
        r.len() == m@.funcs.len(),
        forall|i: int| 0 <= i < r.len() ==> #[trigger] r[i] == lowering::is_lowered(m@, i),
{
    let n = m.funcs.len();
    let mut marks: Vec<bool> = Vec::new();
    let mut i: usize = 0;
    while i < n
        invariant
            i <= n,
            marks.len() == i,
            forall|j: int| 0 <= j < i ==> !#[trigger] marks[j],
        decreases n - i,
    {
        marks.push(false);
        i += 1;
    }
    let mut k: usize = 0;
    while k < n
        invariant
            n == m@.funcs.len(),
            k <= n,
            n == free.len(),
            n == adj.len(),
            marks.len() == n,
            forall|i: int|
                0 <= i < free.len() ==> #[trigger] free[i] == lowering::candidate(m@, i),
            forall|i: int| 0 <= i < adj.len() ==> #[trigger] adj[i]@ == hdl::call_graph(m@)[i],
            forall|i: int|
                0 <= i < n ==> #[trigger] marks[i] == lowering::lowered_within(m@, i, k as nat),
        decreases n - k,
    {
        let mut next: Vec<bool> = Vec::new();
        let mut i: usize = 0;
        while i < n
            invariant
                n == m@.funcs.len(),
                k < n,
                i <= n,
                n == free.len(),
                n == adj.len(),
                marks.len() == n,
                next.len() == i,
                forall|i: int|
                    0 <= i < free.len() ==> #[trigger] free[i] == lowering::candidate(m@, i),
                forall|i: int|
                    0 <= i < adj.len() ==> #[trigger] adj[i]@ == hdl::call_graph(m@)[i],
                forall|i: int|
                    0 <= i < n ==> #[trigger] marks[i] == lowering::lowered_within(m@, i, k as nat),
                forall|j: int|
                    0 <= j < i ==> #[trigger] next[j] == lowering::lowered_within(
                        m@,
                        j,
                        (k + 1) as nat,
                    ),
            decreases n - i,
        {
            assert(adj[i as int]@ == hdl::call_graph(m@)[i as int]);
            proof {
                hdl::lemma_call_graph_closed(m@);
                assert forall|j: int| 0 <= j < adj[i as int].len() implies #[trigger] adj[i as int][j]
                    < m@.funcs.len() by {
                    assert(hdl::call_graph(m@)[i as int][j] < m@.funcs.len());
                }
            }
            let b = free[i] && all_marked(&adj[i], &marks, Ghost(m@), Ghost(k as nat));
            next.push(b);
            i += 1;
        }
        marks = next;
        k += 1;
    }
    marks
}

fn first_unlowered(m: &ir::Module, cs: &Vec<usize>, marks: &Vec<bool>) -> (r: String)
    requires
        marks.len() == m@.funcs.len(),
        forall|j: int| 0 <= j < cs.len() ==> #[trigger] cs[j] < m@.funcs.len(),
        forall|i: int| 0 <= i < marks.len() ==> #[trigger] marks[i] == lowering::is_lowered(m@, i),
    ensures
        r@ == lowering::unlowered(m@, cs@, 0),
{
    let mut j: usize = 0;
    while j < cs.len()
        invariant
            j <= cs.len(),
            marks.len() == m@.funcs.len(),
            forall|j: int| 0 <= j < cs.len() ==> #[trigger] cs[j] < m@.funcs.len(),
            forall|i: int|
                0 <= i < marks.len() ==> #[trigger] marks[i] == lowering::is_lowered(m@, i),
            lowering::unlowered(m@, cs@, 0) == lowering::unlowered(m@, cs@, j as int),
        decreases cs.len() - j,
    {
        if !marks[cs[j]] {
            let (name, _) = m.funcs.at(cs[j]);
            return name.clone();
        }
        j += 1;
    }
    let r = String::new();
    assert(r@ =~= Seq::<char>::empty());
    r
}

/// Lower every synthesizable function in `module`. Functions that the analysis pass
/// rejects, or that use constructs which are not lowered yet, are recorded in
/// `skipped`, never mis-lowered.
pub fn lower(module: &ir::Module) -> (r: LowerResult)
    ensures
        r.design@ == lowering::design_from(module@, 0),
        pairs(r.skipped@) == lowering::skipped_from(module@, 0),
{
    let n = module.funcs.len();
    let reports = analyze(module);
    let mut attempts = attempt_all(module, &reports);
    let mut free: Vec<bool> = Vec::new();
    let mut adj: Vec<Vec<usize>> = Vec::new();
    let mut i: usize = 0;
    while i < n
        invariant
            n == module@.funcs.len(),
            i <= n,
            attempts_right(attempts@, module@),
            free.len() == i,
            adj.len() == i,
            forall|j: int|
                0 <= j < i ==> #[trigger] free[j] == lowering::candidate(module@, j),
            forall|j: int| 0 <= j < i ==> #[trigger] adj[j]@ == hdl::call_graph(module@)[j],
        decreases n - i,
    {
        let (_, f) = module.funcs.at(i);
        assert(*f == ir::Func { name: f.name, params: f.params, ret: f.ret, body: f.body });
        assert(attempts[i as int].right(module@, i as int));
        free.push(attempts[i].is_done());
        adj.push(callees(module, &f.body));
        i += 1;
    }
    let marks = lowered_marks(module, &free, &adj);
    let mut modules: Vec<Module> = Vec::new();
    let mut skipped: Vec<(String, String)> = Vec::new();
    let ghost whole = lowering::design_from(module@, 0);
    let ghost rest = lowering::skipped_from(module@, 0);
    assert(model::views(modules@) + whole =~= whole);
    assert(pairs(skipped@) + rest =~= rest);
    let ghost all = attempts@;
    i = 0;
    while i < n
        invariant
            n == module@.funcs.len(),
            i <= n,
            model::views(reports@) == hdl::reports(module@),
            attempts_right(all, module@),
            attempts.len() == n,
            forall|j: int| i <= j < n ==> attempts[j] == #[trigger] all[j],
            adj.len() == n,
            marks.len() == n,
            forall|j: int| 0 <= j < n ==> #[trigger] adj[j]@ == hdl::call_graph(module@)[j],
            forall|j: int|
                0 <= j < n ==> #[trigger] marks[j] == lowering::is_lowered(module@, j),
            whole == model::views(modules@) + lowering::design_from(module@, i as int),
            rest == pairs(skipped@) + lowering::skipped_from(module@, i as int),
        decreases n - i,
    {
        let (name, _) = module.funcs.at(i);
        let ghost idx = i as int;
        assert(all[idx].right(module@, idx));
        assert(marks[idx] == lowering::is_lowered(module@, idx));
        let mut mine = Attempt::Rejected;
        std::mem::swap(&mut mine, &mut attempts[i]);
        assert(mine == all[idx]);
        let ghost mods = model::views(modules@);
        let ghost gone = pairs(skipped@);
        let ghost more = lowering::design_from(module@, idx + 1);
        let ghost later = lowering::skipped_from(module@, idx + 1);
        if marks[i] {
            if let Attempt::Done(x) = mine {
                let ghost added = x@;
                modules.push(x);
                assert(added == lowering::module_of(module@, idx));
                assert(mods + (seq![added] + more) =~= model::views(modules@) + more);
            } else {
                assert(false);
            }
        } else {
            let reason = match mine {
                Attempt::Rejected => {
                    assert(model::views(reports@).len() == n);
                    assert(model::views(reports@)[idx] == hdl::report(module@, idx));
                    join(&reports[i].reasons, "; ")
                },
                Attempt::Failed(e) => cat2("codegen unsupported: ", e.as_str()),
                Attempt::Done(_) => {
                    proof {
                        hdl::lemma_call_graph_closed(module@);
                        assert forall|j: int| 0 <= j < adj[idx].len() implies #[trigger] adj[idx][j]
                            < module@.funcs.len() by {
                            assert(hdl::call_graph(module@)[idx][j] < module@.funcs.len());
                        }
                    }
                    let c = first_unlowered(module, &adj[i], &marks);
                    let why = cat3("calls `", c.as_str(), "`, which is not lowered");
                    cat2("codegen unsupported: ", why.as_str())
                },
            };
            assert(reason@ == lowering::skip_reason(module@, idx));
            let ghost added = (name@, reason@);
            skipped.push((name.clone(), reason));
            assert(pairs(skipped@) =~= gone.push(added));
            assert(gone + (seq![added] + later) =~= pairs(skipped@) + later);
        }
        i += 1;
    }
    assert(model::views(modules@) + Seq::<NModule>::empty() =~= model::views(modules@));
    assert(pairs(skipped@) + Seq::<(Text, Text)>::empty() =~= pairs(skipped@));
    LowerResult { design: Design { modules }, skipped }
}

/// The lines for the functions from position `i` on that were skipped.
pub open spec fn skip_lines(s: Seq<(Text, Text)>, i: int) -> Text
    decreases s.len() - i,
{
    if i < 0 || i >= s.len() {
        Seq::empty()
    } else {
        "// skipped `"@ + s[i].0 + "`: "@ + s[i].1 + "\n"@ + skip_lines(s, i + 1)
    }
}

/// The text of a lowered module: a header, the skipped functions, the modules.
pub open spec fn emitted(m: TModule) -> Text {
    let d = lowering::design_from(m, 0);
    let s = lowering::skipped_from(m, 0);
    "// Generated by the Rune Verilog backend (synthesizable subset only).\n// Semantics match the Rune interpreter bit-for-bit.\n\n"@
        + skip_lines(s, 0) + (if s.len() > 0 {
        "\n"@
    } else {
        Seq::empty()
    }) + crate::netlist::design_text(d) + (if d.len() > 0 {
        "\n"@
    } else {
        Seq::empty()
    })
}

fn skip_text(s: &Vec<(String, String)>) -> (r: String)
    ensures
        r@ == skip_lines(pairs(s@), 0),
{
    let ghost ms = pairs(s@);
    let mut out = String::new();
    assert(out@ =~= Seq::<char>::empty());
    let mut i: usize = 0;
    assert(out@ + skip_lines(ms, 0) =~= skip_lines(ms, 0));
    while i < s.len()
        invariant
            i <= s.len(),
            ms == pairs(s@),
            skip_lines(ms, 0) == out@ + skip_lines(ms, i as int),
        decreases s.len() - i,
    {
        assert(ms[i as int] == (s[i as int].0@, s[i as int].1@));
        let line = text::cat5("// skipped `", s[i].0.as_str(), "`: ", s[i].1.as_str(), "\n");
        let ghost rest = skip_lines(ms, i as int + 1);
        let next = cat2(out.as_str(), line.as_str());
        assert(out@ + (line@ + rest) =~= next@ + rest);
        out = next;
        i += 1;
    }
    assert(out@ + Seq::<char>::empty() =~= out@);
    out
}

/// Emit the Verilog text for a module's synthesizable functions (header, `skipped`
/// comments, modules).
pub fn emit(module: &ir::Module) -> (r: String)
    ensures
        r@ == emitted(module@),
{
    let result = lower(module);
    let s = skip_text(&result.skipped);
    let d = result.design.to_text();
    proof {
        reveal_strlit("");
        assert(""@ =~= Seq::<char>::empty());
    }
    let gap = if result.skipped.len() > 0 {
        "\n"
    } else {
        ""
    };
    let end = if result.design.modules.len() > 0 {
        "\n"
    } else {
        ""
    };
    text::cat5(
        "// Generated by the Rune Verilog backend (synthesizable subset only).\n// Semantics match the Rune interpreter bit-for-bit.\n\n",
        s.as_str(),
        gap,
        d.as_str(),
        end,
    )
}

} // verus!
