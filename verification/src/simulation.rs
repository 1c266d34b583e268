//! The items of a lowered body, run beside the evaluation of the body: by induction
//! over the body, every net carries the value that the interpreter computes.

use crate::arith;
use crate::ir::{BinOp, TArm, TBlock, TExpr, TFunc, TKind, TModule, TParam, TPattern, TStmt, TType};
use crate::lowering::{self, Lo, Nets, Scalar, TNet};
use crate::name_map;
use crate::netlist::{self, NExpr, NItem, NModule, NPort, Wires};
use crate::purity;
use crate::scan::{self, Sought};
use crate::semantics::{self, Flow, Locals, Mem};
use crate::text::Text;
use crate::value::VVal;
use crate::wires;
use vstd::arithmetic::power2::*;
use vstd::prelude::*;

verus! {

/// Where a function's items run: the module and its design, how deep instances
/// may nest, and the ports, items and parameters of the function.
pub struct Site {
    pub m: TModule,
    pub d: Seq<NModule>,
    pub depth: nat,
    pub ports: Seq<NPort>,
    pub items: Seq<NItem>,
    pub params: Seq<TParam>,
}

/// The wires after the items from position `i` on.
pub open spec fn go(c: Site, i: nat, w: Wires) -> Option<Wires> {
    netlist::run_items(c.d, c.depth, c.ports, c.items, i as int, w)
}

/// Whether the items so far are the first of the site.
pub open spec fn within(c: Site, lo: Lo) -> bool {
    lo.items.len() <= c.items.len() && forall|i: int|
        0 <= i < lo.items.len() ==> #[trigger] c.items[i] == lo.items[i]
}

/// Whether no item declares a wire with the name of a parameter.
pub open spec fn clear(c: Site) -> bool {
    forall|i: int, j: int|
        0 <= i < c.items.len() && 0 <= j < c.params.len() ==> lowering::declared(
            #[trigger] c.items[i],
        ) != (#[trigger] c.params[j]).name
}

/// Whether `inputs` drives every parameter.
pub open spec fn supplied(inputs: Wires, ps: Seq<TParam>) -> bool {
    forall|i: int| 0 <= i < ps.len() ==> semantics::slot(inputs, (#[trigger] ps[i]).name) is Some
}

/// Whether `inputs` drives every parameter with the bits of its argument.
pub open spec fn agrees(inputs: Wires, ps: Seq<TParam>, args: Seq<VVal>) -> bool {
    &&& supplied(inputs, ps)
    &&& args.len() == ps.len()
    &&& forall|i: int|
        0 <= i < ps.len() ==> wires::typed(args[i], lowering::kind_of((#[trigger] ps[i]).ty))
            && netlist::on_wire(inputs, ps[i].name) == wires::bits(args[i])
}

/// Whether the parameters have names of their own.
pub open spec fn distinct(ps: Seq<TParam>) -> bool {
    forall|i: int, j: int|
        0 <= i < j < ps.len() ==> (#[trigger] ps[i]).name != (#[trigger] ps[j]).name
}

/// What a call computes, against what an instance drives.
pub open spec fn same_result(r: Result<VVal, Flow>, kind: Scalar, out: u128) -> bool {
    match r {
        Ok(v) => wires::typed(v, kind) && wires::bits(v) == out,
        Err(_) => true,
    }
}

/// Whether an instance of the function, with the parameters driven, drives a value
/// of its type, and the value of a call wherever the inputs are its arguments.
pub open spec fn behaves_on(m: TModule, d: Seq<NModule>, name: Text, f: TFunc, k: nat, inputs: Wires) -> bool {
    let kind = lowering::kind_of(f.ret);
    supplied(inputs, f.params) ==> match netlist::run(d, k, lowering::module_name(m, name), inputs) {
        None => false,
        Some(out) => wires::in_kind(out, kind) && forall|fuel: nat, args: Seq<VVal>, s: Mem|
            agrees(inputs, f.params, args) ==> same_result(
                (#[trigger] semantics::call_func(m, fuel, name, args, s)).0,
                kind,
                out,
            ),
    }
}

/// Whether every instance of the function behaves, with instances nested to the
/// depth `k`.
#[verifier::opaque]
pub open spec fn behaves(m: TModule, d: Seq<NModule>, name: Text, k: nat) -> bool {
    match name_map::find(m.funcs, name) {
        None => true,
        Some(f) => distinct(f.params) && forall|inputs: Wires|
            #[trigger] behaves_on(m, d, name, f, k, inputs),
    }
}

pub open spec fn fine(c: Site, g: Text) -> bool {
    behaves(c.m, c.d, g, c.depth)
}

pub open spec fn fine_expr(c: Site, e: TExpr) -> bool {
    forall|g: Text| #[trigger] scan::expr_has(e, Sought::Call(g)) ==> fine(c, g)
}

pub open spec fn fine_args(c: Site, es: Seq<TExpr>, i: int) -> bool {
    forall|g: Text| #[trigger] scan::exprs_have(es, Sought::Call(g), i) ==> fine(c, g)
}

pub open spec fn fine_arms(c: Site, arms: Seq<TArm>, i: int) -> bool {
    forall|k: int| i <= k < arms.len() ==> #[trigger] fine_arm(c, arms[k])
}

pub open spec fn fine_arm(c: Site, a: TArm) -> bool {
    forall|g: Text| #[trigger] scan::arm_has(a, Sought::Call(g)) ==> fine(c, g)
}

pub open spec fn fine_block(c: Site, b: TBlock) -> bool {
    forall|g: Text| #[trigger] scan::block_has(b, Sought::Call(g)) ==> fine(c, g)
}

pub open spec fn steady_env(env: Nets, w: Wires) -> bool {
    forall|i: int| 0 <= i < env.len() ==> wires::steady((#[trigger] env[i]).1, w)
}

/// Whether the nets carry the values of the variables.
pub open spec fn related(env: Nets, vars: Locals, w: Wires) -> bool {
    &&& env.len() == vars.len()
    &&& forall|i: int|
        0 <= i < env.len() ==> (#[trigger] env[i]).0 == vars[i].0 && wires::carries(
            vars[i].1,
            env[i].1,
            w,
        )
}

proof fn lemma_env_more(env: Nets, vars: Locals, a: Wires, b: Wires)
    requires
        wires::extends(a, b),
    ensures
        steady_env(env, a) ==> steady_env(env, b),
        related(env, vars, a) ==> related(env, vars, b),
{
    if steady_env(env, a) {
        assert forall|i: int| 0 <= i < env.len() implies wires::steady((#[trigger] env[i]).1, b) by {
            wires::lemma_steady(env[i].1, a, b);
        }
    }
    if related(env, vars, a) {
        assert forall|i: int| 0 <= i < env.len() implies (#[trigger] env[i]).0 == vars[i].0
            && wires::carries(vars[i].1, env[i].1, b) by {
            wires::lemma_steady(env[i].1, a, b);
        }
    }
}

pub proof fn lemma_within(c: Site, a: Lo, b: Lo)
    requires
        wires::grown(a, b),
        within(c, b),
    ensures
        within(c, a),
{
    assert forall|i: int| 0 <= i < a.items.len() implies #[trigger] c.items[i] == a.items[i] by {
        assert(b.items[i] == a.items[i]);
    }
}

/// Whether the wires are those of the parameters and of the numbers used so far.
pub open spec fn placed(c: Site, lo: Lo, w: Wires) -> bool {
    wires::grounded(w, lo.temp, c.params) && lo.pad == lowering::underscores(lo.pad.len())
}

/// One wire further.
proof fn step_wire(c: Site, lo: Lo, prefix: Text, kind: Scalar, e: NExpr, w: Wires) -> (w1: Wires)
    requires
        within(c, lowering::wire(lo, prefix, kind, e).1),
        wires::is_stem(prefix),
        placed(c, lo, w),
        clear(c),
    ensures
        ({
            let (n, lo1) = lowering::wire(lo, prefix, kind, e);
            &&& go(c, lo.items.len(), w) == go(c, lo1.items.len(), w1)
            &&& wires::extends(w, w1)
            &&& placed(c, lo1, w1)
            &&& wires::steady(n, w1)
            &&& n.kind == kind
            &&& n.expr.value(w1) == netlist::truncated(e.value(w), kind.width())
        }),
{
    let (n, lo1) = lowering::wire(lo, prefix, kind, e);
    let i = lo.items.len() as int;
    let v = netlist::truncated(e.value(w), kind.width());
    let name = lowering::fresh(prefix + lo.pad, lo.temp);
    let w1 = w.push((name, v));
    assert(c.items[i] == lo1.items[i]);
    assert(lowering::declared(c.items[i]) == name);
    assert(netlist::run_item(c.d, c.depth, c.ports, c.items[i], w) == Some(w1));
    assert forall|j: int| 0 <= j < c.params.len() implies (#[trigger] c.params[j]).name != name by {
        assert(lowering::declared(c.items[i]) != c.params[j].name);
    }
    wires::lemma_stem(prefix, lo.pad.len());
    wires::lemma_new_wire(w, prefix + lo.pad, lo.temp, v, c.params);
    wires::lemma_truncated_fits(e.value(w), kind.width());
    w1
}

/// The reduced amount of a shift.
proof fn step_reduced(c: Site, amount: TNet, width: u32, lo: Lo, w: Wires) -> (w1: Wires)
    requires
        within(c, lowering::reduced(amount, width, lo).1),
        placed(c, lo, w),
        clear(c),
        wires::steady(amount, w),
    ensures
        ({
            let (n, lo1) = lowering::reduced(amount, width, lo);
            &&& go(c, lo.items.len(), w) == go(c, lo1.items.len(), w1)
            &&& wires::extends(w, w1)
            &&& placed(c, lo1, w1)
            &&& wires::steady(n, w1)
            &&& arith::bits_of_width(width) > 0 ==> n.expr.value(w1) == wires::amount_of(
                amount.expr.value(w),
                width,
            )
        }),
{
    let b = amount.expr.value(w);
    let e = arith::bits_of_width(width);
    let aw = amount.kind.width();
    wires::lemma_reduced_value(b, amount.kind, width);
    wires::lemma_stems();
    if lowering::is_power_of_two(e) {
        let mask = NExpr::Const { value: (e - 1) as u128, width: aw };
        let x = lowering::bin(BinOp::BitAnd, amount.expr, mask);
        assert(mask.value(w) == netlist::truncated((e - 1) as u128, aw));
        assert(x.value(w) == b & mask.value(w));
        step_wire(c, lo, "w"@, amount.kind, x, w)
    } else if e < pow2(arith::bits_of_width(aw)) {
        let by = NExpr::Const { value: e as u128, width: aw };
        let x = lowering::bin(BinOp::Rem, amount.expr, by);
        assert(by.value(w) == netlist::truncated(e as u128, aw));
        assert(x.value(w) == netlist::apply(BinOp::Rem, b, by.value(w)));
        step_wire(c, lo, "w"@, amount.kind, x, w)
    } else {
        w
    }
}

/// The value of an operator on wires, for a wire of the type of its result.
proof fn lemma_bin_value(op: BinOp, l: NExpr, r: NExpr, w: Wires)
    ensures
        lowering::bin(op, l, r).value(w) == netlist::apply(op, l.value(w), r.value(w)),
{
}

/// What a binary operator's net carries.
pub open spec fn binary_fact(op: BinOp, l: TNet, r: TNet, w: Wires, n: TNet, w1: Wires, lv: VVal, rv: VVal) -> bool {
    if op.logical() {
        n.kind == Scalar::Bool && n.expr.value(w1) == netlist::apply(
            op,
            l.expr.value(w),
            r.expr.value(w),
        )
    } else {
        wires::carries(lv, l, w) && wires::carries(rv, r, w) ==> match semantics::binary(
            op,
            lv,
            rv,
        ) {
            Ok(v) => wires::carries(v, n, w1),
            Err(f) => !(f is Return),
        }
    }
}

proof fn step_shift(c: Site, op: BinOp, l: TNet, r: TNet, lo: Lo, w: Wires, lv: VVal, rv: VVal) -> (w1: Wires)
    requires
        op is Shl || op is Shr,
        ({
            let (amount, lo1) = lowering::reduced(r, l.kind.width(), lo);
            within(c, lowering::wire(lo1, "w"@, l.kind, lowering::bin(op, l.expr, amount.expr)).1)
        }),
        placed(c, lo, w),
        clear(c),
        wires::steady(l, w),
        wires::steady(r, w),
    ensures
        ({
            let (amount, lo1) = lowering::reduced(r, l.kind.width(), lo);
            let (n, lo2) = lowering::wire(lo1, "w"@, l.kind, lowering::bin(op, l.expr, amount.expr));
            &&& go(c, lo.items.len(), w) == go(c, lo2.items.len(), w1)
            &&& wires::extends(w, w1)
            &&& placed(c, lo2, w1)
            &&& wires::steady(n, w1)
            &&& binary_fact(op, l, r, w, n, w1, lv, rv)
        }),
{
    let width = l.kind.width();
    let (amount, lo1) = lowering::reduced(r, width, lo);
    let x = lowering::bin(op, l.expr, amount.expr);
    let (n, lo2) = lowering::wire(lo1, "w"@, l.kind, x);
    lemma_within(c, lo1, lo2);
    let w1 = step_reduced(c, r, width, lo, w);
    wires::lemma_stems();
    let w2 = step_wire(c, lo1, "w"@, l.kind, x, w1);
    wires::lemma_extends_trans(w, w1, w2);
    wires::lemma_steady(l, w, w1);
    lemma_bin_value(op, l.expr, amount.expr, w1);
    if wires::carries(lv, l, w) && wires::carries(rv, r, w) {
        match lv {
            VVal::Bit(a, k) => {
                wires::lemma_amount(rv, r.kind);
                let b = wires::bits(rv);
                let e = arith::bits_of_width(k);
                let am = amount.expr.value(w1);
                let res = arith::bit_op(op, a, b, k)->Ok_0;
                arith::law_wrap_range(res, k);
                if e > 0 {
                    vstd::arithmetic::div_mod::lemma_mod_bound(b as int % arith::two128(), e as int);
                    assert(am == arith::shift_amount(b as int, k));
                    wires::lemma_shift(op, a, am, k);
                } else {
                    lemma2_to64();
                    wires::lemma_truncated_fits(netlist::apply(op, a, am), k);
                }
                assert(n.expr.value(w2) == arith::wrap(res, k));
                assert(semantics::binary(op, lv, rv) == Ok::<VVal, Flow>(
                    VVal::Bit(arith::wrap(res, k) as u128, k),
                ));
            },
            _ => {},
        }
    }
    w2
}

/// A binary operator's items.
#[verifier::rlimit(40)]
proof fn step_binary(
    c: Site,
    op: BinOp,
    ty: TType,
    l: TNet,
    r: TNet,
    lo: Lo,
    w: Wires,
    lv: VVal,
    rv: VVal,
) -> (w1: Wires)
    requires
        lowering::binary_net(op, ty, l, r, lo) is Ok,
        within(c, lowering::state_of(lowering::binary_net(op, ty, l, r, lo))),
        placed(c, lo, w),
        clear(c),
        wires::steady(l, w),
        wires::steady(r, w),
    ensures
        ({
            let n = lowering::net_of(lowering::binary_net(op, ty, l, r, lo));
            let lo1 = lowering::state_of(lowering::binary_net(op, ty, l, r, lo));
            &&& go(c, lo.items.len(), w) == go(c, lo1.items.len(), w1)
            &&& wires::extends(w, w1)
            &&& placed(c, lo1, w1)
            &&& wires::steady(n, w1)
            &&& binary_fact(op, l, r, w, n, w1, lv, rv)
        }),
{
    reveal(lowering::binary_net);
    wires::lemma_stems();
    if op is Shl || op is Shr {
        step_shift(c, op, l, r, lo, w, lv, rv)
    } else {
        let x = lowering::bin(op, l.expr, r.expr);
        let kind = lowering::net_of(lowering::binary_net(op, ty, l, r, lo)).kind;
        lemma_bin_value(op, l.expr, r.expr, w);
        let w1 = step_wire(c, lo, "w"@, kind, x, w);
        if op.logical() {
            lemma2_to64();
            vstd::arithmetic::div_mod::lemma_small_mod(0, 2);
            vstd::arithmetic::div_mod::lemma_small_mod(1, 2);
        } else if wires::carries(lv, l, w) && wires::carries(rv, r, w) && semantics::binary(
            op,
            lv,
            rv,
        ) is Ok {
            if op.comparing() {
                wires::lemma_compare(op, lv, rv, l.kind);
            } else {
                match (lv, rv) {
                    (VVal::Bit(a, k), VVal::Bit(b, _)) => {
                        wires::lemma_bit_op(op, a, b, k);
                        arith::law_wrap_range(arith::bit_op(op, a, b, k)->Ok_0, k);
                    },
                    _ => {},
                }
            }
        }
        w1
    }
}

// ---- the induction ------------------------------------------------------

/// An evaluation against the net that stands for it.
pub open spec fn mirrors(r: (Result<VVal, Flow>, Mem), n: TNet, w: Wires, s: Mem) -> bool {
    match r.0 {
        Ok(v) => wires::carries(v, n, w) && r.1.env == s.env,
        Err(f) => !(f is Return),
    }
}

/// What a lowering step leads to.
pub open spec fn reaches(c: Site, lo: Lo, w: Wires, n: TNet, lo1: Lo, w1: Wires) -> bool {
    &&& go(c, lo.items.len(), w) == go(c, lo1.items.len(), w1)
    &&& wires::extends(w, w1)
    &&& placed(c, lo1, w1)
    &&& wires::steady(n, w1)
}

/// Evaluation of the statements of a block from position `i` on and of its tail,
/// with what it introduced still in scope.
pub open spec fn block_rest(m: TModule, fuel: nat, b: TBlock, i: int, s: Mem) -> (
    Result<VVal, Flow>,
    Mem,
) {
    match semantics::eval_stmts(m, fuel, b.stmts, i, s) {
        (Err(x), s1) => (Err(x), s1),
        (Ok(_), s1) => match b.tail {
            None => (Ok(VVal::Unit), s1),
            Some(e) => semantics::eval_expr(m, fuel, *e, s1),
        },
    }
}

/// A block's evaluation against the net that stands for it.
pub open spec fn mirrors_block(
    r: (Result<VVal, Flow>, Mem),
    n: TNet,
    w: Wires,
    s: Mem,
) -> bool {
    match r.0 {
        Ok(v) => wires::carries(v, n, w) && purity::keeps(s.env, r.1.env),
        Err(Flow::Return(_)) => false,
        Err(_) => true,
    }
}

proof fn lemma_block_rest(m: TModule, fuel: nat, b: TBlock, s: Mem, n: TNet, w: Wires)
    requires
        mirrors_block(block_rest(m, fuel, b, 0, s), n, w, s),
    ensures
        mirrors(semantics::eval_block(m, fuel, b, s), n, w, s),
{
}

proof fn lemma_fine_arg(c: Site, es: Seq<TExpr>, i: int)
    requires
        fine_args(c, es, i),
        0 <= i < es.len(),
    ensures
        fine_expr(c, es[i]),
        fine_args(c, es, i + 1),
{
    assert forall|g: Text| #[trigger] scan::expr_has(es[i], Sought::Call(g)) implies fine(c, g) by {
        assert(scan::exprs_have(es, Sought::Call(g), i));
    }
    assert forall|g: Text| #[trigger] scan::exprs_have(es, Sought::Call(g), i + 1) implies fine(
        c,
        g,
    ) by {
        assert(scan::exprs_have(es, Sought::Call(g), i));
    }
}

proof fn lemma_arm_in(arms: Seq<TArm>, x: Sought, i: int, k: int)
    requires
        0 <= i <= k < arms.len(),
        scan::arm_has(arms[k], x),
    ensures
        scan::arms_have(arms, x, i),
    decreases k - i,
{
    if i < k {
        lemma_arm_in(arms, x, i + 1, k);
    }
}

proof fn lemma_stmt_in(sts: Seq<TStmt>, x: Sought, i: int, k: int)
    requires
        0 <= i <= k < sts.len(),
        scan::stmt_has(sts[k], x),
    ensures
        scan::stmts_have(sts, x, i),
    decreases k - i,
{
    if i < k {
        lemma_stmt_in(sts, x, i + 1, k);
    }
}

/// The expression of a statement that is lowered.
proof fn lemma_fine_stmt(c: Site, b: TBlock, i: int, e: TExpr)
    requires
        fine_block(c, b),
        0 <= i < b.stmts.len(),
        match b.stmts[i] {
            TStmt::Let { name, mutable, ty, init } => e == init,
            TStmt::Return { value } => value == Some(e),
            _ => false,
        },
    ensures
        fine_expr(c, e),
{
    assert forall|g: Text| #[trigger] scan::expr_has(e, Sought::Call(g)) implies fine(c, g) by {
        assert(scan::stmt_has(b.stmts[i], Sought::Call(g)));
        lemma_stmt_in(b.stmts, Sought::Call(g), 0, i);
        assert(scan::block_has(b, Sought::Call(g)));
    }
}

proof fn lemma_fine_tail(c: Site, b: TBlock)
    requires
        fine_block(c, b),
        b.tail is Some,
    ensures
        fine_expr(c, *b.tail->Some_0),
{
    assert forall|g: Text| #[trigger]
        scan::expr_has(*b.tail->Some_0, Sought::Call(g)) implies fine(c, g) by {
        assert(scan::block_has(b, Sought::Call(g)));
    }
}

/// The parts of an expression call nothing that it does not call.
proof fn lemma_fine_parts(c: Site, e: TExpr)
    requires
        fine_expr(c, e),
    ensures
        match e.kind {
            TKind::Unary { op, expr } => fine_expr(c, *expr),
            TKind::Binary { op, lhs, rhs } => fine_expr(c, *lhs) && fine_expr(c, *rhs),
            TKind::Call { func, args } => fine(c, func) && fine_args(c, args, 0),
            TKind::If { cond, then_branch, else_branch } => fine_expr(c, *cond) && fine_block(
                c,
                then_branch,
            ) && fine_block(c, else_branch),
            TKind::Match { scrutinee, arms } => fine_expr(c, *scrutinee) && fine_arms(c, arms, 0),
            TKind::Block(b) => fine_block(c, b),
            _ => true,
        },
{
    match e.kind {
        TKind::Unary { op, expr } => {
            assert forall|g: Text| #[trigger]
                scan::expr_has(*expr, Sought::Call(g)) implies fine(c, g) by {
                assert(scan::expr_has(e, Sought::Call(g)));
            }
        },
        TKind::Binary { op, lhs, rhs } => {
            assert forall|g: Text| #[trigger]
                scan::expr_has(*lhs, Sought::Call(g)) implies fine(c, g) by {
                assert(scan::expr_has(e, Sought::Call(g)));
            }
            assert forall|g: Text| #[trigger]
                scan::expr_has(*rhs, Sought::Call(g)) implies fine(c, g) by {
                assert(scan::expr_has(e, Sought::Call(g)));
            }
        },
        TKind::Call { func, args } => {
            assert(scan::expr_has(e, Sought::Call(func)));
            assert forall|g: Text| #[trigger]
                scan::exprs_have(args, Sought::Call(g), 0) implies fine(c, g) by {
                assert(scan::expr_has(e, Sought::Call(g)));
            }
        },
        TKind::If { cond, then_branch, else_branch } => {
            assert forall|g: Text| #[trigger]
                scan::expr_has(*cond, Sought::Call(g)) implies fine(c, g) by {
                assert(scan::expr_has(e, Sought::Call(g)));
            }
            assert forall|g: Text| #[trigger]
                scan::block_has(then_branch, Sought::Call(g)) implies fine(c, g) by {
                assert(scan::expr_has(e, Sought::Call(g)));
            }
            assert forall|g: Text| #[trigger]
                scan::block_has(else_branch, Sought::Call(g)) implies fine(c, g) by {
                assert(scan::expr_has(e, Sought::Call(g)));
            }
        },
        TKind::Match { scrutinee, arms } => {
            assert forall|g: Text| #[trigger]
                scan::expr_has(*scrutinee, Sought::Call(g)) implies fine(c, g) by {
                assert(scan::expr_has(e, Sought::Call(g)));
            }
            assert forall|k: int| 0 <= k < arms.len() implies #[trigger] fine_arm(c, arms[k]) by {
                assert forall|g: Text| #[trigger]
                    scan::arm_has(arms[k], Sought::Call(g)) implies fine(c, g) by {
                    lemma_arm_in(arms, Sought::Call(g), 0, k);
                    assert(scan::expr_has(e, Sought::Call(g)));
                }
            }
        },
        TKind::Block(b) => {
            assert forall|g: Text| #[trigger]
                scan::block_has(b, Sought::Call(g)) implies fine(c, g) by {
                assert(scan::expr_has(e, Sought::Call(g)));
            }
        },
        _ => {},
    }
}

proof fn lemma_fine_body(c: Site, a: TArm)
    requires
        fine_arm(c, a),
    ensures
        fine_expr(c, a.body),
{
    assert forall|g: Text| #[trigger] scan::expr_has(a.body, Sought::Call(g)) implies fine(c, g) by {
        assert(scan::arm_has(a, Sought::Call(g)));
    }
}

/// A variable's net carries its value.
proof fn lemma_local(env: Nets, vars: Locals, name: Text, w: Wires)
    requires
        steady_env(env, w),
        semantics::slot(env, name) is Some,
    ensures
        wires::steady(env[semantics::slot(env, name)->Some_0].1, w),
        related(env, vars, w) ==> semantics::slot(vars, name) == semantics::slot(env, name)
            && wires::carries(
            vars[semantics::slot(env, name)->Some_0].1,
            env[semantics::slot(env, name)->Some_0].1,
            w,
        ),
{
    wires::lemma_slot_bound(env, name, env.len() as int);
    if related(env, vars, w) {
        wires::lemma_slot_same(env, vars, name, env.len() as int);
    }
}

/// A literal's net carries its value.
proof fn lemma_literal(v: i128, ty: TType, lo: Lo, w: Wires)
    requires
        lowering::literal(v, ty, lo) is Ok,
    ensures
        lowering::state_of(lowering::literal(v, ty, lo)) == lo,
        wires::carries(
            semantics::make_int(v as int, ty),
            lowering::net_of(lowering::literal(v, ty, lo)),
            w,
        ),
{
    reveal(lowering::literal);
    reveal(lowering::scalar_of);
    match ty {
        TType::Bit(n) => {
            arith::law_wrap_range(v as int, n);
        },
        _ => {},
    }
}

proof fn lemma_truth(b: bool, w: Wires)
    ensures
        wires::carries(
            VVal::Bool(b),
            lowering::constant(
                if b {
                    1
                } else {
                    0
                },
                Scalar::Bool,
            ),
            w,
        ),
{
    lemma2_to64();
    vstd::arithmetic::div_mod::lemma_small_mod(0, 2);
    vstd::arithmetic::div_mod::lemma_small_mod(1, 2);
}

/// Where a lowering step starts.
pub open spec fn ready(c: Site, env: Nets, lo: Lo, w: Wires) -> bool {
    clear(c) && steady_env(env, w) && placed(c, lo, w)
}

proof fn eq_expr(c: Site, env: Nets, lo: Lo, e: TExpr, w: Wires, fuel: nat, s: Mem) -> (w1: Wires)
    requires
        ready(c, env, lo, w),
        lowering::lower_expr(c.m, env, lo, e) is Ok,
        within(c, lowering::state_of(lowering::lower_expr(c.m, env, lo, e))),
        fine_expr(c, e),
    ensures
        ({
            let (n, lo1) = lowering::lower_expr(c.m, env, lo, e)->Ok_0;
            &&& reaches(c, lo, w, n, lo1, w1)
            &&& related(env, s.env, w) ==> mirrors(
                semantics::eval_expr(c.m, fuel, e, s),
                n,
                w1,
                s,
            )
        }),
    decreases e, 1int, 0int,
{
    lemma_fine_parts(c, e);
    match e.kind {
        TKind::Int(v) => {
            lemma_literal(v, e.ty, lo, w);
            w
        },
        TKind::Bool(b) => {
            lemma_truth(b, w);
            w
        },
        TKind::Local(name) => {
            reveal(lowering::local);
            lemma_local(env, s.env, name, w);
            w
        },
        TKind::Unary { op, expr } => eq_unary(c, env, lo, e, w, fuel, s),
        TKind::Binary { op, lhs, rhs } => eq_binary(c, env, lo, e, w, fuel, s),
        TKind::Call { func, args } => eq_call(c, env, lo, e, w, fuel, s),
        TKind::If { cond, then_branch, else_branch } => eq_if(c, env, lo, e, w, fuel, s),
        TKind::Match { scrutinee, arms } => eq_match(c, env, lo, e, w, fuel, s),
        TKind::Block(b) => {
            let f = if fuel == 0 {
                0
            } else {
                (fuel - 1) as nat
            };
            let w1 = eq_block(c, env, lo, b, 0, w, f, s);
            let (n, lo1) = lowering::lower_expr(c.m, env, lo, e)->Ok_0;
            if related(env, s.env, w) {
                lemma_block_rest(c.m, f, b, s, n, w1);
            }
            w1
        },
        _ => {
            reveal(lowering::refused);
            w
        },
    }
}

proof fn eq_unary(c: Site, env: Nets, lo: Lo, e: TExpr, w: Wires, fuel: nat, s: Mem) -> (w1: Wires)
    requires
        e.kind is Unary,
        ready(c, env, lo, w),
        lowering::lower_expr(c.m, env, lo, e) is Ok,
        within(c, lowering::state_of(lowering::lower_expr(c.m, env, lo, e))),
        fine_expr(c, e),
    ensures
        ({
            let (n, lo1) = lowering::lower_expr(c.m, env, lo, e)->Ok_0;
            &&& reaches(c, lo, w, n, lo1, w1)
            &&& related(env, s.env, w) ==> mirrors(
                semantics::eval_expr(c.m, fuel, e, s),
                n,
                w1,
                s,
            )
        }),
    decreases e, 0int, 0int,
{
    lemma_fine_parts(c, e);
    reveal(lowering::unary_net);
    wires::lemma_stems();
    let f = if fuel == 0 {
        0
    } else {
        (fuel - 1) as nat
    };
    match e.kind {
        TKind::Unary { op, expr } => {
            let (i, lo1) = lowering::lower_expr(c.m, env, lo, *expr)->Ok_0;
            let x = NExpr::Un { op, e: Box::new(i.expr) };
            let (n, lo2) = lowering::wire(lo1, "w"@, i.kind, x);
            lemma_within(c, lo1, lo2);
            let w1 = eq_expr(c, env, lo, *expr, w, f, s);
            let w2 = step_wire(c, lo1, "w"@, i.kind, x, w1);
            wires::lemma_extends_trans(w, w1, w2);
            assert(x.value(w1) == netlist::apply_un(op, i.expr.value(w1)));
            if related(env, s.env, w) {
                match semantics::eval_expr(c.m, f, *expr, s) {
                    (Ok(v), s1) => {
                        if semantics::unary(op, v) is Ok {
                            wires::lemma_unary(op, v, i.kind);
                        }
                    },
                    _ => {},
                }
            }
            w2
        },
        _ => w,
    }
}

#[verifier::rlimit(40)]
proof fn eq_binary(c: Site, env: Nets, lo: Lo, e: TExpr, w: Wires, fuel: nat, s: Mem) -> (w1: Wires)
    requires
        e.kind is Binary,
        ready(c, env, lo, w),
        lowering::lower_expr(c.m, env, lo, e) is Ok,
        within(c, lowering::state_of(lowering::lower_expr(c.m, env, lo, e))),
        fine_expr(c, e),
    ensures
        ({
            let (n, lo1) = lowering::lower_expr(c.m, env, lo, e)->Ok_0;
            &&& reaches(c, lo, w, n, lo1, w1)
            &&& related(env, s.env, w) ==> mirrors(
                semantics::eval_expr(c.m, fuel, e, s),
                n,
                w1,
                s,
            )
        }),
    decreases e, 0int, 0int,
{
    lemma_fine_parts(c, e);
    reveal(lowering::binary_flow);
    let f = if fuel == 0 {
        0
    } else {
        (fuel - 1) as nat
    };
    match e.kind {
        TKind::Binary { op, lhs, rhs } => {
            let (a, lo1) = lowering::lower_expr(c.m, env, lo, *lhs)->Ok_0;
            let (b, lo2) = lowering::lower_expr(c.m, env, lo1, *rhs)->Ok_0;
            let res = lowering::binary_net(op, e.ty, a, b, lo2);
            wires::grow_expr(c.m, env, lo1, *rhs);
            wires::grow_binary(op, e.ty, a, b, lo2);
            lemma_within(c, lo2, lowering::state_of(res));
            lemma_within(c, lo1, lo2);
            let w1 = eq_expr(c, env, lo, *lhs, w, f, s);
            let (lr, s1) = semantics::eval_expr(c.m, f, *lhs, s);
            lemma_env_more(env, s.env, w, w1);
            let w2 = eq_expr(c, env, lo1, *rhs, w1, f, s1);
            let (rr, s2) = semantics::eval_expr(c.m, f, *rhs, s1);
            wires::lemma_steady(a, w1, w2);
            let lv = lr->Ok_0;
            let rv = rr->Ok_0;
            let w3 = step_binary(c, op, e.ty, a, b, lo2, w2, lv, rv);
            wires::lemma_extends_trans(w, w1, w2);
            wires::lemma_extends_trans(w, w2, w3);
            w3
        },
        _ => w,
    }
}

#[verifier::rlimit(40)]
proof fn eq_if(c: Site, env: Nets, lo: Lo, e: TExpr, w: Wires, fuel: nat, s: Mem) -> (w1: Wires)
    requires
        e.kind is If,
        ready(c, env, lo, w),
        lowering::lower_expr(c.m, env, lo, e) is Ok,
        within(c, lowering::state_of(lowering::lower_expr(c.m, env, lo, e))),
        fine_expr(c, e),
    ensures
        ({
            let (n, lo1) = lowering::lower_expr(c.m, env, lo, e)->Ok_0;
            &&& reaches(c, lo, w, n, lo1, w1)
            &&& related(env, s.env, w) ==> mirrors(
                semantics::eval_expr(c.m, fuel, e, s),
                n,
                w1,
                s,
            )
        }),
    decreases e, 0int, 0int,
{
    lemma_fine_parts(c, e);
    reveal(lowering::if_flow);
    wires::lemma_stems();
    let f = if fuel == 0 {
        0
    } else {
        (fuel - 1) as nat
    };
    match e.kind {
        TKind::If { cond, then_branch, else_branch } => {
            let (g, lo1) = lowering::lower_expr(c.m, env, lo, *cond)->Ok_0;
            let (t, lo2) = lowering::lower_block(c.m, env, lo1, then_branch, 0)->Ok_0;
            let (o, lo3) = lowering::lower_block(c.m, env, lo2, else_branch, 0)->Ok_0;
            let kind = t.kind;
            let x = lowering::ternary(g.expr, t.expr, o.expr);
            let (n, lo4) = lowering::wire(lo3, "w"@, kind, x);
            wires::grow_block(c.m, env, lo1, then_branch, 0);
            wires::grow_block(c.m, env, lo2, else_branch, 0);
            lemma_within(c, lo3, lo4);
            lemma_within(c, lo2, lo3);
            lemma_within(c, lo1, lo2);
            let w1 = eq_expr(c, env, lo, *cond, w, f, s);
            let (gr, s1) = semantics::eval_expr(c.m, f, *cond, s);
            lemma_env_more(env, s.env, w, w1);
            let w2 = eq_block(c, env, lo1, then_branch, 0, w1, f, s1);
            lemma_env_more(env, s.env, w1, w2);
            let w3 = eq_block(c, env, lo2, else_branch, 0, w2, f, s1);
            wires::lemma_steady(g, w1, w2);
            wires::lemma_steady(g, w2, w3);
            wires::lemma_steady(t, w2, w3);
            let w4 = step_wire(c, lo3, "w"@, kind, x, w3);
            wires::lemma_extends_trans(w, w1, w2);
            wires::lemma_extends_trans(w, w2, w3);
            wires::lemma_extends_trans(w, w3, w4);
            assert(x.value(w3) == if g.expr.value(w3) != 0 {
                t.expr.value(w3)
            } else {
                o.expr.value(w3)
            });
            wires::lemma_truncated(t.expr.value(w3), kind);
            wires::lemma_truncated(o.expr.value(w3), kind);
            if related(env, s.env, w) {
                if gr is Ok {
                    lemma_block_rest(c.m, f, then_branch, s1, t, w2);
                    lemma_block_rest(c.m, f, else_branch, s1, o, w3);
                }
            }
            w4
        },
        _ => w,
    }
}

#[verifier::rlimit(60)]
pub proof fn eq_block(
    c: Site,
    env: Nets,
    lo: Lo,
    b: TBlock,
    i: int,
    w: Wires,
    fuel: nat,
    s: Mem,
) -> (w1: Wires)
    requires
        0 <= i,
        ready(c, env, lo, w),
        lowering::lower_block(c.m, env, lo, b, i) is Ok,
        within(c, lowering::state_of(lowering::lower_block(c.m, env, lo, b, i))),
        fine_block(c, b),
    ensures
        ({
            let (n, lo1) = lowering::lower_block(c.m, env, lo, b, i)->Ok_0;
            &&& reaches(c, lo, w, n, lo1, w1)
            &&& related(env, s.env, w) ==> mirrors_block(
                block_rest(c.m, fuel, b, i, s),
                n,
                w1,
                s,
            )
        }),
    decreases b, b.stmts.len() - i, 1int,
{
    reveal(lowering::then_flow);
    purity::lemma_keeps_push(s.env, (Seq::empty(), VVal::Unit));
    if i >= b.stmts.len() {
        lemma_fine_tail(c, b);
        eq_expr(c, env, lo, *b.tail->Some_0, w, fuel, s)
    } else {
        match b.stmts[i] {
            TStmt::Let { name, mutable, ty, init } => eq_let(c, env, lo, b, i, w, fuel, s),
            TStmt::Expr(e) => {
                purity::law_quiet_expression(c.m, fuel, e, s);
                let (r, s1) = semantics::eval_expr(c.m, fuel, e, s);
                assert(semantics::eval_stmt(c.m, fuel, b.stmts[i], s) == (match r {
                    Ok(_) => Ok::<(), Flow>(()),
                    Err(x) => Err(x),
                }, s1));
                eq_block(c, env, lo, b, i + 1, w, fuel, s1)
            },
            _ => w,
        }
    }
}

#[verifier::rlimit(40)]
proof fn eq_let(
    c: Site,
    env: Nets,
    lo: Lo,
    b: TBlock,
    i: int,
    w: Wires,
    fuel: nat,
    s: Mem,
) -> (w1: Wires)
    requires
        0 <= i < b.stmts.len(),
        b.stmts[i] is Let,
        ready(c, env, lo, w),
        lowering::lower_block(c.m, env, lo, b, i) is Ok,
        within(c, lowering::state_of(lowering::lower_block(c.m, env, lo, b, i))),
        fine_block(c, b),
    ensures
        ({
            let (n, lo1) = lowering::lower_block(c.m, env, lo, b, i)->Ok_0;
            &&& reaches(c, lo, w, n, lo1, w1)
            &&& related(env, s.env, w) ==> mirrors_block(
                block_rest(c.m, fuel, b, i, s),
                n,
                w1,
                s,
            )
        }),
    decreases b, b.stmts.len() - i, 0int,
{
    reveal(lowering::then_flow);
    wires::lemma_stems();
    match b.stmts[i] {
        TStmt::Let { name, mutable, ty, init } => {
            let v = lowering::lower_expr(c.m, env, lo, init);
            let (n0, lo0) = v->Ok_0;
            let (n1, lo1) = lowering::bound(name, v);
            let env1 = env.push((name, n1));
            let (n2, lo2) = lowering::lower_block(c.m, env1, lo1, b, i + 1)->Ok_0;
            lemma_fine_stmt(c, b, i, init);
            wires::grow_block(c.m, env1, lo1, b, i + 1);
            lemma_within(c, lo1, lo2);
            lemma_within(c, lo0, lo1);
            let w0 = eq_expr(c, env, lo, init, w, fuel, s);
            let (r, s0) = semantics::eval_expr(c.m, fuel, init, s);
            let w1 = step_wire(c, lo0, lowering::variable_prefix(name), n0.kind, n0.expr, w0);
            wires::lemma_truncated(n0.expr.value(w0), n0.kind);
            wires::lemma_extends_trans(w, w0, w1);
            lemma_env_more(env, s.env, w, w1);
            let s1 = match r {
                Ok(x) => semantics::with_env(s0, s0.env.push((name, x))),
                Err(_) => s,
            };
            assert(semantics::eval_stmt(c.m, fuel, b.stmts[i], s) == (match r {
                Ok(_) => (Ok::<(), Flow>(()), s1),
                Err(x) => (Err(x), s0),
            }));
            assert(steady_env(env1, w1)) by {
                assert forall|k: int| 0 <= k < env1.len() implies wires::steady(
                    (#[trigger] env1[k]).1,
                    w1,
                ) by {
                    if k < env.len() {
                        assert(env1[k] == env[k]);
                    }
                }
            }
            if related(env, s.env, w) && r is Ok {
                assert forall|k: int| 0 <= k < env1.len() implies (#[trigger] env1[k]).0
                    == s1.env[k].0 && wires::carries(s1.env[k].1, env1[k].1, w1) by {
                    if k < env.len() {
                        assert(env1[k] == env[k]);
                        assert(s1.env[k] == s.env[k]);
                    }
                }
            }
            let w2 = eq_block(c, env1, lo1, b, i + 1, w1, fuel, s1);
            wires::lemma_extends_trans(w, w1, w2);
            if related(env, s.env, w) && r is Ok {
                purity::lemma_keeps_push(s.env, (name, r->Ok_0));
                let end = block_rest(c.m, fuel, b, i + 1, s1);
                if end.0 is Ok {
                    purity::lemma_keeps_trans(s.env, s1.env, end.1.env);
                }
            }
            w2
        },
        _ => w,
    }
}

proof fn eq_call(c: Site, env: Nets, lo: Lo, e: TExpr, w: Wires, fuel: nat, s: Mem) -> (w1: Wires)
    requires
        e.kind is Call,
        ready(c, env, lo, w),
        lowering::lower_expr(c.m, env, lo, e) is Ok,
        within(c, lowering::state_of(lowering::lower_expr(c.m, env, lo, e))),
        fine_expr(c, e),
    ensures
        ({
            let (n, lo1) = lowering::lower_expr(c.m, env, lo, e)->Ok_0;
            &&& reaches(c, lo, w, n, lo1, w1)
            &&& related(env, s.env, w) ==> mirrors(
                semantics::eval_expr(c.m, fuel, e, s),
                n,
                w1,
                s,
            )
        }),
    decreases e, 0int, 0int,
{
    lemma_fine_parts(c, e);
    reveal(lowering::call_target);
    reveal(lowering::call_flow);
    reveal(behaves);
    wires::lemma_stems();
    let fu = if fuel == 0 {
        0
    } else {
        (fuel - 1) as nat
    };
    match e.kind {
        TKind::Call { func, args } => {
            let t = lowering::call_target(c.m, func, args.len(), e.ty);
            let (f, kind) = t->Ok_0;
            let (conns, lo1) = lowering::lower_args(c.m, env, lo, args, f.params, 0, Seq::empty())->Ok_0;
            let (n, lo2) = lowering::lower_expr(c.m, env, lo, e)->Ok_0;
            lemma_within(c, lo1, lo2);
            let w1 = eq_args(c, env, lo, args, f.params, 0, Seq::empty(), w, fu, Seq::empty(), s);
            let inputs = netlist::conn_values(conns, w1);
            lemma_inputs(conns, f.params, w1);
            assert(behaves_on(c.m, c.d, func, f, c.depth, inputs));
            let out = netlist::run(c.d, c.depth, lowering::module_name(c.m, func), inputs)->Some_0;
            wires::lemma_truncated(out, kind);
            let name = lowering::fresh("call"@ + lo1.pad, lo1.temp);
            let w2 = w1.push((name, out));
            let i = lo1.items.len() as int;
            assert(c.items[i] == lo2.items[i]);
            assert(lowering::declared(c.items[i]) == name);
            assert(netlist::run_item(c.d, c.depth, c.ports, c.items[i], w1) == Some(w2));
            assert forall|j: int| 0 <= j < c.params.len() implies (#[trigger] c.params[j]).name
                != name by {
                assert(lowering::declared(c.items[i]) != c.params[j].name);
            }
            wires::lemma_stem("call"@, lo1.pad.len());
            wires::lemma_new_wire(w1, "call"@ + lo1.pad, lo1.temp, out, c.params);
            wires::lemma_grounded_more(w2, lo1.temp + 1, lo1.temp + 2, c.params);
            wires::lemma_extends_trans(w, w1, w2);
            if related(env, s.env, w) {
                match semantics::eval_args(c.m, fu, args, 0, Seq::empty(), s) {
                    (Ok(vs), s1) => {
                        assert(agrees(inputs, f.params, vs)) by {
                            assert forall|k: int| 0 <= k < f.params.len() implies wires::typed(
                                vs[k],
                                lowering::kind_of((#[trigger] f.params[k]).ty),
                            ) && netlist::on_wire(inputs, f.params[k].name) == wires::bits(vs[k]) by {
                                assert(carried(vs, conns, f.params, w1, k));
                            }
                        }
                        let r = semantics::call_func(c.m, fu, func, vs, s1);
                        assert(same_result(r.0, kind, out));
                        purity::law_call_keeps_variables(c.m, fu, func, vs, s1);
                    },
                    _ => {},
                }
            }
            w2
        },
        _ => w,
    }
}

/// The net that a connection is.
pub open spec fn conn_net(conns: Seq<(Text, NExpr)>, ps: Seq<TParam>, k: int) -> TNet {
    TNet { expr: conns[k].1, kind: lowering::kind_of(ps[k].ty) }
}

/// Whether the connection at position `k` drives its parameter.
pub open spec fn wired(conns: Seq<(Text, NExpr)>, ps: Seq<TParam>, w: Wires, k: int) -> bool {
    conns[k].0 == ps[k].name && wires::steady(conn_net(conns, ps, k), w)
}

/// Whether the connection at position `k` carries the argument there.
pub open spec fn carried(vs: Seq<VVal>, conns: Seq<(Text, NExpr)>, ps: Seq<TParam>, w: Wires, k: int) -> bool {
    wires::carries(vs[k], conn_net(conns, ps, k), w)
}

/// The connections of an instance drive its parameters.
proof fn lemma_inputs(conns: Seq<(Text, NExpr)>, ps: Seq<TParam>, w: Wires)
    requires
        distinct(ps),
        conns.len() == ps.len(),
        forall|k: int| 0 <= k < conns.len() ==> #[trigger] wired(conns, ps, w, k),
    ensures
        supplied(netlist::conn_values(conns, w), ps),
        forall|k: int|
            0 <= k < ps.len() ==> netlist::on_wire(
                netlist::conn_values(conns, w),
                (#[trigger] ps[k]).name,
            ) == conns[k].1.value(w),
{
    let inputs = netlist::conn_values(conns, w);
    assert forall|x: int, y: int| 0 <= x < y < inputs.len() implies (#[trigger] inputs[x]).0 != (
    #[trigger] inputs[y]).0 by {
        assert(wired(conns, ps, w, x) && wired(conns, ps, w, y));
        assert(ps[x].name != ps[y].name);
    }
    assert forall|k: int| 0 <= k < ps.len() implies semantics::slot(
        inputs,
        (#[trigger] ps[k]).name,
    ) == Some(k) by {
        assert(wired(conns, ps, w, k));
        wires::lemma_slot_distinct(inputs, k, inputs.len() as int);
    }
    assert forall|k: int| 0 <= k < ps.len() implies netlist::on_wire(inputs, (#[trigger] ps[k]).name)
        == conns[k].1.value(w) by {
        assert(semantics::slot(inputs, ps[k].name) == Some(k));
    }
}

#[verifier::rlimit(40)]
proof fn eq_args(
    c: Site,
    env: Nets,
    lo: Lo,
    args: Seq<TExpr>,
    ps: Seq<TParam>,
    i: int,
    acc: Seq<(Text, NExpr)>,
    w: Wires,
    fuel: nat,
    vals: Seq<VVal>,
    s: Mem,
) -> (w1: Wires)
    requires
        ready(c, env, lo, w),
        args.len() == ps.len(),
        0 <= i <= args.len(),
        acc.len() == i,
        forall|k: int| 0 <= k < i ==> #[trigger] wired(acc, ps, w, k),
        related(env, s.env, w) ==> vals.len() == i && forall|k: int|
            0 <= k < i ==> #[trigger] carried(vals, acc, ps, w, k),
        lowering::lower_args(c.m, env, lo, args, ps, i, acc) is Ok,
        within(c, lowering::lower_args(c.m, env, lo, args, ps, i, acc)->Ok_0.1),
        fine_args(c, args, i),
    ensures
        ({
            let (conns, lo1) = lowering::lower_args(c.m, env, lo, args, ps, i, acc)->Ok_0;
            &&& go(c, lo.items.len(), w) == go(c, lo1.items.len(), w1)
            &&& wires::extends(w, w1)
            &&& placed(c, lo1, w1)
            &&& conns.len() == ps.len()
            &&& forall|k: int| 0 <= k < conns.len() ==> #[trigger] wired(conns, ps, w1, k)
            &&& related(env, s.env, w) ==> match semantics::eval_args(c.m, fuel, args, i, vals, s) {
                (Ok(vs), s1) => vs.len() == ps.len() && s1.env == s.env && forall|k: int|
                    0 <= k < ps.len() ==> #[trigger] carried(vs, conns, ps, w1, k),
                (Err(f), _) => !(f is Return),
            }
        }),
    decreases args, args.len() - i, 0int,
{
    if i >= args.len() {
        w
    } else {
        reveal(lowering::arg_flow);
        lemma_fine_arg(c, args, i);
        let (n, lo1) = lowering::lower_expr(c.m, env, lo, args[i])->Ok_0;
        let acc1 = acc.push((ps[i].name, n.expr));
        wires::grow_args(c.m, env, lo1, args, ps, i + 1, acc1);
        lemma_within(
            c,
            lo1,
            lowering::lower_args(c.m, env, lo, args, ps, i, acc)->Ok_0.1,
        );
        let w1 = eq_expr(c, env, lo, args[i], w, fuel, s);
        let (r, s1) = semantics::eval_expr(c.m, fuel, args[i], s);
        lemma_env_more(env, s.env, w, w1);
        let s2 = if r is Ok {
            s1
        } else {
            s
        };
        let vals1 = vals.push(r->Ok_0);
        assert(lowering::kind_of(ps[i].ty) == n.kind);
        assert forall|k: int| 0 <= k < i + 1 implies #[trigger] wired(acc1, ps, w1, k) by {
            if k < i {
                assert(wired(acc, ps, w, k));
                assert(acc1[k] == acc[k]);
                wires::lemma_steady(conn_net(acc, ps, k), w, w1);
            } else {
                assert(conn_net(acc1, ps, k) == n);
            }
        }
        if related(env, s.env, w) && r is Ok {
            assert forall|k: int| 0 <= k < i + 1 implies #[trigger] carried(
                vals1,
                acc1,
                ps,
                w1,
                k,
            ) by {
                if k < i {
                    assert(carried(vals, acc, ps, w, k));
                    assert(acc1[k] == acc[k] && vals1[k] == vals[k]);
                    wires::lemma_steady(conn_net(acc, ps, k), w, w1);
                } else {
                    assert(conn_net(acc1, ps, k) == n);
                }
            }
            let w2 = eq_args(c, env, lo1, args, ps, i + 1, acc1, w1, fuel, vals1, s2);
            wires::lemma_extends_trans(w, w1, w2);
            w2
        } else {
            let off = unrelated(env);
            let w2 = eq_args(c, env, lo1, args, ps, i + 1, acc1, w1, fuel, vals1, off);
            wires::lemma_extends_trans(w, w1, w2);
            w2
        }
    }
}

/// A memory that the nets do not stand for.
pub open spec fn unrelated(env: Nets) -> Mem {
    Mem {
        env: Seq::new(env.len() + 1, |i: int| (Seq::empty(), VVal::Unit)),
        out: Seq::empty(),
        cache: Seq::empty(),
    }
}

proof fn eq_match(c: Site, env: Nets, lo: Lo, e: TExpr, w: Wires, fuel: nat, s: Mem) -> (w1: Wires)
    requires
        e.kind is Match,
        ready(c, env, lo, w),
        lowering::lower_expr(c.m, env, lo, e) is Ok,
        within(c, lowering::state_of(lowering::lower_expr(c.m, env, lo, e))),
        fine_expr(c, e),
    ensures
        ({
            let (n, lo1) = lowering::lower_expr(c.m, env, lo, e)->Ok_0;
            &&& reaches(c, lo, w, n, lo1, w1)
            &&& related(env, s.env, w) ==> mirrors(
                semantics::eval_expr(c.m, fuel, e, s),
                n,
                w1,
                s,
            )
        }),
    decreases e, 0int, 0int,
{
    lemma_fine_parts(c, e);
    reveal(lowering::then_flow);
    reveal(lowering::scalar_flow);
    let fu = if fuel == 0 {
        0
    } else {
        (fuel - 1) as nat
    };
    match e.kind {
        TKind::Match { scrutinee, arms } => {
            let (sc, lo1) = lowering::lower_expr(c.m, env, lo, *scrutinee)->Ok_0;
            let kind = lowering::kind_of(e.ty);
            let (n, lo2) = lowering::lower_arms(
                c.m,
                env,
                lo1,
                arms,
                arms.len() - 1,
                sc,
                kind,
                None,
            )->Ok_0;
            wires::grow_arms(c.m, env, lo1, arms, arms.len() - 1, sc, kind, None);
            lemma_within(c, lo1, lo2);
            let w1 = eq_expr(c, env, lo, *scrutinee, w, fu, s);
            let (r, s1) = semantics::eval_expr(c.m, fu, *scrutinee, s);
            lemma_env_more(env, s.env, w, w1);
            let w2 = eq_arms(
                c,
                env,
                lo1,
                arms,
                arms.len() - 1,
                sc,
                kind,
                None,
                w1,
                fu,
                r->Ok_0,
                s1,
            );
            wires::lemma_extends_trans(w, w1, w2);
            w2
        },
        _ => w,
    }
}

/// Whether the net for the arms behind position `i` stands for them.
pub open spec fn rest_mirrors(
    c: Site,
    env: Nets,
    arms: Seq<TArm>,
    i: int,
    scrut: TNet,
    acc: Option<TNet>,
    w: Wires,
    fuel: nat,
    v: VVal,
    s: Mem,
) -> bool {
    match acc {
        None => i + 1 >= arms.len(),
        Some(a) => related(env, s.env, w) && wires::carries(v, scrut, w) ==> mirrors(
            semantics::eval_arms(c.m, fuel, arms, i + 1, v, s),
            a,
            w,
            s,
        ),
    }
}

proof fn eq_arms(
    c: Site,
    env: Nets,
    lo: Lo,
    arms: Seq<TArm>,
    i: int,
    scrut: TNet,
    kind: Scalar,
    acc: Option<TNet>,
    w: Wires,
    fuel: nat,
    v: VVal,
    s: Mem,
) -> (w1: Wires)
    requires
        ready(c, env, lo, w),
        -1 <= i < arms.len(),
        wires::steady(scrut, w),
        acc is Some ==> wires::steady(acc->Some_0, w) && acc->Some_0.kind == kind,
        rest_mirrors(c, env, arms, i, scrut, acc, w, fuel, v, s),
        lowering::lower_arms(c.m, env, lo, arms, i, scrut, kind, acc) is Ok,
        within(
            c,
            lowering::state_of(lowering::lower_arms(c.m, env, lo, arms, i, scrut, kind, acc)),
        ),
        fine_arms(c, arms, 0),
    ensures
        ({
            let (n, lo1) = lowering::lower_arms(c.m, env, lo, arms, i, scrut, kind, acc)->Ok_0;
            &&& reaches(c, lo, w, n, lo1, w1)
            &&& related(env, s.env, w) && wires::carries(v, scrut, w) ==> mirrors(
                semantics::eval_arms(c.m, fuel, arms, 0, v, s),
                n,
                w1,
                s,
            )
        }),
    decreases arms, i + 1, 0int,
{
    reveal(lowering::match_result);
    if i < 0 {
        w
    } else {
        let (n, lo1) = lowering::lower_arm(c.m, env, lo, arms[i], scrut, kind, acc)->Ok_0;
        wires::grow_arms(c.m, env, lo1, arms, i - 1, scrut, kind, Some(n));
        lemma_within(
            c,
            lo1,
            lowering::state_of(lowering::lower_arms(c.m, env, lo, arms, i, scrut, kind, acc)),
        );
        assert(fine_arm(c, arms[i]));
        let w1 = eq_arm(c, env, lo, arms[i], arms, i, scrut, kind, acc, w, fuel, v, s);
        lemma_env_more(env, s.env, w, w1);
        wires::lemma_steady(scrut, w, w1);
        if related(env, s.env, w) && wires::carries(v, scrut, w) {
            let w2 = eq_arms(c, env, lo1, arms, i - 1, scrut, kind, Some(n), w1, fuel, v, s);
            wires::lemma_extends_trans(w, w1, w2);
            w2
        } else {
            let w2 = eq_arms(
                c,
                env,
                lo1,
                arms,
                i - 1,
                scrut,
                kind,
                Some(n),
                w1,
                fuel,
                v,
                unrelated(env),
            );
            wires::lemma_extends_trans(w, w1, w2);
            w2
        }
    }
}

/// A literal pattern matches where its value is on the wire.
proof fn lemma_pattern(p: TPattern, scrut: TNet, v: VVal, w: Wires)
    requires
        lowering::pattern_value(p, scrut.kind) is Ok,
        wires::carries(v, scrut, w),
    ensures
        ({
            let value = lowering::pattern_value(p, scrut.kind)->Ok_0;
            &&& netlist::truncated(value, scrut.kind.width()) == value
            &&& semantics::matched(p, v) == if scrut.expr.value(w) == value {
                Some(Seq::<(Text, VVal)>::empty())
            } else {
                None
            }
        }),
{
    reveal(lowering::pattern_value);
    match p {
        TPattern::Int(t) => {
            match v {
                VVal::Bit(x, k) => {
                    let q = arith::wrap(t as int, k);
                    arith::law_wrap_range(t as int, k);
                },
                _ => {},
            }
        },
        TPattern::Bool(b) => {
            lemma2_to64();
            vstd::arithmetic::div_mod::lemma_small_mod(0, 2);
            vstd::arithmetic::div_mod::lemma_small_mod(1, 2);
        },
        _ => {},
    }
}

/// What the pattern of a lowered arm binds, where it matches.
pub open spec fn arm_binds(p: TPattern, v: VVal) -> Locals {
    match p {
        TPattern::Binding { name, ty } => seq![(name, v)],
        _ => Seq::empty(),
    }
}

/// The variables that the body of an arm sees.
proof fn lemma_arm_env(env: Nets, p: TPattern, scrut: TNet, v: VVal, vars: Locals, w: Wires)
    requires
        steady_env(env, w),
        wires::steady(scrut, w),
    ensures
        steady_env(lowering::arm_env(env, p, scrut), w),
        related(env, vars, w) && wires::carries(v, scrut, w) ==> related(
            lowering::arm_env(env, p, scrut),
            vars + arm_binds(p, v),
            w,
        ),
        semantics::cut(vars + arm_binds(p, v), vars.len() as int) == vars,
{
    let e1 = lowering::arm_env(env, p, scrut);
    let v1 = vars + arm_binds(p, v);
    assert(v1.subrange(0, vars.len() as int) =~= vars);
    assert forall|k: int| 0 <= k < e1.len() implies wires::steady((#[trigger] e1[k]).1, w) by {
        if k < env.len() {
            assert(e1[k] == env[k]);
        }
    }
    if related(env, vars, w) && wires::carries(v, scrut, w) {
        assert forall|k: int| 0 <= k < e1.len() implies (#[trigger] e1[k]).0 == v1[k].0
            && wires::carries(v1[k].1, e1[k].1, w) by {
            if k < env.len() {
                assert(e1[k] == env[k]);
                assert(v1[k] == vars[k]);
            }
        }
    }
}

#[verifier::rlimit(60)]
proof fn eq_arm(
    c: Site,
    env: Nets,
    lo: Lo,
    arm: TArm,
    arms: Seq<TArm>,
    i: int,
    scrut: TNet,
    kind: Scalar,
    acc: Option<TNet>,
    w: Wires,
    fuel: nat,
    v: VVal,
    s: Mem,
) -> (w1: Wires)
    requires
        ready(c, env, lo, w),
        0 <= i < arms.len(),
        arms[i] == arm,
        wires::steady(scrut, w),
        acc is Some ==> wires::steady(acc->Some_0, w) && acc->Some_0.kind == kind,
        rest_mirrors(c, env, arms, i, scrut, acc, w, fuel, v, s),
        lowering::lower_arm(c.m, env, lo, arm, scrut, kind, acc) is Ok,
        within(c, lowering::state_of(lowering::lower_arm(c.m, env, lo, arm, scrut, kind, acc))),
        fine_arm(c, arm),
    ensures
        ({
            let (n, lo1) = lowering::lower_arm(c.m, env, lo, arm, scrut, kind, acc)->Ok_0;
            &&& reaches(c, lo, w, n, lo1, w1)
            &&& n.kind == kind
            &&& related(env, s.env, w) && wires::carries(v, scrut, w) ==> mirrors(
                semantics::eval_arms(c.m, fuel, arms, i, v, s),
                n,
                w1,
                s,
            )
        }),
    decreases arm, 0int, 0int,
{
    reveal(lowering::arm_flow);
    wires::lemma_stems();
    let env1 = lowering::arm_env(env, arm.pattern, scrut);
    let (b, lo1) = lowering::lower_expr(c.m, env1, lo, arm.body)->Ok_0;
    let (n, lo9) = lowering::lower_arm(c.m, env, lo, arm, scrut, kind, acc)->Ok_0;
    let inner = semantics::with_env(s, s.env + arm_binds(arm.pattern, v));
    lemma_arm_env(env, arm.pattern, scrut, v, s.env, w);
    lemma_fine_body(c, arm);
    if arm.pattern is Wildcard || arm.pattern is Binding {
        eq_expr(c, env1, lo, arm.body, w, fuel, inner)
    } else {
        let value = lowering::pattern_value(arm.pattern, scrut.kind)->Ok_0;
        let other = acc->Some_0;
        let lit = NExpr::Const { value, width: scrut.kind.width() };
        let x = lowering::bin(BinOp::Eq, scrut.expr, lit);
        let (g, lo2) = lowering::wire(lo1, "w"@, Scalar::Bool, x);
        let y = lowering::ternary(g.expr, b.expr, other.expr);
        let (n3, lo3) = lowering::wire(lo2, "w"@, kind, y);
        assert(n == n3 && lo9 == lo3);
        lemma_within(c, lo2, lo3);
        lemma_within(c, lo1, lo2);
        let w1 = eq_expr(c, env1, lo, arm.body, w, fuel, inner);
        let w2 = step_wire(c, lo1, "w"@, Scalar::Bool, x, w1);
        let w3 = step_wire(c, lo2, "w"@, kind, y, w2);
        wires::lemma_extends_trans(w, w1, w2);
        wires::lemma_steady(scrut, w, w1);
        wires::lemma_steady(b, w1, w2);
        wires::lemma_steady(other, w, w2);
        wires::lemma_extends_trans(w, w2, w3);
        lemma_bin_value(BinOp::Eq, scrut.expr, lit, w1);
        assert(lit.value(w1) == netlist::truncated(value, scrut.kind.width()));
        lemma2_to64();
        vstd::arithmetic::div_mod::lemma_small_mod(0, 2);
        vstd::arithmetic::div_mod::lemma_small_mod(1, 2);
        assert(y.value(w2) == if g.expr.value(w2) != 0 {
            b.expr.value(w2)
        } else {
            other.expr.value(w2)
        });
        wires::lemma_truncated(b.expr.value(w2), kind);
        wires::lemma_truncated(other.expr.value(w2), kind);
        if related(env, s.env, w) && wires::carries(v, scrut, w) {
            lemma_pattern(arm.pattern, scrut, v, w);
        }
        w3
    }
}

} // verus!
