//! How the modules of a design are connected: every instance drives the input ports of
//! the module that it instantiates, in order, and has the width of its output.

use crate::arith;
use crate::equivalence;
use crate::ir::{BinOp, TArm, TBlock, TExpr, TKind, TModule, TParam, TStmt, TType};
use crate::lowering::{self, Lo, Nets, Scalar, TNet};
use crate::name_map;
use crate::netlist::{NExpr, NItem, NModule};
use crate::scan::{self, Sought};
use crate::text::Text;
use crate::wires;
use vstd::prelude::*;

verus! {

/// Whether the function called `g`, if there is one, is lowered.
pub open spec fn lowered_name(m: TModule, g: Text) -> bool {
    name_map::find(m.funcs, g) is Some ==> exists|j: int|
        0 <= j < m.funcs.len() && (#[trigger] m.funcs[j]).0 == g && lowering::is_lowered(m, j)
}

/// Whether an item is an instance of the function called `g`: its connections are
/// named as the parameters, in order, and it is as wide as the result.
pub open spec fn instantiates(m: TModule, item: NItem, g: Text) -> bool {
    match item {
        NItem::Instance { module, inst, conns, out_wire, out_width } => {
            &&& module == lowering::module_name(m, g)
            &&& lowered_name(m, g)
            &&& name_map::find(m.funcs, g) matches Some(f) && conns.len() == f.params.len() && (
            forall|k: int| 0 <= k < conns.len() ==> (#[trigger] conns[k]).0 == f.params[k].name)
                && lowering::scalar_of(f.ret) is Ok && out_width == lowering::kind_of(f.ret).width()
        },
        _ => true,
    }
}

pub open spec fn is_linked(m: TModule, item: NItem) -> bool {
    exists|g: Text| #[trigger] instantiates(m, item, g)
}

/// Whether the items that `b` has beyond `a` are linked.
pub open spec fn links(m: TModule, a: Lo, b: Lo) -> bool {
    forall|i: int| a.items.len() <= i < b.items.len() ==> is_linked(m, #[trigger] b.items[i])
}

proof fn lemma_wire(m: TModule, name: Text, width: u32, value: NExpr)
    ensures
        is_linked(m, NItem::Wire { name, width, value }),
{
    assert(instantiates(m, NItem::Wire { name, width, value }, name));
}

proof fn lemma_links_wire(m: TModule, lo: Lo, a: Lo, prefix: Text, kind: Scalar, e: NExpr)
    requires
        links(m, lo, a),
    ensures
        links(m, lo, lowering::wire(a, prefix, kind, e).1),
{
    let b = lowering::wire(a, prefix, kind, e).1;
    lemma_wire(m, lowering::fresh(prefix + a.pad, a.temp), kind.width(), e);
    assert forall|i: int| lo.items.len() <= i < b.items.len() implies is_linked(
        m,
        #[trigger] b.items[i],
    ) by {
        if i < a.items.len() {
            assert(b.items[i] == a.items[i]);
        }
    }
}

proof fn lemma_links_add(m: TModule, a: Lo, b: Lo, c: Lo)
    requires
        links(m, a, b),
        links(m, b, c),
        wires::grown(b, c),
    ensures
        links(m, a, c),
{
    assert forall|i: int| a.items.len() <= i < c.items.len() implies is_linked(
        m,
        #[trigger] c.items[i],
    ) by {
        if i < b.items.len() {
            assert(c.items[i] == b.items[i]);
        }
    }
}

#[verifier::rlimit(60)]
proof fn link_expr(m: TModule, env: Nets, lo: Lo, e: TExpr)
    requires
        lowering::lower_expr(m, env, lo, e) is Ok,
        forall|g: Text| #[trigger] scan::expr_has(e, Sought::Call(g)) ==> lowered_name(m, g),
    ensures
        links(m, lo, lowering::state_of(lowering::lower_expr(m, env, lo, e))),
    decreases e, 0int,
{
    match e.kind {
        TKind::Unary { op, expr } => {
            reveal(lowering::unary_net);
            assert forall|g: Text| #[trigger] scan::expr_has(*expr, Sought::Call(g)) implies lowered_name(
                m,
                g,
            ) by {
                assert(scan::expr_has(e, Sought::Call(g)));
            }
            link_expr(m, env, lo, *expr);
            let (i, lo1) = lowering::lower_expr(m, env, lo, *expr)->Ok_0;
            let kind = lowering::kind_of(e.ty);
            let x = NExpr::Un { op, e: Box::new(i.expr) };
            lemma_links_wire(m, lo, lo1, "w"@, kind, x);
        },
        TKind::Binary { op, lhs, rhs } => {
            reveal(lowering::binary_flow);
            assert forall|g: Text| #[trigger] scan::expr_has(*lhs, Sought::Call(g)) implies lowered_name(
                m,
                g,
            ) by {
                assert(scan::expr_has(e, Sought::Call(g)));
            }
            assert forall|g: Text| #[trigger] scan::expr_has(*rhs, Sought::Call(g)) implies lowered_name(
                m,
                g,
            ) by {
                assert(scan::expr_has(e, Sought::Call(g)));
            }
            let l = lowering::lower_expr(m, env, lo, *lhs);
            let lo1 = lowering::state_of(l);
            link_expr(m, env, lo, *lhs);
            link_expr(m, env, lo1, *rhs);
            wires::grow_expr(m, env, lo1, *rhs);
            let (b, lo2) = lowering::lower_expr(m, env, lo1, *rhs)->Ok_0;
            lemma_links_add(m, lo, lo1, lo2);
            link_binary(m, op, e.ty, l->Ok_0.0, b, lo, lo2);
        },
        TKind::Call { func, args } => {
            reveal(lowering::call_target);
            reveal(lowering::call_flow);
            assert forall|g: Text| #[trigger] scan::exprs_have(args, Sought::Call(g), 0) implies lowered_name(
                m,
                g,
            ) by {
                assert(scan::expr_has(e, Sought::Call(g)));
            }
            let t = lowering::call_target(m, func, args.len(), e.ty);
            let (f, kind) = t->Ok_0;
            link_args(m, env, lo, args, f.params, 0, Seq::empty());
            let (conns, lo1) = lowering::lower_args(
                m,
                env,
                lo,
                args,
                f.params,
                0,
                Seq::empty(),
            )->Ok_0;
            let lo2 = lowering::state_of(lowering::lower_expr(m, env, lo, e));
            assert(scan::expr_has(e, Sought::Call(func)));
            assert forall|i: int| lo.items.len() <= i < lo2.items.len() implies is_linked(
                m,
                #[trigger] lo2.items[i],
            ) by {
                if i < lo1.items.len() {
                    assert(lo2.items[i] == lo1.items[i]);
                } else {
                    assert(instantiates(m, lo2.items[i], func));
                }
            }
        },
        TKind::If { cond, then_branch, else_branch } => {
            reveal(lowering::if_flow);
            assert forall|g: Text| #[trigger] scan::expr_has(*cond, Sought::Call(g)) implies lowered_name(
                m,
                g,
            ) by {
                assert(scan::expr_has(e, Sought::Call(g)));
            }
            assert forall|g: Text| #[trigger] scan::block_has(then_branch, Sought::Call(g)) implies lowered_name(
                m,
                g,
            ) by {
                assert(scan::expr_has(e, Sought::Call(g)));
            }
            assert forall|g: Text| #[trigger] scan::block_has(else_branch, Sought::Call(g)) implies lowered_name(
                m,
                g,
            ) by {
                assert(scan::expr_has(e, Sought::Call(g)));
            }
            let c = lowering::lower_expr(m, env, lo, *cond);
            let lo1 = lowering::state_of(c);
            link_expr(m, env, lo, *cond);
            let t = lowering::lower_block(m, env, lo1, then_branch, 0);
            let lo2 = lowering::state_of(t);
            link_block(m, env, lo1, then_branch, 0);
            wires::grow_block(m, env, lo1, then_branch, 0);
            let x = lowering::lower_block(m, env, lo2, else_branch, 0);
            let lo3 = lowering::state_of(x);
            link_block(m, env, lo2, else_branch, 0);
            wires::grow_block(m, env, lo2, else_branch, 0);
            lemma_links_add(m, lo, lo1, lo2);
            lemma_links_add(m, lo, lo2, lo3);
            let v = lowering::ternary(c->Ok_0.0.expr, t->Ok_0.0.expr, x->Ok_0.0.expr);
            lemma_links_wire(m, lo, lo3, "w"@, lowering::kind_of(e.ty), v);
        },
        TKind::Match { scrutinee, arms } => {
            reveal(lowering::then_flow);
            reveal(lowering::scalar_flow);
            assert forall|g: Text| #[trigger] scan::expr_has(*scrutinee, Sought::Call(g)) implies lowered_name(
                m,
                g,
            ) by {
                assert(scan::expr_has(e, Sought::Call(g)));
            }
            assert forall|g: Text| #[trigger] scan::arms_have(arms, Sought::Call(g), 0) implies lowered_name(
                m,
                g,
            ) by {
                assert(scan::expr_has(e, Sought::Call(g)));
            }
            let s = lowering::lower_expr(m, env, lo, *scrutinee);
            let lo1 = lowering::state_of(s);
            link_expr(m, env, lo, *scrutinee);
            let n = arms.len() - 1;
            let kind = lowering::kind_of(e.ty);
            lemma_arms_called(m, arms, 0);
            link_arms(m, env, lo1, arms, n, lowering::net_of(s), kind, None);
            wires::grow_arms(m, env, lo1, arms, n, lowering::net_of(s), kind, None);
            lemma_links_add(
                m,
                lo,
                lo1,
                lowering::state_of(
                    lowering::lower_arms(m, env, lo1, arms, n, lowering::net_of(s), kind, None),
                ),
            );
        },
        TKind::Block(b) => {
            assert forall|g: Text| #[trigger] scan::block_has(b, Sought::Call(g)) implies lowered_name(
                m,
                g,
            ) by {
                assert(scan::expr_has(e, Sought::Call(g)));
            }
            link_block(m, env, lo, b, 0);
        },
        _ => {
            reveal(lowering::literal);
            reveal(lowering::local);
            reveal(lowering::refused);
        },
    }
}

/// Whether every call in an arm is of a lowered function.
pub open spec fn arm_called(m: TModule, a: TArm) -> bool {
    forall|g: Text| #[trigger] scan::arm_has(a, Sought::Call(g)) ==> lowered_name(m, g)
}

proof fn lemma_arms_called(m: TModule, arms: Seq<TArm>, i: int)
    requires
        0 <= i,
        forall|g: Text| #[trigger]
            scan::arms_have(arms, Sought::Call(g), i) ==> lowered_name(m, g),
    ensures
        forall|j: int| i <= j < arms.len() ==> arm_called(m, #[trigger] arms[j]),
    decreases arms.len() - i,
{
    if i < arms.len() {
        assert(arm_called(m, arms[i])) by {
            assert forall|g: Text| #[trigger]
                scan::arm_has(arms[i], Sought::Call(g)) implies lowered_name(m, g) by {
                assert(scan::arms_have(arms, Sought::Call(g), i));
            }
        }
        assert forall|g: Text| #[trigger]
            scan::arms_have(arms, Sought::Call(g), i + 1) implies lowered_name(m, g) by {
            assert(scan::arms_have(arms, Sought::Call(g), i));
        }
        lemma_arms_called(m, arms, i + 1);
    }
}

proof fn link_binary(
    m: TModule,
    op: BinOp,
    ty: TType,
    l: TNet,
    r: TNet,
    lo: Lo,
    a: Lo,
)
    requires
        links(m, lo, a),
        lowering::binary_net(op, ty, l, r, a) is Ok,
    ensures
        links(m, lo, lowering::state_of(lowering::binary_net(op, ty, l, r, a))),
{
    reveal(lowering::binary_net);
    if op is Shl || op is Shr {
        let width = l.kind.width();
        let w = arith::bits_of_width(width);
        let aw = r.kind.width();
        let mask = lowering::bin(
            BinOp::BitAnd,
            r.expr,
            NExpr::Const { value: (w - 1) as u128, width: aw },
        );
        let rem = lowering::bin(
            BinOp::Rem,
            r.expr,
            NExpr::Const { value: w as u128, width: aw },
        );
        lemma_links_wire(m, lo, a, "w"@, r.kind, mask);
        lemma_links_wire(m, lo, a, "w"@, r.kind, rem);
        let (amount, a1) = lowering::reduced(r, width, a);
        lemma_links_wire(m, lo, a1, "w"@, l.kind, lowering::bin(op, l.expr, amount.expr));
    } else {
        let x = lowering::bin(op, l.expr, r.expr);
        lemma_links_wire(m, lo, a, "w"@, Scalar::Bool, x);
        lemma_links_wire(m, lo, a, "w"@, lowering::kind_of(ty), x);
    }
}

proof fn link_args(
    m: TModule,
    env: Nets,
    lo: Lo,
    args: Seq<TExpr>,
    params: Seq<TParam>,
    i: int,
    acc: Seq<(Text, NExpr)>,
)
    requires
        lowering::lower_args(m, env, lo, args, params, i, acc) is Ok,
        args.len() == params.len(),
        0 <= i <= args.len(),
        acc.len() == i,
        forall|k: int| 0 <= k < i ==> (#[trigger] acc[k]).0 == params[k].name,
        forall|g: Text| #[trigger]
            scan::exprs_have(args, Sought::Call(g), i) ==> lowered_name(m, g),
    ensures
        ({
            let (conns, lo1) = lowering::lower_args(m, env, lo, args, params, i, acc)->Ok_0;
            &&& links(m, lo, lo1)
            &&& conns.len() == params.len()
            &&& forall|k: int| 0 <= k < conns.len() ==> (#[trigger] conns[k]).0 == params[k].name
        }),
    decreases args, args.len() - i,
{
    reveal(lowering::arg_flow);
    if i < args.len() {
        assert forall|g: Text| #[trigger]
            scan::expr_has(args[i], Sought::Call(g)) implies lowered_name(m, g) by {
            assert(scan::exprs_have(args, Sought::Call(g), i));
        }
        link_expr(m, env, lo, args[i]);
        let lo1 = lowering::state_of(lowering::lower_expr(m, env, lo, args[i]));
        match lowering::arg_flow(params[i], lowering::lower_expr(m, env, lo, args[i]), acc) {
            Ok((acc1, lo2)) => {
                assert forall|g: Text| #[trigger]
                    scan::exprs_have(args, Sought::Call(g), i + 1) implies lowered_name(m, g) by {
                    assert(scan::exprs_have(args, Sought::Call(g), i));
                }
                link_args(m, env, lo2, args, params, i + 1, acc1);
                wires::grow_args(m, env, lo2, args, params, i + 1, acc1);
                lemma_links_add(
                    m,
                    lo,
                    lo1,
                    lowering::lower_args(m, env, lo2, args, params, i + 1, acc1)->Ok_0.1,
                );
            },
            Err(_) => {},
        }
    }
}

proof fn link_arms(
    m: TModule,
    env: Nets,
    lo: Lo,
    arms: Seq<TArm>,
    i: int,
    scrut: TNet,
    kind: Scalar,
    acc: Option<TNet>,
)
    requires
        lowering::lower_arms(m, env, lo, arms, i, scrut, kind, acc) is Ok,
        forall|j: int| 0 <= j < arms.len() ==> arm_called(m, #[trigger] arms[j]),
    ensures
        links(
            m,
            lo,
            lowering::state_of(lowering::lower_arms(m, env, lo, arms, i, scrut, kind, acc)),
        ),
    decreases arms, i + 1,
{
    reveal(lowering::match_result);
    if 0 <= i < arms.len() {
        assert(arm_called(m, arms[i]));
        link_arm(m, env, lo, arms[i], scrut, kind, acc);
        match lowering::lower_arm(m, env, lo, arms[i], scrut, kind, acc) {
            Ok((n, lo1)) => {
                link_arms(m, env, lo1, arms, i - 1, scrut, kind, Some(n));
                wires::grow_arms(m, env, lo1, arms, i - 1, scrut, kind, Some(n));
                lemma_links_add(
                    m,
                    lo,
                    lo1,
                    lowering::state_of(
                        lowering::lower_arms(m, env, lo1, arms, i - 1, scrut, kind, Some(n)),
                    ),
                );
            },
            Err(_) => {},
        }
    }
}

proof fn link_arm(
    m: TModule,
    env: Nets,
    lo: Lo,
    arm: TArm,
    scrut: TNet,
    kind: Scalar,
    rest: Option<TNet>,
)
    requires
        lowering::lower_arm(m, env, lo, arm, scrut, kind, rest) is Ok,
        arm_called(m, arm),
    ensures
        links(
            m,
            lo,
            lowering::state_of(lowering::lower_arm(m, env, lo, arm, scrut, kind, rest)),
        ),
    decreases arm, 0int,
{
    reveal(lowering::arm_flow);
    let inner = lowering::arm_env(env, arm.pattern, scrut);
    assert forall|g: Text| #[trigger]
        scan::expr_has(arm.body, Sought::Call(g)) implies lowered_name(m, g) by {
        assert(scan::arm_has(arm, Sought::Call(g)));
    }
    link_expr(m, inner, lo, arm.body);
    let (b, lo1) = lowering::lower_expr(m, inner, lo, arm.body)->Ok_0;
    match rest {
        Some(other) => {
            match lowering::pattern_value(arm.pattern, scrut.kind) {
                Ok(v) => {
                    let x = lowering::bin(
                        BinOp::Eq,
                        scrut.expr,
                        NExpr::Const { value: v, width: scrut.kind.width() },
                    );
                    lemma_links_wire(m, lo, lo1, "w"@, Scalar::Bool, x);
                    let (c, lo2) = lowering::wire(lo1, "w"@, Scalar::Bool, x);
                    let y = lowering::ternary(c.expr, b.expr, other.expr);
                    lemma_links_wire(m, lo, lo2, "w"@, kind, y);
                },
                Err(_) => {},
            }
        },
        None => {},
    }
}

/// Whether every call in the statements from position `i` on and in the tail is of a
/// lowered function.
pub open spec fn rest_called(m: TModule, b: TBlock, i: int) -> bool {
    &&& forall|g: Text| #[trigger]
        scan::stmts_have(b.stmts, Sought::Call(g), i) ==> lowered_name(m, g)
    &&& b.tail matches Some(e) ==> forall|g: Text| #[trigger]
        scan::expr_has(*e, Sought::Call(g)) ==> lowered_name(m, g)
}

proof fn link_rest(m: TModule, env: Nets, lo: Lo, b: TBlock, i: int)
    requires
        0 <= i,
        lowering::lower_block(m, env, lo, b, i) is Ok,
        rest_called(m, b, i),
    ensures
        links(m, lo, lowering::state_of(lowering::lower_block(m, env, lo, b, i))),
    decreases b, b.stmts.len() - i,
{
    reveal(lowering::then_flow);
    if i >= b.stmts.len() {
        match b.tail {
            Some(e) => link_expr(m, env, lo, *e),
            None => {},
        }
    } else {
        assert forall|g: Text| #[trigger]
            scan::stmt_has(b.stmts[i], Sought::Call(g)) implies lowered_name(m, g) by {
            assert(scan::stmts_have(b.stmts, Sought::Call(g), i));
        }
        assert forall|g: Text| #[trigger]
            scan::stmts_have(b.stmts, Sought::Call(g), i + 1) implies lowered_name(m, g) by {
            assert(scan::stmts_have(b.stmts, Sought::Call(g), i));
        }
        match b.stmts[i] {
            TStmt::Let { name, mutable, ty, init } => {
                assert forall|g: Text| #[trigger]
                    scan::expr_has(init, Sought::Call(g)) implies lowered_name(m, g) by {
                    assert(scan::stmt_has(b.stmts[i], Sought::Call(g)));
                }
                let v = lowering::lower_expr(m, env, lo, init);
                let (n, lo1) = lowering::bound(name, v);
                link_expr(m, env, lo, init);
                lemma_links_wire(
                    m,
                    lo,
                    lowering::state_of(v),
                    lowering::variable_prefix(name),
                    lowering::net_of(v).kind,
                    lowering::net_of(v).expr,
                );
                let inner = env.push((name, n));
                link_rest(m, inner, lo1, b, i + 1);
                wires::grow_block(m, inner, lo1, b, i + 1);
                lemma_links_add(
                    m,
                    lo,
                    lo1,
                    lowering::state_of(lowering::lower_block(m, inner, lo1, b, i + 1)),
                );
            },
            TStmt::Expr(e) => link_rest(m, env, lo, b, i + 1),
            _ => {},
        }
    }
}

proof fn link_block(m: TModule, env: Nets, lo: Lo, b: TBlock, i: int)
    requires
        i == 0,
        lowering::lower_block(m, env, lo, b, i) is Ok,
        forall|g: Text| #[trigger] scan::block_has(b, Sought::Call(g)) ==> lowered_name(m, g),
    ensures
        links(m, lo, lowering::state_of(lowering::lower_block(m, env, lo, b, i))),
    decreases b, b.stmts.len() + 1,
{
    assert(rest_called(m, b, 0)) by {
        assert forall|g: Text| #[trigger]
            scan::stmts_have(b.stmts, Sought::Call(g), 0) implies lowered_name(m, g) by {
            assert(scan::block_has(b, Sought::Call(g)));
        }
        match b.tail {
            Some(e) => {
                assert forall|g: Text| #[trigger]
                    scan::expr_has(*e, Sought::Call(g)) implies lowered_name(m, g) by {
                    assert(scan::block_has(b, Sought::Call(g)));
                }
            },
            None => {},
        }
    }
    link_rest(m, env, lo, b, 0);
}

/// Whether an instance fits the module: the connections are its input ports, in order,
/// and behind those stands the output port, as wide as the instance.
pub open spec fn connects(item: NItem, to: NModule) -> bool {
    match item {
        NItem::Instance { module, inst, conns, out_wire, out_width } => {
            &&& module == to.name
            &&& to.ports.len() == conns.len() + 1
            &&& forall|k: int|
                0 <= k < conns.len() ==> (#[trigger] to.ports[k]).dir is Input && to.ports[k].name
                    == conns[k].0
            &&& to.ports.last().dir is Output
            &&& to.ports.last().width == out_width
        },
        _ => true,
    }
}

/// Every instance in the design is one of a module of the design, and fits it.
pub proof fn law_instances_fit_their_modules(m: TModule, i: int, k: int)
    requires
        name_map::sorted(m.funcs),
        m.funcs.len() <= usize::MAX,
        0 <= i < m.funcs.len(),
        lowering::is_lowered(m, i),
        0 <= k < lowering::module_of(m, i).items.len(),
        lowering::module_of(m, i).items[k] is Instance,
    ensures
        exists|j: int|
            0 <= j < m.funcs.len() && #[trigger] lowering::is_lowered(m, j) && connects(
                lowering::module_of(m, i).items[k],
                lowering::module_of(m, j),
            ),
{
    let f = m.funcs[i].1;
    let item = lowering::module_of(m, i).items[k];
    assert forall|g: Text| #[trigger]
        scan::block_has(f.body, Sought::Call(g)) implies lowered_name(m, g) by {
        if name_map::find(m.funcs, g) is Some {
            name_map::lemma_find_some(m.funcs, g, 0);
            let j = choose|j: int|
                0 <= j < m.funcs.len() && #[trigger] m.funcs[j].0 == g && name_map::find(m.funcs, g)
                    == Some(m.funcs[j].1);
            equivalence::law_callees_are_lowered(m, i, j);
        }
    }
    reveal(lowering::lower_func);
    reveal(lowering::lower_body);
    let kind = lowering::kind_of(f.ret);
    let first = lowering::lower_body(m, f, kind, Seq::empty())->Ok_0.1;
    let lo = lowering::nothing(lowering::padding(first.items, f.params));
    let env = lowering::param_nets(f.params);
    let (n, lo1) = lowering::lower_block(m, env, lo, f.body, 0)->Ok_0;
    link_block(m, env, lo, f.body, 0);
    assert(item == lo1.items[k]);
    assert(is_linked(m, lo1.items[k]));
    let g = choose|g: Text| #[trigger] instantiates(m, item, g);
    let j = choose|j: int|
        0 <= j < m.funcs.len() && (#[trigger] m.funcs[j]).0 == g && lowering::is_lowered(m, j);
    name_map::lemma_find_sorted(m.funcs, j);
    equivalence::lemma_ports(m, j);
    assert(connects(item, lowering::module_of(m, j)));
}

} // verus!
