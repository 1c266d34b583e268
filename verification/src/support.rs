//! What lowering refuses in a checked program: constructs that no netlist is made
//! of yet. The types of its parts always agree, and its names are always bound.

use crate::arith;
use crate::ast::AProgram;
use crate::diagnostic::Diag;
use crate::ir::{TArm, TBlock, TExpr, TKind, TModule, TParam, TPattern, TStmt, TType};
use crate::lowering::{self, Lo, Lowered, Nets, Scalar, TNet};
use crate::name_map;
use crate::netlist::{NExpr, NPort};
use crate::program;
use crate::safety;
use crate::semantics;
use crate::soundness;
use crate::text::Text;
use crate::typing::{Defs, Vars};
use crate::welltyped;
use vstd::arithmetic::power2::*;
use vstd::prelude::*;

verus! {

/// Whether `r` says that a body holds what is not lowered yet.
pub open spec fn unsupported_part(r: Text) -> bool {
    ||| exists|t: TType| #[trigger] lowering::scalar_of(t) == Err::<Scalar, Text>(r)
    ||| exists|e: TExpr| #[trigger] lowering::refused(e) == Err::<(TNet, Lo), Text>(r)
    ||| r == "match guards are not yet supported by codegen"@
    ||| r == "enum/variant `match` not yet supported by codegen"@
    ||| r == "this pattern is not yet supported by codegen"@
    ||| r == "non-exhaustive bool match has no fallthrough"@
    ||| r == "non-exhaustive scalar match has no fallthrough"@
    ||| r == "block has no value to lower"@
    ||| r == "a statement with effects is not yet supported"@
    ||| r == "`return` is not yet supported by codegen"@
    ||| r == "assignment / mutable locals not yet supported"@
    ||| r == "`while` loops are not synthesizable"@
    ||| r == "`for` loops (unrolling) not yet supported"@
}

/// Whether `r` says that the parameters cannot be ports.
pub open spec fn unsupported_ports(r: Text) -> bool {
    ||| r == "a parameter named `out` collides with the output port"@
    ||| exists|n: Text| r == #[trigger] ("two parameters are named `"@ + n) + "`"@
}

/// Whether the lowered variables are those in scope, each of its type.
pub open spec fn nets_fit(vars: Vars, env: Nets) -> bool {
    env.len() == vars.len() && forall|i: int|
        0 <= i < env.len() ==> (#[trigger] env[i]).0 == vars[i].0 && lowering::scalar_of(
            vars[i].1.ty,
        ) == Ok::<Scalar, Text>(env[i].1.kind)
}

/// Whether lowering a part of the type `t` gives a net of that type, or meets what
/// is not lowered yet.
pub open spec fn fair(r: Lowered, t: TType) -> bool {
    match r {
        Ok((n, _)) => lowering::scalar_of(t) == Ok::<Scalar, Text>(n.kind),
        Err(x) => unsupported_part(x),
    }
}

proof fn lemma_refused(e: TExpr, r: Text)
    requires
        lowering::refused(e) == Err::<(TNet, Lo), Text>(r),
    ensures
        unsupported_part(r),
{
}

proof fn lemma_scalar(t: TType)
    ensures
        lowering::scalar_of(t) matches Err(r) ==> unsupported_part(r),
{
}

proof fn lemma_slot(vars: Vars, env: Nets, name: Text, i: int)
    requires
        nets_fit(vars, env),
        0 <= i <= env.len(),
    ensures
        semantics::slot_before(env, name, i) == semantics::slot_before(vars, name, i),
        semantics::slot_before(env, name, i) matches Some(p) ==> 0 <= p < i,
    decreases i,
{
    if i > 0 {
        assert(env[i - 1].0 == vars[i - 1].0);
        lemma_slot(vars, env, name, i - 1);
    }
}

/// A literal of a pattern has a value of the type that it matches.
proof fn lemma_pattern_value(d: Defs, p: TPattern, t: TType, kind: Scalar)
    requires
        welltyped::pattern_ok(d, p, t),
        lowering::scalar_of(t) == Ok::<Scalar, Text>(kind),
        !(p is Wildcard),
        !(p is Binding),
    ensures
        match lowering::pattern_value(p, kind) {
            Ok(_) => p is Int || p is Bool,
            Err(r) => unsupported_part(r),
        },
{
    reveal(lowering::pattern_value);
    reveal(lowering::scalar_of);
    match p {
        TPattern::Int(v) => match kind {
            Scalar::Bit(n) => {
                vstd::arithmetic::div_mod::lemma_small_mod(
                    v as nat,
                    pow2(arith::bits_of_width(n)),
                );
                assert(arith::wrap(v as int, n) == v);
                arith::lemma_two128();
                vstd::arithmetic::div_mod::lemma_small_mod(v as nat, arith::two128() as nat);
            },
            _ => {},
        },
        _ => {},
    }
}

proof fn fair_expr(m: TModule, d: Defs, ret: TType, vars: Vars, env: Nets, lo: Lo, e: TExpr)
    requires
        soundness::world_ok(m, d),
        nets_fit(vars, env),
        welltyped::expr_ok(d, ret, vars, e),
    ensures
        fair(lowering::lower_expr(m, env, lo, e), e.ty),
    decreases e, 0int,
{
    lemma_scalar(e.ty);
    match e.kind {
        TKind::Int(v) => {
            reveal(lowering::literal);
            reveal(lowering::scalar_of);
        },
        TKind::Bool(b) => {
            reveal(lowering::scalar_of);
        },
        TKind::Local(name) => {
            reveal(lowering::local);
            lemma_slot(vars, env, name, env.len() as int);
        },
        TKind::Unary { op, expr } => {
            reveal(lowering::unary_net);
            fair_expr(m, d, ret, vars, env, lo, *expr);
        },
        TKind::Binary { op, lhs, rhs } => {
            let l = lowering::lower_expr(m, env, lo, *lhs);
            fair_expr(m, d, ret, vars, env, lo, *lhs);
            fair_expr(m, d, ret, vars, env, lowering::state_of(l), *rhs);
            reveal(lowering::binary_flow);
            reveal(lowering::binary_net);
            assert(lowering::scalar_of(TType::Bool) == Ok::<Scalar, Text>(Scalar::Bool)) by {
                reveal(lowering::scalar_of);
            }
        },
        TKind::Call { func, args } => {
            let f = name_map::find(m.funcs, func)->Some_0;
            let t = lowering::call_target(m, func, args.len(), e.ty);
            reveal(lowering::call_target);
            reveal(lowering::call_flow);
            if t is Ok {
                fair_args(m, d, ret, vars, env, lo, args, f.params, 0, Seq::empty());
            }
        },
        TKind::If { cond, then_branch, else_branch } => {
            let c = lowering::lower_expr(m, env, lo, *cond);
            let t = lowering::lower_block(m, env, lowering::state_of(c), then_branch, 0);
            fair_expr(m, d, ret, vars, env, lo, *cond);
            assert(welltyped::block_ok(d, ret, vars, then_branch));
            assert(welltyped::block_ok(d, ret, vars, else_branch));
            fair_block(m, d, ret, vars, env, lowering::state_of(c), then_branch, 0);
            fair_block(m, d, ret, vars, env, lowering::state_of(t), else_branch, 0);
            reveal(lowering::if_flow);
        },
        TKind::Match { scrutinee, arms } => {
            let s = lowering::lower_expr(m, env, lo, *scrutinee);
            fair_expr(m, d, ret, vars, env, lo, *scrutinee);
            reveal(lowering::then_flow);
            reveal(lowering::scalar_flow);
            if s is Ok && lowering::scalar_of(e.ty) is Ok {
                assert(arms.len() > 0) by {
                    reveal(lowering::scalar_of);
                }
                lemma_arms_ok(d, ret, vars, arms, scrutinee.ty, e.ty, 0);
                fair_arms(
                    m,
                    d,
                    ret,
                    vars,
                    env,
                    lowering::state_of(s),
                    arms,
                    arms.len() - 1,
                    scrutinee.ty,
                    lowering::net_of(s),
                    e.ty,
                    None,
                );
            }
        },
        TKind::Block(b) => {
            assert(welltyped::block_ok(d, ret, vars, b));
            fair_block(m, d, ret, vars, env, lo, b, 0);
        },
        _ => {
            reveal(lowering::refused);
            lemma_refused(e, lowering::refused(e)->Err_0);
        },
    }
}

proof fn lemma_arms_ok(
    d: Defs,
    ret: TType,
    vars: Vars,
    arms: Seq<TArm>,
    sty: TType,
    ty: TType,
    i: int,
)
    requires
        0 <= i,
        welltyped::arms_ok(d, ret, vars, arms, sty, ty, i),
    ensures
        forall|j: int|
            i <= j < arms.len() ==> #[trigger] welltyped::arm_ok(d, ret, vars, arms[j], sty, ty),
    decreases arms.len() - i,
{
    if i < arms.len() {
        lemma_arms_ok(d, ret, vars, arms, sty, ty, i + 1);
    }
}

proof fn fair_args(
    m: TModule,
    d: Defs,
    ret: TType,
    vars: Vars,
    env: Nets,
    lo: Lo,
    args: Seq<TExpr>,
    params: Seq<TParam>,
    i: int,
    acc: Seq<(Text, NExpr)>,
)
    requires
        soundness::world_ok(m, d),
        nets_fit(vars, env),
        args.len() == params.len(),
        welltyped::exprs_ok(d, ret, vars, args, crate::ir::param_types(params), i),
        0 <= i,
    ensures
        lowering::lower_args(m, env, lo, args, params, i, acc) matches Err(r)
            ==> unsupported_part(r),
    decreases args, args.len() - i,
{
    if i < args.len() {
        fair_expr(m, d, ret, vars, env, lo, args[i]);
        reveal(lowering::arg_flow);
        match lowering::arg_flow(params[i], lowering::lower_expr(m, env, lo, args[i]), acc) {
            Ok((acc1, lo1)) => {
                fair_args(m, d, ret, vars, env, lo1, args, params, i + 1, acc1);
            },
            Err(_) => {},
        }
    }
}

proof fn fair_arms(
    m: TModule,
    d: Defs,
    ret: TType,
    vars: Vars,
    env: Nets,
    lo: Lo,
    arms: Seq<TArm>,
    i: int,
    sty: TType,
    scrut: TNet,
    ty: TType,
    acc: Option<TNet>,
)
    requires
        soundness::world_ok(m, d),
        nets_fit(vars, env),
        forall|j: int|
            0 <= j < arms.len() ==> #[trigger] welltyped::arm_ok(d, ret, vars, arms[j], sty, ty),
        i < arms.len(),
        acc is Some || i >= 0,
        lowering::scalar_of(sty) == Ok::<Scalar, Text>(scrut.kind),
        lowering::scalar_of(ty) is Ok,
        acc matches Some(n) ==> n.kind == lowering::kind_of(ty),
    ensures
        fair(
            lowering::lower_arms(m, env, lo, arms, i, scrut, lowering::kind_of(ty), acc),
            ty,
        ),
    decreases arms, i + 1,
{
    reveal(lowering::match_result);
    if i >= 0 {
        assert(welltyped::arm_ok(d, ret, vars, arms[i], sty, ty));
        fair_arm(m, d, ret, vars, env, lo, arms[i], sty, scrut, ty, acc);
        match lowering::lower_arm(m, env, lo, arms[i], scrut, lowering::kind_of(ty), acc) {
            Ok((n, lo1)) => {
                fair_arms(m, d, ret, vars, env, lo1, arms, i - 1, sty, scrut, ty, Some(n));
            },
            Err(_) => {},
        }
    }
}

proof fn fair_arm(
    m: TModule,
    d: Defs,
    ret: TType,
    vars: Vars,
    env: Nets,
    lo: Lo,
    arm: TArm,
    sty: TType,
    scrut: TNet,
    ty: TType,
    rest: Option<TNet>,
)
    requires
        soundness::world_ok(m, d),
        nets_fit(vars, env),
        welltyped::arm_ok(d, ret, vars, arm, sty, ty),
        lowering::scalar_of(sty) == Ok::<Scalar, Text>(scrut.kind),
        lowering::scalar_of(ty) is Ok,
    ensures
        fair(lowering::lower_arm(m, env, lo, arm, scrut, lowering::kind_of(ty), rest), ty),
    decreases arm, 0int,
{
    reveal(lowering::arm_flow);
    let inner = vars + welltyped::pattern_vars(arm.pattern);
    let env1 = lowering::arm_env(env, arm.pattern, scrut);
    match arm.pattern {
        TPattern::Wildcard => {
            assert(inner =~= vars);
            fair_expr(m, d, ret, inner, env1, lo, arm.body);
        },
        TPattern::Binding { name, ty: t } => {
            assert(nets_fit(inner, env1));
            fair_expr(m, d, ret, inner, env1, lo, arm.body);
        },
        _ => {
            lemma_pattern_value(d, arm.pattern, sty, scrut.kind);
            if lowering::pattern_value(arm.pattern, scrut.kind) is Ok {
                assert(inner =~= vars);
                fair_expr(m, d, ret, inner, env1, lo, arm.body);
            }
        },
    }
}

proof fn fair_block(
    m: TModule,
    d: Defs,
    ret: TType,
    vars: Vars,
    env: Nets,
    lo: Lo,
    b: TBlock,
    i: int,
)
    requires
        soundness::world_ok(m, d),
        nets_fit(vars, env),
        0 <= i <= b.stmts.len(),
        welltyped::stmts_ok(d, ret, vars, b.stmts, i),
        match b.tail {
            None => b.ty == TType::Unit,
            Some(e) => welltyped::expr_ok(d, ret, welltyped::vars_after(vars, b.stmts, i), *e)
                && e.ty == b.ty,
        },
    ensures
        fair(lowering::lower_block(m, env, lo, b, i), b.ty),
    decreases b, b.stmts.len() - i,
{
    if i == b.stmts.len() {
        match b.tail {
            Some(e) => fair_expr(m, d, ret, vars, env, lo, *e),
            None => {},
        }
    } else {
        let behind = welltyped::vars_behind(vars, b.stmts[i]);
        assert(welltyped::stmt_ok(d, ret, vars, b.stmts[i]));
        match b.stmts[i] {
            TStmt::Let { name, mutable, ty, init } => {
                let v = lowering::lower_expr(m, env, lo, init);
                fair_expr(m, d, ret, vars, env, lo, init);
                reveal(lowering::then_flow);
                if v is Ok {
                    let (n, lo1) = lowering::bound(name, v);
                    assert(nets_fit(behind, env.push((name, n))));
                    fair_block(m, d, ret, behind, env.push((name, n)), lo1, b, i + 1);
                }
            },
            TStmt::Expr(e) => {
                if lowering::effectless(e) {
                    fair_block(m, d, ret, behind, env, lo, b, i + 1);
                }
            },
            _ => {},
        }
    }
}

/// Every reason why parameters cannot be ports, and that they are scalars else.
proof fn lemma_input_ports(ps: Seq<TParam>, i: int, acc: Seq<NPort>)
    requires
        0 <= i,
    ensures
        match lowering::input_ports(ps, i, acc) {
            Ok(_) => forall|j: int|
                i <= j < ps.len() ==> lowering::scalar_of((#[trigger] ps[j]).ty) is Ok,
            Err(r) => unsupported_part(r) || unsupported_ports(r),
        },
    decreases ps.len() - i,
{
    if i < ps.len() {
        lemma_scalar(ps[i].ty);
        match lowering::scalar_of(ps[i].ty) {
            Ok(kind) => lemma_input_ports(
                ps,
                i + 1,
                acc.push(
                    NPort {
                        dir: crate::netlist::Dir::Input,
                        name: ps[i].name,
                        width: kind.width(),
                    },
                ),
            ),
            Err(_) => {},
        }
        let n = ps[i].name;
        assert("two parameters are named `"@ + n + "`"@ == ("two parameters are named `"@ + n)
            + "`"@);
    }
}

/// None of these reasons is a disagreement of types.
proof fn lemma_no_mismatch(r: Text)
    requires
        unsupported_part(r) || unsupported_ports(r),
    ensures
        r != lowering::mismatch(),
{
    reveal(lowering::scalar_of);
    reveal(lowering::refused);
    reveal_strlit("internal type mismatch");
    reveal_strlit("`for` loops (unrolling) not yet supported");
    reveal_strlit("`print` is not synthesizable");
    reveal_strlit("`return` is not yet supported by codegen");
    reveal_strlit("`while` loops are not synthesizable");
    reveal_strlit("a parameter named `out` collides with the output port");
    reveal_strlit("a statement with effects is not yet supported");
    reveal_strlit("aggregate access not yet supported by codegen");
    reveal_strlit("aggregate construction not yet supported by codegen");
    reveal_strlit("arrays are not yet supported by codegen");
    reveal_strlit("assignment / mutable locals not yet supported");
    reveal_strlit("block has no value to lower");
    reveal_strlit("constants are not yet supported by codegen");
    reveal_strlit("enum `");
    reveal_strlit("enum/variant `match` not yet supported by codegen");
    reveal_strlit("machine integer `");
    reveal_strlit("match guards are not yet supported by codegen");
    reveal_strlit("non-exhaustive bool match has no fallthrough");
    reveal_strlit("non-exhaustive scalar match has no fallthrough");
    reveal_strlit("struct `");
    reveal_strlit("this pattern is not yet supported by codegen");
    reveal_strlit("tuples are not yet supported by codegen");
    reveal_strlit("two parameters are named `");
    reveal_strlit("unit type cannot be a hardware value");
    reveal_strlit("unit value is not lowerable");
    assert(r[0] != 'i');
}

/// A function of a checked program is refused only for what it holds, or for the
/// names of its parameters: never because the types of its parts would not agree,
/// or because a name in it would stand for nothing.
pub proof fn law_only_the_unsupported_is_refused(p: AProgram, m: TModule, i: int)
    requires
        program::check_program(p) == Ok::<TModule, Seq<Diag>>(m),
        0 <= i < m.funcs.len(),
    ensures
        lowering::lower_func(m, m.funcs[i].0, m.funcs[i].1) matches Err(r) ==> (unsupported_part(r)
            || unsupported_ports(r)) && r != lowering::mismatch(),
{
    let d = safety::program_defs(p);
    let f = m.funcs[i].1;
    safety::lemma_world(p, m);
    name_map::lemma_find_sorted(m.funcs, i);
    assert(name_map::find(d.funcs, m.funcs[i].0) is Some);
    assert(soundness::func_ok(d, f));
    reveal(lowering::lower_func);
    lemma_input_ports(f.params, 0, Seq::empty());
    lemma_scalar(f.ret);
    if lowering::input_ports(f.params, 0, Seq::empty()) is Ok && lowering::scalar_of(f.ret) is Ok {
        let vars = program::param_vars(f.params);
        let env = lowering::param_nets(f.params);
        assert forall|j: int| 0 <= j < env.len() implies (#[trigger] env[j]).0 == vars[j].0
            && lowering::scalar_of(vars[j].1.ty) == Ok::<Scalar, Text>(env[j].1.kind) by {
            assert(lowering::scalar_of(f.params[j].ty) is Ok);
        }
        assert(f.ret != TType::Unit) by {
            reveal(lowering::scalar_of);
        }
        reveal(lowering::lower_body);
        let none: Text = Seq::empty();
        fair_block(m, d, f.ret, vars, env, lowering::nothing(none), f.body, 0);
        let kind = lowering::kind_of(f.ret);
        if lowering::lower_body(m, f, kind, none) is Ok {
            let first = lowering::lower_body(m, f, kind, none)->Ok_0.1;
            let pad = lowering::padding(first.items, f.params);
            fair_block(m, d, f.ret, vars, env, lowering::nothing(pad), f.body, 0);
        }
    }
    match lowering::lower_func(m, m.funcs[i].0, m.funcs[i].1) {
        Err(r) => lemma_no_mismatch(r),
        Ok(_) => {},
    }
}

} // verus!
