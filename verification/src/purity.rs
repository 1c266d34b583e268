//! What evaluation leaves alone: without an assignment the variables keep their
//! values, and without a `return` no function is left early.

use crate::ir::{TArm, TBlock, TExpr, TKind, TModule, TPlace, TStmt, TType};
use crate::name_map;
use crate::scan::{self, Sought};
use crate::semantics::{self, Flow, Locals, Mem};
use crate::text::Text;
use crate::value::VVal;
use vstd::prelude::*;

verus! {

/// Whether an evaluation did not end in a `return`.
pub open spec fn calm<A>(r: Result<A, Flow>) -> bool {
    match r {
        Err(Flow::Return(_)) => false,
        _ => true,
    }
}

/// Whether the first variables of `b` are those of `a`.
pub open spec fn keeps(a: Locals, b: Locals) -> bool {
    a.len() <= b.len() && b.subrange(0, a.len() as int) == a
}

pub proof fn lemma_keeps_trans(a: Locals, b: Locals, c: Locals)
    requires
        keeps(a, b),
        keeps(b, c),
    ensures
        keeps(a, c),
{
    assert(c.subrange(0, a.len() as int) =~= b.subrange(0, a.len() as int));
}

pub proof fn lemma_keeps_push(a: Locals, x: (Text, VVal))
    ensures
        keeps(a, a),
        keeps(a, a.push(x)),
{
    assert(a.subrange(0, a.len() as int) =~= a);
    assert(a.push(x).subrange(0, a.len() as int) =~= a);
}

#[verifier::rlimit(40)]
proof fn calm_expr(m: TModule, fuel: nat, e: TExpr, s: Mem)
    ensures
        !scan::expr_has(e, Sought::Return)
            ==> calm(semantics::eval_expr(m, fuel, e, s).0),
        !scan::expr_has(e, Sought::Assign) && semantics::eval_expr(m, fuel, e, s).0 is Ok
            ==> semantics::eval_expr(m, fuel, e, s).1.env == s.env,
    decreases fuel, 0int, 0int,
{
    if fuel > 0 {
        let f = (fuel - 1) as nat;
        match e.kind {
            TKind::ConstRef(name) => calm_const(m, f, name, s),
            TKind::Unary { op, expr } => calm_expr(m, f, *expr, s),
            TKind::Binary { op, lhs, rhs } => {
                calm_expr(m, f, *lhs, s);
                calm_expr(m, f, *rhs, semantics::eval_expr(m, f, *lhs, s).1);
            },
            TKind::Call { func, args } => {
                calm_args(m, f, args, 0, Seq::empty(), s);
                match semantics::eval_args(m, f, args, 0, Seq::empty(), s) {
                    (Ok(vs), s1) => law_call_keeps_variables(m, f, func, vs, s1),
                    _ => {},
                }
            },
            TKind::Print { arg } => calm_expr(m, f, *arg, s),
            TKind::MakeStruct { name, fields } => calm_args(m, f, fields, 0, Seq::empty(), s),
            TKind::MakeEnum { name, tag, args } => calm_args(m, f, args, 0, Seq::empty(), s),
            TKind::MakeTuple(es) => calm_args(m, f, es, 0, Seq::empty(), s),
            TKind::Field { base, index } => calm_expr(m, f, *base, s),
            TKind::TupleField { base, index } => calm_expr(m, f, *base, s),
            TKind::Index { base, index } => {
                calm_expr(m, f, *base, s);
                calm_expr(m, f, *index, semantics::eval_expr(m, f, *base, s).1);
            },
            TKind::Array(es) => calm_args(m, f, es, 0, Seq::empty(), s),
            TKind::If { cond, then_branch, else_branch } => {
                calm_expr(m, f, *cond, s);
                let s1 = semantics::eval_expr(m, f, *cond, s).1;
                calm_block(m, f, then_branch, s1);
                calm_block(m, f, else_branch, s1);
            },
            TKind::Match { scrutinee, arms } => {
                calm_expr(m, f, *scrutinee, s);
                match semantics::eval_expr(m, f, *scrutinee, s) {
                    (Ok(v), s1) => calm_arms(m, f, arms, 0, v, s1),
                    _ => {},
                }
            },
            TKind::Block(b) => calm_block(m, f, b, s),
            _ => {},
        }
    }
}

proof fn calm_const(m: TModule, fuel: nat, name: Text, s: Mem)
    ensures
        calm(semantics::eval_const(m, fuel, name, s).0),
        semantics::eval_const(m, fuel, name, s).1.env == s.env,
    decreases fuel, 1int, 0int,
{
    match name_map::find(m.consts, name) {
        Some(d) => {
            calm_expr(m, fuel, d.init, semantics::with_env(s, Seq::empty()));
        },
        None => {},
    }
}

proof fn calm_args(m: TModule, fuel: nat, es: Seq<TExpr>, i: int, acc: Seq<VVal>, s: Mem)
    ensures
        !scan::exprs_have(es, Sought::Return, i)
            ==> calm(
            semantics::eval_args(m, fuel, es, i, acc, s).0,
        ),
        !scan::exprs_have(es, Sought::Assign, i) && semantics::eval_args(
            m,
            fuel,
            es,
            i,
            acc,
            s,
        ).0 is Ok ==> semantics::eval_args(m, fuel, es, i, acc, s).1.env == s.env,
    decreases fuel, 1int, es.len() - i,
{
    if 0 <= i < es.len() {
        calm_expr(m, fuel, es[i], s);
        match semantics::eval_expr(m, fuel, es[i], s) {
            (Ok(v), s1) => calm_args(m, fuel, es, i + 1, acc.push(v), s1),
            _ => {},
        }
    }
}

proof fn lemma_arm(a: TArm, x: Sought)
    requires
        !scan::arm_has(a, x),
    ensures
        !scan::expr_has(a.body, x),
        a.guard is Some ==> !scan::expr_has(a.guard->Some_0, x),
{
}

proof fn calm_arms(m: TModule, fuel: nat, arms: Seq<TArm>, i: int, v: VVal, s: Mem)
    ensures
        !scan::arms_have(arms, Sought::Return, i)
            ==> calm(
            semantics::eval_arms(m, fuel, arms, i, v, s).0,
        ),
        !scan::arms_have(arms, Sought::Assign, i) && semantics::eval_arms(
            m,
            fuel,
            arms,
            i,
            v,
            s,
        ).0 is Ok ==> semantics::eval_arms(m, fuel, arms, i, v, s).1.env == s.env,
    decreases fuel, 1int, arms.len() - i,
{
    if 0 <= i < arms.len() {
        let a = arms[i];
        if !scan::arm_has(a, Sought::Return) {
            lemma_arm(a, Sought::Return);
        }
        if !scan::arm_has(a, Sought::Assign) {
            lemma_arm(a, Sought::Assign);
        }
        match semantics::matched(arms[i].pattern, v) {
            None => calm_arms(m, fuel, arms, i + 1, v, s),
            Some(b) => {
                let n = s.env.len() as int;
                let inner = semantics::with_env(s, s.env + b);
                assert(semantics::cut(inner.env, n) =~= s.env);
                match arms[i].guard {
                    None => calm_expr(m, fuel, arms[i].body, inner),
                    Some(g) => {
                        calm_expr(m, fuel, g, inner);
                        match semantics::eval_expr(m, fuel, g, inner) {
                            (Err(_), _) => {},
                            (Ok(c), s1) => {
                                calm_expr(m, fuel, arms[i].body, s1);
                                calm_arms(
                                    m,
                                    fuel,
                                    arms,
                                    i + 1,
                                    v,
                                    semantics::with_env(s1, semantics::cut(s1.env, n)),
                                );
                            },
                        }
                    },
                }
            },
        }
    }
}

proof fn calm_load(m: TModule, fuel: nat, p: TPlace, s: Mem)
    ensures
        !scan::place_has(p, Sought::Return)
            ==> calm(semantics::load(m, fuel, p, s).0),
    decreases fuel, 1int, semantics::place_depth(p) as int,
{
    match p {
        TPlace::Local { name, ty } => {},
        TPlace::Field { base, index, ty } => calm_load(m, fuel, *base, s),
        TPlace::TupleField { base, index, ty } => calm_load(m, fuel, *base, s),
        TPlace::Index { base, index, ty } => {
            calm_expr(m, fuel, *index, s);
            calm_load(m, fuel, *base, semantics::eval_expr(m, fuel, *index, s).1);
        },
    }
}

proof fn calm_store(m: TModule, fuel: nat, p: TPlace, v: VVal, s: Mem)
    ensures
        !scan::place_has(p, Sought::Return)
            ==> calm(semantics::store(m, fuel, p, v, s).0),
    decreases fuel, 2int, semantics::place_depth(p) as int,
{
    match p {
        TPlace::Local { name, ty } => {},
        TPlace::Field { base, index, ty } => {
            calm_load(m, fuel, *base, s);
            match semantics::load(m, fuel, *base, s) {
                (Ok(cur), s1) => match semantics::with_field(cur, index, v) {
                    Ok(next) => calm_store(m, fuel, *base, next, s1),
                    Err(_) => {},
                },
                _ => {},
            }
        },
        TPlace::TupleField { base, index, ty } => {
            calm_load(m, fuel, *base, s);
            match semantics::load(m, fuel, *base, s) {
                (Ok(cur), s1) => match semantics::with_part(cur, index, v) {
                    Ok(next) => calm_store(m, fuel, *base, next, s1),
                    Err(_) => {},
                },
                _ => {},
            }
        },
        TPlace::Index { base, index, ty } => {
            calm_expr(m, fuel, *index, s);
            match semantics::eval_expr(m, fuel, *index, s) {
                (Ok(i), s1) => {
                    calm_load(m, fuel, *base, s1);
                    match semantics::load(m, fuel, *base, s1) {
                        (Ok(cur), s2) => match semantics::with_element(
                            cur,
                            semantics::int_of(i),
                            v,
                        ) {
                            Ok(next) => calm_store(m, fuel, *base, next, s2),
                            Err(_) => {},
                        },
                        _ => {},
                    }
                },
                _ => {},
            }
        },
    }
}

proof fn calm_while(m: TModule, fuel: nat, cond: TExpr, body: TBlock, s: Mem)
    ensures
        !scan::expr_has(cond, Sought::Return)
            && !scan::block_has(body, Sought::Return)
            ==> calm(
            semantics::eval_while(m, fuel, cond, body, s).0,
        ),
        !scan::expr_has(cond, Sought::Assign) && !scan::block_has(body, Sought::Assign)
            && semantics::eval_while(m, fuel, cond, body, s).0 is Ok ==> semantics::eval_while(
            m,
            fuel,
            cond,
            body,
            s,
        ).1.env == s.env,
    decreases fuel, 6int, 0int,
{
    if fuel > 0 {
        let f = (fuel - 1) as nat;
        calm_expr(m, f, cond, s);
        match semantics::eval_expr(m, f, cond, s) {
            (Ok(c), s1) => {
                calm_block(m, f, body, s1);
                match semantics::eval_block(m, f, body, s1) {
                    (Ok(_), s2) => calm_while(m, f, cond, body, s2),
                    _ => {},
                }
            },
            _ => {},
        }
    }
}

proof fn calm_for(m: TModule, fuel: nat, var: Text, ty: TType, i: int, hi: int, body: TBlock, s: Mem)
    ensures
        !scan::block_has(body, Sought::Return)
            ==> calm(
            semantics::eval_for(m, fuel, var, ty, i, hi, body, s).0,
        ),
        !scan::block_has(body, Sought::Assign) && semantics::eval_for(
            m,
            fuel,
            var,
            ty,
            i,
            hi,
            body,
            s,
        ).0 is Ok ==> semantics::eval_for(m, fuel, var, ty, i, hi, body, s).1.env == s.env,
    decreases fuel, 6int, hi - i,
{
    if i < hi {
        let n = s.env.len() as int;
        let inner = semantics::with_env(s, s.env.push((var, semantics::make_int(i, ty))));
        assert(semantics::cut(inner.env, n) =~= s.env);
        calm_block(m, fuel, body, inner);
        match semantics::eval_block(m, fuel, body, inner) {
            (Ok(_), s1) => calm_for(
                m,
                fuel,
                var,
                ty,
                i + 1,
                hi,
                body,
                semantics::with_env(s1, semantics::cut(s1.env, n)),
            ),
            _ => {},
        }
    }
}

#[verifier::rlimit(40)]
proof fn calm_stmt(m: TModule, fuel: nat, st: TStmt, s: Mem)
    ensures
        !scan::stmt_has(st, Sought::Return)
            ==> calm(semantics::eval_stmt(m, fuel, st, s).0),
        !scan::stmt_has(st, Sought::Assign) && semantics::eval_stmt(m, fuel, st, s).0 is Ok
            ==> keeps(s.env, semantics::eval_stmt(m, fuel, st, s).1.env),
    decreases fuel, 3int, 0int,
{
    lemma_keeps_push(s.env, (Seq::empty(), VVal::Unit));
    match st {
        TStmt::Let { name, mutable, ty, init } => {
            calm_expr(m, fuel, init, s);
            match semantics::eval_expr(m, fuel, init, s) {
                (Ok(v), s1) => lemma_keeps_push(s1.env, (name, v)),
                _ => {},
            }
        },
        TStmt::Assign { place, value } => {
            calm_expr(m, fuel, value, s);
            match semantics::eval_expr(m, fuel, value, s) {
                (Ok(v), s1) => calm_store(m, fuel, place, v, s1),
                _ => {},
            }
        },
        TStmt::While { cond, body } => {
            if fuel > 0 {
                calm_while(m, (fuel - 1) as nat, cond, body, s);
            }
        },
        TStmt::For { var, ty, lo, hi, body } => {
            calm_expr(m, fuel, lo, s);
            match semantics::eval_expr(m, fuel, lo, s) {
                (Ok(a), s1) => {
                    calm_expr(m, fuel, hi, s1);
                    match semantics::eval_expr(m, fuel, hi, s1) {
                        (Ok(b), s2) => if fuel > 0 {
                            calm_for(
                                m,
                                (fuel - 1) as nat,
                                var,
                                ty,
                                semantics::int_of(a),
                                semantics::int_of(b),
                                body,
                                s2,
                            );
                        },
                        _ => {},
                    }
                },
                _ => {},
            }
        },
        TStmt::Return { value } => {},
        TStmt::Expr(e) => calm_expr(m, fuel, e, s),
    }
}

proof fn calm_stmts(m: TModule, fuel: nat, stmts: Seq<TStmt>, i: int, s: Mem)
    ensures
        !scan::stmts_have(stmts, Sought::Return, i)
            ==> calm(
            semantics::eval_stmts(m, fuel, stmts, i, s).0,
        ),
        !scan::stmts_have(stmts, Sought::Assign, i) && semantics::eval_stmts(
            m,
            fuel,
            stmts,
            i,
            s,
        ).0 is Ok ==> keeps(s.env, semantics::eval_stmts(m, fuel, stmts, i, s).1.env),
    decreases fuel, 4int, stmts.len() - i,
{
    lemma_keeps_push(s.env, (Seq::empty(), VVal::Unit));
    if 0 <= i < stmts.len() {
        calm_stmt(m, fuel, stmts[i], s);
        match semantics::eval_stmt(m, fuel, stmts[i], s) {
            (Ok(_), s1) => {
                calm_stmts(m, fuel, stmts, i + 1, s1);
                let s2 = semantics::eval_stmts(m, fuel, stmts, i + 1, s1).1;
                if keeps(s.env, s1.env) && keeps(s1.env, s2.env) {
                    lemma_keeps_trans(s.env, s1.env, s2.env);
                }
            },
            _ => {},
        }
    }
}

proof fn calm_block(m: TModule, fuel: nat, b: TBlock, s: Mem)
    ensures
        !scan::block_has(b, Sought::Return)
            ==> calm(semantics::eval_block(m, fuel, b, s).0),
        !scan::block_has(b, Sought::Assign) && semantics::eval_block(m, fuel, b, s).0 is Ok
            ==> semantics::eval_block(m, fuel, b, s).1.env == s.env,
    decreases fuel, 5int, 0int,
{
    calm_stmts(m, fuel, b.stmts, 0, s);
    match semantics::eval_stmts(m, fuel, b.stmts, 0, s) {
        (Ok(_), s1) => match b.tail {
            Some(e) => calm_expr(m, fuel, *e, s1),
            None => {},
        },
        _ => {},
    }
}

/// An expression without an assignment leaves every variable as it was, and one
/// without a `return` does not return from the function around it.
pub proof fn law_quiet_expression(m: TModule, fuel: nat, e: TExpr, s: Mem)
    ensures
        !scan::expr_has(e, Sought::Return)
            ==> calm(semantics::eval_expr(m, fuel, e, s).0),
        !scan::expr_has(e, Sought::Assign) && semantics::eval_expr(m, fuel, e, s).0 is Ok
            ==> semantics::eval_expr(m, fuel, e, s).1.env == s.env,
{
    calm_expr(m, fuel, e, s);
}

/// The evaluation of a constant leaves every variable as it was, and never returns
/// from the function that reads it.
pub proof fn law_constant_keeps_variables(m: TModule, fuel: nat, name: Text, s: Mem)
    ensures
        semantics::eval_const(m, fuel, name, s).1.env == s.env,
        calm(semantics::eval_const(m, fuel, name, s).0),
{
    calm_const(m, fuel, name, s);
}

/// A call leaves the variables of the caller as they were, whatever the callee
/// does, and never returns from the caller.
pub proof fn law_call_keeps_variables(m: TModule, fuel: nat, name: Text, args: Seq<VVal>, s: Mem)
    ensures
        semantics::call_func(m, fuel, name, args, s).1.env == s.env,
        calm(semantics::call_func(m, fuel, name, args, s).0),
{
}

} // verus!
