//! Evaluation within an allowance: where it suffices, a larger one changes nothing.

use crate::ir::{TArm, TBlock, TExpr, TKind, TModule, TPlace, TStmt, TType};
use crate::name_map;
use crate::semantics::{self, Flow, Mem};
use crate::text::Text;
use crate::value::VVal;
use vstd::prelude::*;

verus! {

/// Whether an evaluation ended within its allowance.
pub open spec fn ended<A>(r: Result<A, Flow>) -> bool {
    match r {
        Err(Flow::Exhausted) => false,
        _ => true,
    }
}

#[verifier::rlimit(60)]
proof fn more_expr(m: TModule, a: nat, b: nat, e: TExpr, s: Mem)
    requires
        a <= b,
        ended(semantics::eval_expr(m, a, e, s).0),
    ensures
        semantics::eval_expr(m, b, e, s) == semantics::eval_expr(m, a, e, s),
    decreases a, 0int, 0int,
{
    if a > 0 {
        let f = (a - 1) as nat;
        let g = (b - 1) as nat;
        match e.kind {
            TKind::ConstRef(name) => more_const(m, f, g, name, s),
            TKind::Unary { op, expr } => more_expr(m, f, g, *expr, s),
            TKind::Binary { op, lhs, rhs } => {
                more_expr(m, f, g, *lhs, s);
                match semantics::eval_expr(m, f, *lhs, s) {
                    (Ok(l), s1) => if !op.logical() || semantics::truth(l) == Ok::<bool, Flow>(
                        !(op is Or),
                    ) {
                        more_expr(m, f, g, *rhs, s1);
                    },
                    _ => {},
                }
            },
            TKind::Call { func, args } => {
                more_args(m, f, g, args, 0, Seq::empty(), s);
                match semantics::eval_args(m, f, args, 0, Seq::empty(), s) {
                    (Ok(vs), s1) => more_call(m, f, g, func, vs, s1),
                    _ => {},
                }
            },
            TKind::Print { arg } => more_expr(m, f, g, *arg, s),
            TKind::MakeStruct { name, fields } => more_args(m, f, g, fields, 0, Seq::empty(), s),
            TKind::MakeEnum { name, tag, args } => more_args(m, f, g, args, 0, Seq::empty(), s),
            TKind::MakeTuple(es) => more_args(m, f, g, es, 0, Seq::empty(), s),
            TKind::Field { base, index } => more_expr(m, f, g, *base, s),
            TKind::TupleField { base, index } => more_expr(m, f, g, *base, s),
            TKind::Index { base, index } => {
                more_expr(m, f, g, *base, s);
                match semantics::eval_expr(m, f, *base, s) {
                    (Ok(_), s1) => more_expr(m, f, g, *index, s1),
                    _ => {},
                }
            },
            TKind::Array(es) => more_args(m, f, g, es, 0, Seq::empty(), s),
            TKind::If { cond, then_branch, else_branch } => {
                more_expr(m, f, g, *cond, s);
                match semantics::eval_expr(m, f, *cond, s) {
                    (Ok(c), s1) => match semantics::truth(c) {
                        Ok(t) => if t {
                            more_block(m, f, g, then_branch, s1);
                        } else {
                            more_block(m, f, g, else_branch, s1);
                        },
                        _ => {},
                    },
                    _ => {},
                }
            },
            TKind::Match { scrutinee, arms } => {
                more_expr(m, f, g, *scrutinee, s);
                match semantics::eval_expr(m, f, *scrutinee, s) {
                    (Ok(v), s1) => more_arms(m, f, g, arms, 0, v, s1),
                    _ => {},
                }
            },
            TKind::Block(x) => more_block(m, f, g, x, s),
            _ => {},
        }
    }
}

proof fn more_const(m: TModule, a: nat, b: nat, name: Text, s: Mem)
    requires
        a <= b,
        ended(semantics::eval_const(m, a, name, s).0),
    ensures
        semantics::eval_const(m, b, name, s) == semantics::eval_const(m, a, name, s),
    decreases a, 1int, 0int,
{
    if name_map::find(s.cache, name) is None {
        match name_map::find(m.consts, name) {
            Some(d) => more_expr(m, a, b, d.init, semantics::with_env(s, Seq::empty())),
            None => {},
        }
    }
}

proof fn more_args(m: TModule, a: nat, b: nat, es: Seq<TExpr>, i: int, acc: Seq<VVal>, s: Mem)
    requires
        a <= b,
        ended(semantics::eval_args(m, a, es, i, acc, s).0),
    ensures
        semantics::eval_args(m, b, es, i, acc, s) == semantics::eval_args(m, a, es, i, acc, s),
    decreases a, 1int, es.len() - i,
{
    if 0 <= i < es.len() {
        more_expr(m, a, b, es[i], s);
        match semantics::eval_expr(m, a, es[i], s) {
            (Ok(v), s1) => more_args(m, a, b, es, i + 1, acc.push(v), s1),
            _ => {},
        }
    }
}

proof fn more_arms(m: TModule, a: nat, b: nat, arms: Seq<TArm>, i: int, v: VVal, s: Mem)
    requires
        a <= b,
        ended(semantics::eval_arms(m, a, arms, i, v, s).0),
    ensures
        semantics::eval_arms(m, b, arms, i, v, s) == semantics::eval_arms(m, a, arms, i, v, s),
    decreases a, 1int, arms.len() - i,
{
    if 0 <= i < arms.len() {
        match semantics::matched(arms[i].pattern, v) {
            None => more_arms(m, a, b, arms, i + 1, v, s),
            Some(x) => {
                let n = s.env.len() as int;
                let inner = semantics::with_env(s, s.env + x);
                match arms[i].guard {
                    None => more_expr(m, a, b, arms[i].body, inner),
                    Some(g) => {
                        more_expr(m, a, b, g, inner);
                        match semantics::eval_expr(m, a, g, inner) {
                            (Err(_), _) => {},
                            (Ok(c), s1) => if c == VVal::Bool(true) {
                                more_expr(m, a, b, arms[i].body, s1);
                            } else {
                                more_arms(
                                    m,
                                    a,
                                    b,
                                    arms,
                                    i + 1,
                                    v,
                                    semantics::with_env(s1, semantics::cut(s1.env, n)),
                                );
                            },
                        }
                    },
                }
            },
        }
    }
}

proof fn more_load(m: TModule, a: nat, b: nat, p: TPlace, s: Mem)
    requires
        a <= b,
        ended(semantics::load(m, a, p, s).0),
    ensures
        semantics::load(m, b, p, s) == semantics::load(m, a, p, s),
    decreases a, 1int, semantics::place_depth(p) as int,
{
    match p {
        TPlace::Local { name, ty } => {},
        TPlace::Field { base, index, ty } => more_load(m, a, b, *base, s),
        TPlace::TupleField { base, index, ty } => more_load(m, a, b, *base, s),
        TPlace::Index { base, index, ty } => {
            more_expr(m, a, b, *index, s);
            match semantics::eval_expr(m, a, *index, s) {
                (Ok(_), s1) => more_load(m, a, b, *base, s1),
                _ => {},
            }
        },
    }
}

proof fn more_store(m: TModule, a: nat, b: nat, p: TPlace, v: VVal, s: Mem)
    requires
        a <= b,
        ended(semantics::store(m, a, p, v, s).0),
    ensures
        semantics::store(m, b, p, v, s) == semantics::store(m, a, p, v, s),
    decreases a, 2int, semantics::place_depth(p) as int,
{
    match p {
        TPlace::Local { name, ty } => {},
        TPlace::Field { base, index, ty } => {
            more_load(m, a, b, *base, s);
            match semantics::load(m, a, *base, s) {
                (Ok(cur), s1) => match semantics::with_field(cur, index, v) {
                    Ok(next) => more_store(m, a, b, *base, next, s1),
                    Err(_) => {},
                },
                _ => {},
            }
        },
        TPlace::TupleField { base, index, ty } => {
            more_load(m, a, b, *base, s);
            match semantics::load(m, a, *base, s) {
                (Ok(cur), s1) => match semantics::with_part(cur, index, v) {
                    Ok(next) => more_store(m, a, b, *base, next, s1),
                    Err(_) => {},
                },
                _ => {},
            }
        },
        TPlace::Index { base, index, ty } => {
            more_expr(m, a, b, *index, s);
            match semantics::eval_expr(m, a, *index, s) {
                (Ok(i), s1) => {
                    more_load(m, a, b, *base, s1);
                    match semantics::load(m, a, *base, s1) {
                        (Ok(cur), s2) => match semantics::with_element(
                            cur,
                            semantics::int_of(i),
                            v,
                        ) {
                            Ok(next) => more_store(m, a, b, *base, next, s2),
                            Err(_) => {},
                        },
                        _ => {},
                    }
                },
                _ => {},
            }
        },
    }
}

proof fn more_while(m: TModule, a: nat, b: nat, cond: TExpr, body: TBlock, s: Mem)
    requires
        a <= b,
        ended(semantics::eval_while(m, a, cond, body, s).0),
    ensures
        semantics::eval_while(m, b, cond, body, s) == semantics::eval_while(m, a, cond, body, s),
    decreases a, 6int, 0int,
{
    if a > 0 {
        let f = (a - 1) as nat;
        let g = (b - 1) as nat;
        more_expr(m, f, g, cond, s);
        match semantics::eval_expr(m, f, cond, s) {
            (Ok(c), s1) => if c == VVal::Bool(true) {
                more_block(m, f, g, body, s1);
                match semantics::eval_block(m, f, body, s1) {
                    (Ok(_), s2) => more_while(m, f, g, cond, body, s2),
                    _ => {},
                }
            },
            _ => {},
        }
    }
}

proof fn more_for(
    m: TModule,
    a: nat,
    b: nat,
    var: Text,
    ty: TType,
    i: int,
    hi: int,
    body: TBlock,
    s: Mem,
)
    requires
        a <= b,
        ended(semantics::eval_for(m, a, var, ty, i, hi, body, s).0),
    ensures
        semantics::eval_for(m, b, var, ty, i, hi, body, s) == semantics::eval_for(
            m,
            a,
            var,
            ty,
            i,
            hi,
            body,
            s,
        ),
    decreases a, 6int, hi - i,
{
    if i < hi {
        let n = s.env.len() as int;
        let inner = semantics::with_env(s, s.env.push((var, semantics::make_int(i, ty))));
        more_block(m, a, b, body, inner);
        match semantics::eval_block(m, a, body, inner) {
            (Ok(_), s1) => more_for(
                m,
                a,
                b,
                var,
                ty,
                i + 1,
                hi,
                body,
                semantics::with_env(s1, semantics::cut(s1.env, n)),
            ),
            _ => {},
        }
    }
}

#[verifier::rlimit(40)]
proof fn more_stmt(m: TModule, a: nat, b: nat, st: TStmt, s: Mem)
    requires
        a <= b,
        ended(semantics::eval_stmt(m, a, st, s).0),
    ensures
        semantics::eval_stmt(m, b, st, s) == semantics::eval_stmt(m, a, st, s),
    decreases a, 3int, 0int,
{
    match st {
        TStmt::Let { name, mutable, ty, init } => more_expr(m, a, b, init, s),
        TStmt::Assign { place, value } => {
            more_expr(m, a, b, value, s);
            match semantics::eval_expr(m, a, value, s) {
                (Ok(v), s1) => more_store(m, a, b, place, v, s1),
                _ => {},
            }
        },
        TStmt::While { cond, body } => {
            if a > 0 {
                more_while(m, (a - 1) as nat, (b - 1) as nat, cond, body, s);
            }
        },
        TStmt::For { var, ty, lo, hi, body } => {
            more_expr(m, a, b, lo, s);
            match semantics::eval_expr(m, a, lo, s) {
                (Ok(x), s1) => {
                    more_expr(m, a, b, hi, s1);
                    match semantics::eval_expr(m, a, hi, s1) {
                        (Ok(y), s2) => if a > 0 {
                            more_for(
                                m,
                                (a - 1) as nat,
                                (b - 1) as nat,
                                var,
                                ty,
                                semantics::int_of(x),
                                semantics::int_of(y),
                                body,
                                s2,
                            );
                        },
                        _ => {},
                    }
                },
                _ => {},
            }
        },
        TStmt::Return { value } => match value {
            Some(e) => more_expr(m, a, b, e, s),
            None => {},
        },
        TStmt::Expr(e) => more_expr(m, a, b, e, s),
    }
}

proof fn more_stmts(m: TModule, a: nat, b: nat, stmts: Seq<TStmt>, i: int, s: Mem)
    requires
        a <= b,
        ended(semantics::eval_stmts(m, a, stmts, i, s).0),
    ensures
        semantics::eval_stmts(m, b, stmts, i, s) == semantics::eval_stmts(m, a, stmts, i, s),
    decreases a, 4int, stmts.len() - i,
{
    if 0 <= i < stmts.len() {
        more_stmt(m, a, b, stmts[i], s);
        match semantics::eval_stmt(m, a, stmts[i], s) {
            (Ok(_), s1) => more_stmts(m, a, b, stmts, i + 1, s1),
            _ => {},
        }
    }
}

proof fn more_block(m: TModule, a: nat, b: nat, x: TBlock, s: Mem)
    requires
        a <= b,
        ended(semantics::eval_block(m, a, x, s).0),
    ensures
        semantics::eval_block(m, b, x, s) == semantics::eval_block(m, a, x, s),
    decreases a, 5int, 0int,
{
    more_stmts(m, a, b, x.stmts, 0, s);
    match semantics::eval_stmts(m, a, x.stmts, 0, s) {
        (Ok(_), s1) => match x.tail {
            Some(e) => more_expr(m, a, b, *e, s1),
            None => {},
        },
        _ => {},
    }
}

proof fn more_call(m: TModule, a: nat, b: nat, name: Text, args: Seq<VVal>, s: Mem)
    requires
        a <= b,
        ended(semantics::call_func(m, a, name, args, s).0),
    ensures
        semantics::call_func(m, b, name, args, s) == semantics::call_func(m, a, name, args, s),
    decreases a, 6int, 0int,
{
    match name_map::find(m.funcs, name) {
        None => {},
        Some(f) => more_block(
            m,
            a,
            b,
            f.body,
            semantics::with_env(s, semantics::bind_params(f.params, args)),
        ),
    }
}

/// An expression whose evaluation ends within an allowance has the same value and
/// the same effects with every larger one.
pub proof fn law_allowance_expr(m: TModule, small: nat, large: nat, e: TExpr, s: Mem)
    requires
        small <= large,
        ended(semantics::eval_expr(m, small, e, s).0),
    ensures
        semantics::eval_expr(m, large, e, s) == semantics::eval_expr(m, small, e, s),
{
    more_expr(m, small, large, e, s);
}

/// A call that ends within an allowance gives the same value and has the same
/// effects with every larger one.
pub proof fn law_allowance_call(
    m: TModule,
    small: nat,
    large: nat,
    name: Text,
    args: Seq<VVal>,
    s: Mem,
)
    requires
        small <= large,
        ended(semantics::call_func(m, small, name, args, s).0),
    ensures
        semantics::call_func(m, large, name, args, s) == semantics::call_func(
            m,
            small,
            name,
            args,
            s,
        ),
{
    more_call(m, small, large, name, args, s);
}

} // verus!
