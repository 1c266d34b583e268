//! What an evaluation owes to what was evaluated before: nothing depends on the lines
//! that stand in the output already, those lines stay, and a constant that is kept
//! stays kept with its value.

use crate::ir::{TArm, TBlock, TExpr, TKind, TModule, TPlace, TStmt, TType};
use crate::name_map;
use crate::semantics::{self, Flow, Mem};
use crate::text::Text;
use crate::value::VVal;
use vstd::prelude::*;

verus! {

/// The memory `s` behind the lines `before`.
pub open spec fn behind(before: Seq<Text>, s: Mem) -> Mem {
    Mem { env: s.env, out: before + s.out, cache: s.cache }
}

/// Whether the constants that `a` keeps are kept in `b`, with their values.
pub open spec fn kept(a: Mem, b: Mem) -> bool {
    name_map::sorted(a.cache) ==> name_map::sorted(b.cache) && forall|n: Text| #[trigger]
        name_map::find(a.cache, n) is Some ==> name_map::find(b.cache, n) == name_map::find(
            a.cache,
            n,
        )
}

/// Whether an evaluation from `s` to `r` keeps the constants, and goes the same way
/// to `q` behind the lines `before`.
pub open spec fn steady<A>(
    before: Seq<Text>,
    s: Mem,
    r: (Result<A, Flow>, Mem),
    q: (Result<A, Flow>, Mem),
) -> bool {
    q.0 == r.0 && q.1 == behind(before, r.1) && kept(s, r.1)
}

#[verifier::rlimit(40)]
proof fn steady_expr(m: TModule, fuel: nat, e: TExpr, s: Mem, b: Seq<Text>)
    ensures
        steady(
            b,
            s,
            semantics::eval_expr(m, fuel, e, s),
            semantics::eval_expr(m, fuel, e, behind(b, s)),
        ),
    decreases fuel, 0int, 0int,
{
    if fuel > 0 {
        let f = (fuel - 1) as nat;
        match e.kind {
            TKind::ConstRef(name) => steady_const(m, f, name, s, b),
            TKind::Unary { op, expr } => steady_expr(m, f, *expr, s, b),
            TKind::Binary { op, lhs, rhs } => {
                steady_expr(m, f, *lhs, s, b);
                steady_expr(m, f, *rhs, semantics::eval_expr(m, f, *lhs, s).1, b);
            },
            TKind::Call { func, args } => {
                steady_args(m, f, args, 0, Seq::empty(), s, b);
                match semantics::eval_args(m, f, args, 0, Seq::empty(), s) {
                    (Ok(vs), s1) => steady_call(m, f, func, vs, s1, b),
                    _ => {},
                }
            },
            TKind::Print { arg } => {
                steady_expr(m, f, *arg, s, b);
                match semantics::eval_expr(m, f, *arg, s) {
                    (Ok(v), s1) => {
                        assert((b + s1.out).push(v.show(m)) =~= b + s1.out.push(v.show(m)));
                    },
                    _ => {},
                }
            },
            TKind::MakeStruct { name, fields } => {
                steady_args(m, f, fields, 0, Seq::empty(), s, b);
            },
            TKind::MakeEnum { name, tag, args } => {
                steady_args(m, f, args, 0, Seq::empty(), s, b);
            },
            TKind::MakeTuple(es) => steady_args(m, f, es, 0, Seq::empty(), s, b),
            TKind::Field { base, index } => steady_expr(m, f, *base, s, b),
            TKind::TupleField { base, index } => steady_expr(m, f, *base, s, b),
            TKind::Index { base, index } => {
                steady_expr(m, f, *base, s, b);
                steady_expr(m, f, *index, semantics::eval_expr(m, f, *base, s).1, b);
            },
            TKind::Array(es) => steady_args(m, f, es, 0, Seq::empty(), s, b),
            TKind::If { cond, then_branch, else_branch } => {
                steady_expr(m, f, *cond, s, b);
                let s1 = semantics::eval_expr(m, f, *cond, s).1;
                steady_block(m, f, then_branch, s1, b);
                steady_block(m, f, else_branch, s1, b);
            },
            TKind::Match { scrutinee, arms } => {
                steady_expr(m, f, *scrutinee, s, b);
                match semantics::eval_expr(m, f, *scrutinee, s) {
                    (Ok(v), s1) => steady_arms(m, f, arms, 0, v, s1, b),
                    _ => {},
                }
            },
            TKind::Block(x) => steady_block(m, f, x, s, b),
            _ => {},
        }
    }
}

proof fn steady_const(m: TModule, fuel: nat, name: Text, s: Mem, b: Seq<Text>)
    ensures
        steady(
            b,
            s,
            semantics::eval_const(m, fuel, name, s),
            semantics::eval_const(m, fuel, name, behind(b, s)),
        ),
    decreases fuel, 1int, 0int,
{
    match name_map::find(m.consts, name) {
        Some(d) => {
            let inner = semantics::with_env(s, Seq::empty());
            steady_expr(m, fuel, d.init, inner, b);
            match semantics::returned(semantics::eval_expr(m, fuel, d.init, inner)) {
                (Ok(v), s1) => {
                    if name_map::find(s.cache, name) is None && name_map::sorted(s.cache) {
                        name_map::law_put_keeps_sorted(s1.cache, name, v);
                        assert forall|n: Text| #[trigger]
                            name_map::find(s.cache, n) is Some implies name_map::find(
                            name_map::put(s1.cache, name, v),
                            n,
                        ) == name_map::find(s.cache, n) by {
                            name_map::law_put_then_find(s1.cache, name, v, n);
                        }
                    }
                },
                _ => {},
            }
        },
        None => {},
    }
}

proof fn steady_args(
    m: TModule,
    fuel: nat,
    es: Seq<TExpr>,
    i: int,
    acc: Seq<VVal>,
    s: Mem,
    b: Seq<Text>,
)
    ensures
        steady(
            b,
            s,
            semantics::eval_args(m, fuel, es, i, acc, s),
            semantics::eval_args(m, fuel, es, i, acc, behind(b, s)),
        ),
    decreases fuel, 1int, es.len() - i,
{
    if 0 <= i < es.len() {
        steady_expr(m, fuel, es[i], s, b);
        match semantics::eval_expr(m, fuel, es[i], s) {
            (Ok(v), s1) => steady_args(m, fuel, es, i + 1, acc.push(v), s1, b),
            _ => {},
        }
    }
}

proof fn steady_arms(
    m: TModule,
    fuel: nat,
    arms: Seq<TArm>,
    i: int,
    v: VVal,
    s: Mem,
    b: Seq<Text>,
)
    ensures
        steady(
            b,
            s,
            semantics::eval_arms(m, fuel, arms, i, v, s),
            semantics::eval_arms(m, fuel, arms, i, v, behind(b, s)),
        ),
    decreases fuel, 1int, arms.len() - i,
{
    if 0 <= i < arms.len() {
        match semantics::matched(arms[i].pattern, v) {
            None => steady_arms(m, fuel, arms, i + 1, v, s, b),
            Some(x) => {
                let n = s.env.len() as int;
                let inner = semantics::with_env(s, s.env + x);
                match arms[i].guard {
                    None => steady_expr(m, fuel, arms[i].body, inner, b),
                    Some(g) => {
                        steady_expr(m, fuel, g, inner, b);
                        match semantics::eval_expr(m, fuel, g, inner) {
                            (Err(_), _) => {},
                            (Ok(c), s1) => {
                                steady_expr(m, fuel, arms[i].body, s1, b);
                                steady_arms(
                                    m,
                                    fuel,
                                    arms,
                                    i + 1,
                                    v,
                                    semantics::with_env(s1, semantics::cut(s1.env, n)),
                                    b,
                                );
                            },
                        }
                    },
                }
            },
        }
    }
}

proof fn steady_load(m: TModule, fuel: nat, p: TPlace, s: Mem, b: Seq<Text>)
    ensures
        steady(
            b,
            s,
            semantics::load(m, fuel, p, s),
            semantics::load(m, fuel, p, behind(b, s)),
        ),
    decreases fuel, 1int, semantics::place_depth(p) as int,
{
    match p {
        TPlace::Local { name, ty } => {},
        TPlace::Field { base, index, ty } => steady_load(m, fuel, *base, s, b),
        TPlace::TupleField { base, index, ty } => steady_load(m, fuel, *base, s, b),
        TPlace::Index { base, index, ty } => {
            steady_expr(m, fuel, *index, s, b);
            steady_load(m, fuel, *base, semantics::eval_expr(m, fuel, *index, s).1, b);
        },
    }
}

proof fn steady_store(m: TModule, fuel: nat, p: TPlace, v: VVal, s: Mem, b: Seq<Text>)
    ensures
        steady(
            b,
            s,
            semantics::store(m, fuel, p, v, s),
            semantics::store(m, fuel, p, v, behind(b, s)),
        ),
    decreases fuel, 2int, semantics::place_depth(p) as int,
{
    match p {
        TPlace::Local { name, ty } => {},
        TPlace::Field { base, index, ty } => {
            steady_load(m, fuel, *base, s, b);
            match semantics::load(m, fuel, *base, s) {
                (Ok(cur), s1) => match semantics::with_field(cur, index, v) {
                    Ok(next) => steady_store(m, fuel, *base, next, s1, b),
                    Err(_) => {},
                },
                _ => {},
            }
        },
        TPlace::TupleField { base, index, ty } => {
            steady_load(m, fuel, *base, s, b);
            match semantics::load(m, fuel, *base, s) {
                (Ok(cur), s1) => match semantics::with_part(cur, index, v) {
                    Ok(next) => steady_store(m, fuel, *base, next, s1, b),
                    Err(_) => {},
                },
                _ => {},
            }
        },
        TPlace::Index { base, index, ty } => {
            steady_expr(m, fuel, *index, s, b);
            match semantics::eval_expr(m, fuel, *index, s) {
                (Ok(i), s1) => {
                    steady_load(m, fuel, *base, s1, b);
                    match semantics::load(m, fuel, *base, s1) {
                        (Ok(cur), s2) => match semantics::with_element(
                            cur,
                            semantics::int_of(i),
                            v,
                        ) {
                            Ok(next) => steady_store(m, fuel, *base, next, s2, b),
                            Err(_) => {},
                        },
                        _ => {},
                    }
                },
                _ => {},
            }
        },
    }
}

proof fn steady_while(m: TModule, fuel: nat, cond: TExpr, body: TBlock, s: Mem, b: Seq<Text>)
    ensures
        steady(
            b,
            s,
            semantics::eval_while(m, fuel, cond, body, s),
            semantics::eval_while(m, fuel, cond, body, behind(b, s)),
        ),
    decreases fuel, 6int, 0int,
{
    if fuel > 0 {
        let f = (fuel - 1) as nat;
        steady_expr(m, f, cond, s, b);
        match semantics::eval_expr(m, f, cond, s) {
            (Ok(c), s1) => {
                steady_block(m, f, body, s1, b);
                match semantics::eval_block(m, f, body, s1) {
                    (Ok(_), s2) => steady_while(m, f, cond, body, s2, b),
                    _ => {},
                }
            },
            _ => {},
        }
    }
}

proof fn steady_for(
    m: TModule,
    fuel: nat,
    var: Text,
    ty: TType,
    i: int,
    hi: int,
    body: TBlock,
    s: Mem,
    b: Seq<Text>,
)
    ensures
        steady(
            b,
            s,
            semantics::eval_for(m, fuel, var, ty, i, hi, body, s),
            semantics::eval_for(m, fuel, var, ty, i, hi, body, behind(b, s)),
        ),
    decreases fuel, 6int, hi - i,
{
    if i < hi {
        let n = s.env.len() as int;
        let inner = semantics::with_env(s, s.env.push((var, semantics::make_int(i, ty))));
        steady_block(m, fuel, body, inner, b);
        match semantics::eval_block(m, fuel, body, inner) {
            (Ok(_), s1) => steady_for(
                m,
                fuel,
                var,
                ty,
                i + 1,
                hi,
                body,
                semantics::with_env(s1, semantics::cut(s1.env, n)),
                b,
            ),
            _ => {},
        }
    }
}

proof fn steady_stmt(m: TModule, fuel: nat, st: TStmt, s: Mem, b: Seq<Text>)
    ensures
        steady(
            b,
            s,
            semantics::eval_stmt(m, fuel, st, s),
            semantics::eval_stmt(m, fuel, st, behind(b, s)),
        ),
    decreases fuel, 3int, 0int,
{
    match st {
        TStmt::Let { name, mutable, ty, init } => steady_expr(m, fuel, init, s, b),
        TStmt::Assign { place, value } => {
            steady_expr(m, fuel, value, s, b);
            match semantics::eval_expr(m, fuel, value, s) {
                (Ok(v), s1) => steady_store(m, fuel, place, v, s1, b),
                _ => {},
            }
        },
        TStmt::While { cond, body } => {
            if fuel > 0 {
                steady_while(m, (fuel - 1) as nat, cond, body, s, b);
            }
        },
        TStmt::For { var, ty, lo, hi, body } => {
            steady_expr(m, fuel, lo, s, b);
            match semantics::eval_expr(m, fuel, lo, s) {
                (Ok(x), s1) => {
                    steady_expr(m, fuel, hi, s1, b);
                    match semantics::eval_expr(m, fuel, hi, s1) {
                        (Ok(y), s2) => if fuel > 0 {
                            steady_for(
                                m,
                                (fuel - 1) as nat,
                                var,
                                ty,
                                semantics::int_of(x),
                                semantics::int_of(y),
                                body,
                                s2,
                                b,
                            );
                        },
                        _ => {},
                    }
                },
                _ => {},
            }
        },
        TStmt::Return { value } => match value {
            Some(e) => steady_expr(m, fuel, e, s, b),
            None => {},
        },
        TStmt::Expr(e) => steady_expr(m, fuel, e, s, b),
    }
}

proof fn steady_stmts(m: TModule, fuel: nat, stmts: Seq<TStmt>, i: int, s: Mem, b: Seq<Text>)
    ensures
        steady(
            b,
            s,
            semantics::eval_stmts(m, fuel, stmts, i, s),
            semantics::eval_stmts(m, fuel, stmts, i, behind(b, s)),
        ),
    decreases fuel, 4int, stmts.len() - i,
{
    if 0 <= i < stmts.len() {
        steady_stmt(m, fuel, stmts[i], s, b);
        match semantics::eval_stmt(m, fuel, stmts[i], s) {
            (Ok(_), s1) => steady_stmts(m, fuel, stmts, i + 1, s1, b),
            _ => {},
        }
    }
}

proof fn steady_block(m: TModule, fuel: nat, x: TBlock, s: Mem, b: Seq<Text>)
    ensures
        steady(
            b,
            s,
            semantics::eval_block(m, fuel, x, s),
            semantics::eval_block(m, fuel, x, behind(b, s)),
        ),
    decreases fuel, 5int, 0int,
{
    steady_stmts(m, fuel, x.stmts, 0, s, b);
    match semantics::eval_stmts(m, fuel, x.stmts, 0, s) {
        (Ok(_), s1) => match x.tail {
            Some(e) => steady_expr(m, fuel, *e, s1, b),
            None => {},
        },
        _ => {},
    }
}

proof fn steady_call(m: TModule, fuel: nat, name: Text, args: Seq<VVal>, s: Mem, b: Seq<Text>)
    ensures
        steady(
            b,
            s,
            semantics::call_func(m, fuel, name, args, s),
            semantics::call_func(m, fuel, name, args, behind(b, s)),
        ),
    decreases fuel, 6int, 0int,
{
    match name_map::find(m.funcs, name) {
        Some(fd) => {
            steady_block(
                m,
                fuel,
                fd.body,
                semantics::with_env(s, semantics::bind_params(fd.params, args)),
                b,
            );
        },
        None => {},
    }
}

/// The memory `s` without its output.
pub open spec fn unprinted(s: Mem) -> Mem {
    Mem { env: s.env, out: Seq::empty(), cache: s.cache }
}

/// A call behaves alike whatever was printed before: its result is the same, and it
/// adds the same lines behind those.
pub proof fn law_calls_ignore_output(m: TModule, fuel: nat, name: Text, args: Seq<VVal>, s: Mem)
    ensures
        semantics::call_func(m, fuel, name, args, s).0 == semantics::call_func(
            m,
            fuel,
            name,
            args,
            unprinted(s),
        ).0,
        semantics::call_func(m, fuel, name, args, s).1 == behind(
            s.out,
            semantics::call_func(m, fuel, name, args, unprinted(s)).1,
        ),
{
    assert(behind(s.out, unprinted(s)) =~= s);
    steady_call(m, fuel, name, args, unprinted(s), s.out);
}

/// So does the evaluation of a constant.
pub proof fn law_constants_ignore_output(m: TModule, fuel: nat, name: Text, s: Mem)
    ensures
        semantics::eval_const(m, fuel, name, s).0 == semantics::eval_const(
            m,
            fuel,
            name,
            unprinted(s),
        ).0,
        semantics::eval_const(m, fuel, name, s).1 == behind(
            s.out,
            semantics::eval_const(m, fuel, name, unprinted(s)).1,
        ),
{
    assert(behind(s.out, unprinted(s)) =~= s);
    steady_const(m, fuel, name, unprinted(s), s.out);
}

/// A constant that was evaluated is kept with its value, through every later call and
/// every later evaluation of a constant, and reading it again gives that value and
/// changes nothing.
pub proof fn law_constants_are_kept(m: TModule, fuel: nat, name: Text, s: Mem)
    requires
        name_map::sorted(s.cache),
    ensures
        semantics::eval_const(m, fuel, name, s) matches (Ok(v), s1) ==> name_map::find(
            s1.cache,
            name,
        ) == Some(v),
        name_map::find(s.cache, name) matches Some(v) ==> {
            &&& semantics::eval_const(m, fuel, name, s) == (Ok::<VVal, Flow>(v), s)
            &&& forall|k: nat, f: Text, args: Seq<VVal>|
                name_map::find(
                    (#[trigger] semantics::call_func(m, k, f, args, s)).1.cache,
                    name,
                ) == Some(v)
            &&& forall|k: nat, other: Text|
                name_map::find(
                    (#[trigger] semantics::eval_const(m, k, other, s)).1.cache,
                    name,
                ) == Some(v)
        },
        forall|k: nat, f: Text, args: Seq<VVal>|
            name_map::sorted((#[trigger] semantics::call_func(m, k, f, args, s)).1.cache),
        forall|k: nat, other: Text|
            name_map::sorted((#[trigger] semantics::eval_const(m, k, other, s)).1.cache),
{
    steady_const(m, fuel, name, s, Seq::empty());
    match name_map::find(m.consts, name) {
        Some(d) => {
            let inner = semantics::with_env(s, Seq::empty());
            steady_expr(m, fuel, d.init, inner, Seq::empty());
            match semantics::returned(semantics::eval_expr(m, fuel, d.init, inner)) {
                (Ok(v), s1) => name_map::law_put_then_find(s1.cache, name, v, name),
                _ => {},
            }
        },
        None => {},
    }
    assert forall|k: nat, f: Text, args: Seq<VVal>|
        kept(s, (#[trigger] semantics::call_func(m, k, f, args, s)).1) by {
        steady_call(m, k, f, args, s, Seq::empty());
    }
    assert forall|k: nat, other: Text|
        kept(s, (#[trigger] semantics::eval_const(m, k, other, s)).1) by {
        steady_const(m, k, other, s, Seq::empty());
    }
}

/// The memory of a program that has evaluated nothing yet, behind the lines `out`.
pub open spec fn afresh(out: Seq<Text>) -> Mem {
    Mem { env: Seq::empty(), out, cache: Seq::empty() }
}

/// Behind a change of the module everything is evaluated anew: a call or a constant
/// gives what it gives to an interpreter that has just started, and adds the same
/// lines to the output, which stays.
pub proof fn law_a_changed_module_starts_afresh(
    m: TModule,
    fuel: nat,
    name: Text,
    args: Seq<VVal>,
    out: Seq<Text>,
)
    ensures
        semantics::call_func(m, fuel, name, args, afresh(out)).0 == semantics::call_func(
            m,
            fuel,
            name,
            args,
            afresh(Seq::empty()),
        ).0,
        semantics::call_func(m, fuel, name, args, afresh(out)).1 == behind(
            out,
            semantics::call_func(m, fuel, name, args, afresh(Seq::empty())).1,
        ),
        semantics::eval_const(m, fuel, name, afresh(out)).0 == semantics::eval_const(
            m,
            fuel,
            name,
            afresh(Seq::empty()),
        ).0,
        semantics::eval_const(m, fuel, name, afresh(out)).1 == behind(
            out,
            semantics::eval_const(m, fuel, name, afresh(Seq::empty())).1,
        ),
{
    law_calls_ignore_output(m, fuel, name, args, afresh(out));
    law_constants_ignore_output(m, fuel, name, afresh(out));
}

} // verus!
