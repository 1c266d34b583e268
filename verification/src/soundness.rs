//! Well-typed bodies evaluate safely: by induction over evaluation, every value has
//! the type that is written on its expression, and nothing traps but what is
//! defined to trap.

use crate::arith;
use crate::diagnostic::Diag;
use crate::ir::{BinOp, TArm, TBlock, TConst, TExpr, TFunc, TKind, TModule, TParam, TPlace, TStmt, TType, UnOp};
use crate::matching::{self, Shape};
use crate::name_map::{self, Table};
use crate::program;
use crate::purity;
use crate::scan::{self, Sought};
use crate::semantics::{self, Flow, Locals, Mem};
use crate::text::Text;
use crate::typing::{Defs, Var, Vars};
use crate::value::VVal;
use crate::welltyped;
use crate::wires;
use vstd::prelude::*;

verus! {

// ---- worlds -------------------------------------------------------------

/// Whether the body of a function is well-typed. A function without a declared
/// result may leave any value.
pub open spec fn func_ok(d: Defs, f: TFunc) -> bool {
    welltyped::block_ok(d, f.ret, program::param_vars(f.params), f.body) && (f.body.ty == f.ret
        || f.ret == TType::Unit)
}

pub open spec fn const_ok(d: Defs, c: TConst, t: TType) -> bool {
    c.ty == t && c.init.ty == t && welltyped::expr_ok(d, TType::Unit, Seq::empty(), c.init) && !scan::expr_has(
        c.init,
        Sought::Return,
    )
}

/// Whether the module has, well-typed, every function and every constant that `d`
/// knows.
pub open spec fn world_ok(m: TModule, d: Defs) -> bool {
    &&& forall|n: Text| #[trigger]
        name_map::find(d.funcs, n) is Some ==> (name_map::find(m.funcs, n) matches Some(f)
            && f.sig() == name_map::find(d.funcs, n)->Some_0 && func_ok(d, f))
    &&& forall|n: Text| #[trigger]
        name_map::find(d.consts, n) is Some ==> (name_map::find(m.consts, n) matches Some(c)
            && const_ok(d, c, name_map::find(d.consts, n)->Some_0))
}

/// Whether the constants evaluated so far have their types.
pub open spec fn cache_ok(d: Defs, cache: Table<VVal>) -> bool {
    name_map::sorted(cache) && forall|n: Text| #[trigger]
        name_map::find(cache, n) is Some ==> (name_map::find(d.consts, n) matches Some(t)
            && welltyped::has_type(d, name_map::find(cache, n)->Some_0, t))
}

// ---- outcomes -----------------------------------------------------------

/// Whether a diagnostic is one of the traps that the language defines: division or
/// remainder by zero, or an array index out of bounds.
pub open spec fn defined_trap(x: Diag) -> bool {
    ||| Flow::Error(x) == semantics::trap("division by zero"@)
    ||| Flow::Error(x) == semantics::trap("remainder by zero"@)
    ||| exists|i: int, n: nat|
        !(0 <= i < n) && Flow::Error(x) == #[trigger] semantics::out_of_bounds(i, n)
}

/// Whether an evaluation may end this way in a function that returns `ret`.
pub open spec fn exit_ok(d: Defs, ret: TType, f: Flow) -> bool {
    match f {
        Flow::Return(v) => welltyped::has_type(d, v, ret),
        Flow::Error(x) => defined_trap(x),
        Flow::Exhausted => true,
    }
}

pub open spec fn mem_ok(d: Defs, s: Mem, sh: Shape) -> bool {
    matching::typed_env(d, s.env, sh) && cache_ok(d, s.cache)
}

/// An evaluation to a value of the type `t` that keeps the shape of the variables.
pub open spec fn sound(d: Defs, ret: TType, sh: Shape, t: TType, r: (Result<VVal, Flow>, Mem)) -> bool {
    match r.0 {
        Ok(v) => welltyped::has_type(d, v, t) && mem_ok(d, r.1, sh),
        Err(f) => exit_ok(d, ret, f) && cache_ok(d, r.1.cache),
    }
}

/// An evaluation for effect that leaves variables of the shape `sh`.
pub open spec fn sound_step(d: Defs, ret: TType, sh: Shape, r: (Result<(), Flow>, Mem)) -> bool {
    match r.0 {
        Ok(_) => mem_ok(d, r.1, sh),
        Err(f) => exit_ok(d, ret, f) && cache_ok(d, r.1.cache),
    }
}

// ---- operators ----------------------------------------------------------

proof fn lemma_make_int(d: Defs, v: int, t: TType)
    requires
        t.is_integer(),
    ensures
        welltyped::has_type(d, semantics::make_int(v, t), t),
{
    match t {
        TType::Int(it) => {
            arith::law_norm_range(v, it);
            arith::lemma_two128();
        },
        TType::Bit(w) => arith::law_wrap_range(v, w),
        _ => {},
    }
}

proof fn lemma_unary(d: Defs, op: UnOp, v: VVal, t: TType)
    requires
        welltyped::has_type(d, v, t),
        welltyped::unary_ok(op, t),
    ensures
        semantics::unary(op, v) is Ok,
        welltyped::has_type(d, semantics::unary(op, v)->Ok_0, t),
{
    match v {
        VVal::Int(n, it) => {
            lemma_make_int(d, -(n as int), t);
            lemma_make_int(d, -(n as int) - 1, t);
        },
        VVal::Bit(n, w) => {
            lemma_make_int(d, -(n as int), t);
            lemma_make_int(d, -(n as int) - 1, t);
        },
        _ => {},
    }
}

#[verifier::rlimit(40)]
proof fn lemma_binary(d: Defs, op: BinOp, l: VVal, r: VVal, lt: TType, rt: TType, t: TType, ret: TType)
    requires
        welltyped::has_type(d, l, lt),
        welltyped::has_type(d, r, rt),
        welltyped::operator_ok(op, lt, rt, t),
        !op.logical(),
    ensures
        match semantics::binary(op, l, r) {
            Ok(v) => welltyped::has_type(d, v, t),
            Err(f) => exit_ok(d, ret, f),
        },
{
    if op.comparing() {
    } else if op is Shl || op is Shr {
        match l {
            VVal::Int(a, it) => {
                let x = arith::int_op(op, a, arith::signed128(semantics::int_of(r)) as i128, it)->Ok_0;
                lemma_make_int(d, x, t);
            },
            VVal::Bit(a, w) => {
                let b = (semantics::int_of(r) % arith::two128()) as u128;
                let x = arith::bit_op(op, a, b, w)->Ok_0;
                lemma_make_int(d, x, t);
            },
            _ => {},
        }
    } else {
        match (l, r) {
            (VVal::Int(a, it), VVal::Int(b, _)) => {
                if arith::int_op(op, a, b, it) is Ok {
                    lemma_make_int(d, arith::int_op(op, a, b, it)->Ok_0, t);
                }
            },
            (VVal::Bit(a, w), VVal::Bit(b, _)) => {
                if arith::bit_op(op, a, b, w) is Ok {
                    lemma_make_int(d, arith::bit_op(op, a, b, w)->Ok_0, t);
                }
            },
            _ => {},
        }
    }
}

// ---- parts of values ----------------------------------------------------

proof fn lemma_element(d: Defs, xs: Seq<VVal>, t: TType, n: u64, i: int, ret: TType)
    requires
        welltyped::has_type(d, VVal::Array(xs), TType::Array(Box::new(t), n)),
    ensures
        match semantics::element(xs, i) {
            Ok(v) => welltyped::has_type(d, v, t),
            Err(f) => exit_ok(d, ret, f),
        },
{
    if 0 <= i < xs.len() {
        matching::lemma_each_at(d, xs, t, 0, i);
    }
}

proof fn lemma_field(d: Defs, v: VVal, t: TType, index: usize)
    requires
        welltyped::has_type(d, v, t),
        t matches TType::Struct(name) && name_map::find(d.structs, name) matches Some(sd) && index
            < sd.fields.len(),
    ensures
        semantics::field_of(v, index) matches Ok(x) && welltyped::has_type(
            d,
            x,
            name_map::find(d.structs, t->Struct_0)->Some_0.fields[index as int].ty,
        ),
{
    let sd = name_map::find(d.structs, t->Struct_0)->Some_0;
    matching::lemma_all_at(d, v->Struct_1, welltyped::field_types(sd), 0, index as int);
}

proof fn lemma_part(d: Defs, v: VVal, t: TType, index: usize)
    requires
        welltyped::has_type(d, v, t),
        t matches TType::Tuple(ts) && index < ts.len(),
    ensures
        semantics::tuple_part(v, index) matches Ok(x) && welltyped::has_type(
            d,
            x,
            t->Tuple_0[index as int],
        ),
{
    matching::lemma_all_at(d, v->Tuple_0, t->Tuple_0, 0, index as int);
}

proof fn lemma_all_update(d: Defs, xs: Seq<VVal>, ts: Seq<TType>, i: int, v: VVal)
    requires
        xs.len() == ts.len(),
        welltyped::all_typed(d, xs, ts, 0),
        0 <= i < xs.len(),
        welltyped::has_type(d, v, ts[i]),
    ensures
        welltyped::all_typed(d, xs.update(i, v), ts, 0),
{
    let ys = xs.update(i, v);
    assert forall|k: int| 0 <= k < ys.len() implies welltyped::has_type(d, #[trigger] ys[k], ts[k]) by {
        if k != i {
            matching::lemma_all_at(d, xs, ts, 0, k);
        }
    }
    matching::lemma_all_of(d, ys, ts, 0);
}

proof fn lemma_with_field(d: Defs, cur: VVal, t: TType, index: usize, v: VVal)
    requires
        welltyped::has_type(d, cur, t),
        t matches TType::Struct(name) && name_map::find(d.structs, name) matches Some(sd) && index
            < sd.fields.len() && welltyped::has_type(d, v, sd.fields[index as int].ty),
    ensures
        semantics::with_field(cur, index, v) matches Ok(x) && welltyped::has_type(d, x, t),
{
    let sd = name_map::find(d.structs, t->Struct_0)->Some_0;
    lemma_all_update(d, cur->Struct_1, welltyped::field_types(sd), index as int, v);
}

proof fn lemma_with_part(d: Defs, cur: VVal, t: TType, index: usize, v: VVal)
    requires
        welltyped::has_type(d, cur, t),
        t matches TType::Tuple(ts) && index < ts.len() && welltyped::has_type(
            d,
            v,
            ts[index as int],
        ),
    ensures
        semantics::with_part(cur, index, v) matches Ok(x) && welltyped::has_type(d, x, t),
{
    lemma_all_update(d, cur->Tuple_0, t->Tuple_0, index as int, v);
}

proof fn lemma_with_element(d: Defs, cur: VVal, t: TType, i: int, v: VVal, ret: TType)
    requires
        welltyped::has_type(d, cur, t),
        t matches TType::Array(e, _) && welltyped::has_type(d, v, *e),
    ensures
        match semantics::with_element(cur, i, v) {
            Ok(x) => welltyped::has_type(d, x, t),
            Err(f) => exit_ok(d, ret, f),
        },
{
    let xs = cur->Array_0;
    let e = *t->Array_0;
    if 0 <= i < xs.len() {
        let ys = xs.update(i, v);
        assert forall|k: int| 0 <= k < ys.len() implies welltyped::has_type(d, #[trigger] ys[k], e) by {
            if k != i {
                matching::lemma_each_at(d, xs, e, 0, k);
            }
        }
        matching::lemma_each_of(d, ys, e, 0);
    }
}

// ---- variables ----------------------------------------------------------

proof fn lemma_read(d: Defs, vars: Vars, name: Text, env: Locals, sh: Shape)
    requires
        matching::typed_env(d, env, sh),
        matching::fitting(vars, sh),
        semantics::slot(vars, name) is Some,
    ensures
        semantics::slot(env, name) == semantics::slot(sh, name),
        semantics::slot(sh, name) matches Some(q) && 0 <= q < sh.len() && sh[q] == (
            name,
            vars[semantics::slot(vars, name)->Some_0].1.ty,
        ),
        semantics::read_local(name, env) matches Ok(v) && welltyped::has_type(
            d,
            v,
            vars[semantics::slot(vars, name)->Some_0].1.ty,
        ),
{
    wires::lemma_slot_same(env, sh, name, env.len() as int);
    matching::lemma_slot_in(env, name);
    matching::lemma_slot_in(sh, name);
    matching::lemma_slot_in(vars, name);
}

proof fn lemma_write(d: Defs, env: Locals, sh: Shape, q: int, name: Text, v: VVal)
    requires
        matching::typed_env(d, env, sh),
        0 <= q < sh.len(),
        sh[q].0 == name,
        welltyped::has_type(d, v, sh[q].1),
    ensures
        matching::typed_env(d, env.update(q, (name, v)), sh),
{
    let e = env.update(q, (name, v));
    assert forall|i: int| 0 <= i < e.len() implies (#[trigger] e[i]).0 == sh[i].0
        && welltyped::has_type(d, e[i].1, sh[i].1) by {
        if i != q {
            assert(e[i] == env[i]);
        }
    }
}

proof fn lemma_env_push(d: Defs, env: Locals, sh: Shape, name: Text, v: VVal, t: TType)
    requires
        matching::typed_env(d, env, sh),
        welltyped::has_type(d, v, t),
    ensures
        matching::typed_env(d, env.push((name, v)), sh.push((name, t))),
{
    let e = env.push((name, v));
    let s = sh.push((name, t));
    assert forall|i: int| 0 <= i < e.len() implies (#[trigger] e[i]).0 == s[i].0
        && welltyped::has_type(d, e[i].1, s[i].1) by {
        if i < env.len() {
            assert(e[i] == env[i]);
        }
    }
}

/// What is left of longer variables.
proof fn lemma_cut(d: Defs, env: Locals, long: Shape, sh: Shape)
    requires
        matching::typed_env(d, env, long),
        sh.len() <= long.len(),
        forall|i: int| 0 <= i < sh.len() ==> #[trigger] long[i] == sh[i],
    ensures
        matching::typed_env(d, semantics::cut(env, sh.len() as int), sh),
{
    let e = semantics::cut(env, sh.len() as int);
    assert forall|i: int| 0 <= i < e.len() implies (#[trigger] e[i]).0 == sh[i].0
        && welltyped::has_type(d, e[i].1, sh[i].1) by {
        assert(e[i] == env[i]);
        assert(long[i] == sh[i]);
    }
}

/// The shape behind a statement.
pub open spec fn shape_behind(sh: Shape, st: TStmt) -> Shape {
    match st {
        TStmt::Let { name, mutable, ty, init } => sh.push((name, init.ty)),
        _ => sh,
    }
}

/// The shape behind the statements from position `i` on.
pub open spec fn shape_after(sh: Shape, sts: Seq<TStmt>, i: int) -> Shape
    decreases sts.len() - i,
{
    if i < 0 || i >= sts.len() {
        sh
    } else {
        shape_after(shape_behind(sh, sts[i]), sts, i + 1)
    }
}

proof fn lemma_shape_after(vars: Vars, sh: Shape, sts: Seq<TStmt>, i: int)
    requires
        0 <= i,
        matching::fitting(vars, sh),
    ensures
        matching::fitting(welltyped::vars_after(vars, sts, i), shape_after(sh, sts, i)),
        sh.len() <= shape_after(sh, sts, i).len(),
        forall|k: int| 0 <= k < sh.len() ==> #[trigger] shape_after(sh, sts, i)[k] == sh[k],
    decreases sts.len() - i,
{
    if i < sts.len() {
        lemma_fitting_behind(vars, sh, sts[i]);
        let next = shape_behind(sh, sts[i]);
        lemma_shape_after(welltyped::vars_behind(vars, sts[i]), next, sts, i + 1);
        assert forall|k: int| 0 <= k < sh.len() implies #[trigger] shape_after(sh, sts, i)[k]
            == sh[k] by {
            assert(shape_after(next, sts, i + 1)[k] == next[k]);
        }
    }
}

proof fn lemma_fitting_behind(vars: Vars, sh: Shape, st: TStmt)
    requires
        matching::fitting(vars, sh),
    ensures
        matching::fitting(welltyped::vars_behind(vars, st), shape_behind(sh, st)),
{
    match st {
        TStmt::Let { name, mutable, ty, init } => {
            matching::lemma_fitting_push(vars, sh, name, Var { ty: init.ty, mutable });
        },
        _ => {},
    }
}

// ---- lists --------------------------------------------------------------

pub open spec fn each_ok(d: Defs, ret: TType, vars: Vars, es: Seq<TExpr>, i: int) -> bool {
    forall|k: int| i <= k < es.len() ==> welltyped::expr_ok(d, ret, vars, #[trigger] es[k])
}

proof fn lemma_exprs_ok(d: Defs, ret: TType, vars: Vars, es: Seq<TExpr>, ts: Seq<TType>, i: int)
    requires
        0 <= i,
        welltyped::exprs_ok(d, ret, vars, es, ts, i),
    ensures
        each_ok(d, ret, vars, es, i),
        forall|k: int| i <= k < es.len() ==> k < ts.len() && (#[trigger] es[k]).ty == ts[k],
    decreases es.len() - i,
{
    if i < es.len() {
        lemma_exprs_ok(d, ret, vars, es, ts, i + 1);
    }
}

proof fn lemma_elements_ok(d: Defs, ret: TType, vars: Vars, es: Seq<TExpr>, t: TType, i: int)
    requires
        0 <= i,
        welltyped::elements_ok(d, ret, vars, es, t, i),
    ensures
        each_ok(d, ret, vars, es, i),
        forall|k: int| i <= k < es.len() ==> (#[trigger] es[k]).ty == t,
    decreases es.len() - i,
{
    if i < es.len() {
        lemma_elements_ok(d, ret, vars, es, t, i + 1);
    }
}

proof fn lemma_arm_at(
    d: Defs,
    ret: TType,
    vars: Vars,
    arms: Seq<TArm>,
    sty: TType,
    ty: TType,
    i: int,
    k: int,
)
    requires
        0 <= i <= k < arms.len(),
        welltyped::arms_ok(d, ret, vars, arms, sty, ty, i),
    ensures
        welltyped::arm_ok(d, ret, vars, arms[k], sty, ty),
    decreases k - i,
{
    if i < k {
        lemma_arm_at(d, ret, vars, arms, sty, ty, i + 1, k);
    }
}

/// What evaluating a list gives.
pub open spec fn sound_list(
    d: Defs,
    ret: TType,
    sh: Shape,
    es: Seq<TExpr>,
    i: int,
    acc: Seq<VVal>,
    r: (Result<Seq<VVal>, Flow>, Mem),
) -> bool {
    match r.0 {
        Ok(vs) => {
            &&& mem_ok(d, r.1, sh)
            &&& vs.len() == acc.len() + es.len() - i
            &&& forall|k: int| 0 <= k < acc.len() ==> #[trigger] vs[k] == acc[k]
            &&& forall|k: int|
                i <= k < es.len() ==> welltyped::has_type(
                    d,
                    vs[acc.len() + k - i],
                    (#[trigger] es[k]).ty,
                )
        },
        Err(f) => exit_ok(d, ret, f) && cache_ok(d, r.1.cache),
    }
}

// ---- the induction ------------------------------------------------------

/// Where an induction step starts.
pub open spec fn poised(m: TModule, d: Defs, vars: Vars, sh: Shape, s: Mem) -> bool {
    world_ok(m, d) && mem_ok(d, s, sh) && matching::fitting(vars, sh)
}

#[verifier::rlimit(60)]
proof fn safe_expr(m: TModule, d: Defs, ret: TType, vars: Vars, sh: Shape, fuel: nat, e: TExpr, s: Mem)
    requires
        poised(m, d, vars, sh, s),
        welltyped::expr_ok(d, ret, vars, e),
    ensures
        sound(d, ret, sh, e.ty, semantics::eval_expr(m, fuel, e, s)),
    decreases fuel, 0int, 0int,
{
    if fuel > 0 {
        let f = (fuel - 1) as nat;
        match e.kind {
            TKind::Int(v) => lemma_make_int(d, v as int, e.ty),
            TKind::Local(name) => lemma_read(d, vars, name, s.env, sh),
            TKind::ConstRef(name) => safe_const(m, d, ret, sh, f, name, s),
            TKind::Unary { op, expr } => {
                safe_expr(m, d, ret, vars, sh, f, *expr, s);
                match semantics::eval_expr(m, f, *expr, s) {
                    (Ok(v), _) => lemma_unary(d, op, v, e.ty),
                    _ => {},
                }
            },
            TKind::Binary { op, lhs, rhs } => {
                safe_expr(m, d, ret, vars, sh, f, *lhs, s);
                match semantics::eval_expr(m, f, *lhs, s) {
                    (Ok(l), s1) => {
                        safe_expr(m, d, ret, vars, sh, f, *rhs, s1);
                        match semantics::eval_expr(m, f, *rhs, s1) {
                            (Ok(r), _) => if !op.logical() {
                                lemma_binary(d, op, l, r, lhs.ty, rhs.ty, e.ty, ret);
                            },
                            _ => {},
                        }
                    },
                    _ => {},
                }
            },
            TKind::Print { arg } => safe_expr(m, d, ret, vars, sh, f, *arg, s),
            TKind::Field { base, index } => {
                safe_expr(m, d, ret, vars, sh, f, *base, s);
                match semantics::eval_expr(m, f, *base, s) {
                    (Ok(v), _) => lemma_field(d, v, base.ty, index),
                    _ => {},
                }
            },
            TKind::TupleField { base, index } => {
                safe_expr(m, d, ret, vars, sh, f, *base, s);
                match semantics::eval_expr(m, f, *base, s) {
                    (Ok(v), _) => lemma_part(d, v, base.ty, index),
                    _ => {},
                }
            },
            TKind::Index { base, index } => {
                safe_expr(m, d, ret, vars, sh, f, *base, s);
                match semantics::eval_expr(m, f, *base, s) {
                    (Ok(v), s1) => {
                        safe_expr(m, d, ret, vars, sh, f, *index, s1);
                        match semantics::eval_expr(m, f, *index, s1) {
                            (Ok(i), _) => {
                                lemma_element(
                                    d,
                                    v->Array_0,
                                    *base.ty->Array_0,
                                    base.ty->Array_1,
                                    semantics::int_of(i),
                                    ret,
                                );
                            },
                            _ => {},
                        }
                    },
                    _ => {},
                }
            },
            TKind::If { cond, then_branch, else_branch } => {
                safe_expr(m, d, ret, vars, sh, f, *cond, s);
                match semantics::eval_expr(m, f, *cond, s) {
                    (Ok(_), s1) => {
                        safe_block(m, d, ret, vars, sh, f, then_branch, s1);
                        safe_block(m, d, ret, vars, sh, f, else_branch, s1);
                    },
                    _ => {},
                }
            },
            TKind::Match { scrutinee, arms } => {
                safe_expr(m, d, ret, vars, sh, f, *scrutinee, s);
                match semantics::eval_expr(m, f, *scrutinee, s) {
                    (Ok(v), s1) => {
                        assert forall|k: int| 0 <= k < arms.len() implies welltyped::pattern_ok(
                            d,
                            (#[trigger] arms[k]).pattern,
                            scrutinee.ty,
                        ) by {
                            lemma_arm_at(d, ret, vars, arms, scrutinee.ty, e.ty, 0, k);
                            assert(welltyped::arm_ok(d, ret, vars, arms[k], scrutinee.ty, e.ty));
                        }
                        let k = matching::law_covered_match_is_total(d, scrutinee.ty, arms, v);
                        safe_arms(m, d, ret, vars, sh, f, arms, 0, k, scrutinee.ty, e.ty, v, s1);
                    },
                    _ => {},
                }
            },
            TKind::Block(b) => safe_block(m, d, ret, vars, sh, f, b, s),
            _ => safe_made(m, d, ret, vars, sh, fuel, e, s),
        }
    }
}

/// Constructs that evaluate a list of parts.
#[verifier::rlimit(60)]
proof fn safe_made(m: TModule, d: Defs, ret: TType, vars: Vars, sh: Shape, fuel: nat, e: TExpr, s: Mem)
    requires
        fuel > 0,
        poised(m, d, vars, sh, s),
        welltyped::expr_ok(d, ret, vars, e),
        e.kind is Bool || e.kind is Unit || e.kind is Call || e.kind is MakeStruct || e.kind is MakeEnum
            || e.kind is MakeTuple || e.kind is Array,
    ensures
        sound(d, ret, sh, e.ty, semantics::eval_expr(m, fuel, e, s)),
    decreases fuel - 1, 9int, 0int,
{
    let f = (fuel - 1) as nat;
    match e.kind {
        TKind::Call { func, args } => {
            let sig = name_map::find(d.funcs, func)->Some_0;
            lemma_exprs_ok(d, ret, vars, args, sig.params, 0);
            safe_args(m, d, ret, vars, sh, f, args, 0, Seq::empty(), s);
            match semantics::eval_args(m, f, args, 0, Seq::empty(), s) {
                (Ok(vs), s1) => {
                    assert forall|k: int| 0 <= k < vs.len() implies welltyped::has_type(
                        d,
                        #[trigger] vs[k],
                        sig.params[k],
                    ) by {
                        assert(welltyped::has_type(d, vs[k], args[k].ty));
                    }
                    safe_call(m, d, f, func, vs, s1);
                },
                _ => {},
            }
        },
        TKind::MakeStruct { name, fields } => {
            let sd = name_map::find(d.structs, name)->Some_0;
            let ts = welltyped::field_types(sd);
            lemma_exprs_ok(d, ret, vars, fields, ts, 0);
            safe_args(m, d, ret, vars, sh, f, fields, 0, Seq::empty(), s);
            match semantics::eval_args(m, f, fields, 0, Seq::empty(), s) {
                (Ok(vs), s1) => {
                    assert forall|k: int| 0 <= k < vs.len() implies welltyped::has_type(
                        d,
                        #[trigger] vs[k],
                        ts[k],
                    ) by {
                        assert(welltyped::has_type(d, vs[k], fields[k].ty));
                    }
                    matching::lemma_all_of(d, vs, ts, 0);
                },
                _ => {},
            }
        },
        TKind::MakeEnum { name, tag, args } => {
            let ts = name_map::find(d.enums, name)->Some_0.variants[tag as int].fields;
            lemma_exprs_ok(d, ret, vars, args, ts, 0);
            safe_args(m, d, ret, vars, sh, f, args, 0, Seq::empty(), s);
            match semantics::eval_args(m, f, args, 0, Seq::empty(), s) {
                (Ok(vs), s1) => {
                    assert forall|k: int| 0 <= k < vs.len() implies welltyped::has_type(
                        d,
                        #[trigger] vs[k],
                        ts[k],
                    ) by {
                        assert(welltyped::has_type(d, vs[k], args[k].ty));
                    }
                    matching::lemma_all_of(d, vs, ts, 0);
                },
                _ => {},
            }
        },
        TKind::MakeTuple(es) => {
            let ts = e.ty->Tuple_0;
            lemma_exprs_ok(d, ret, vars, es, ts, 0);
            safe_args(m, d, ret, vars, sh, f, es, 0, Seq::empty(), s);
            match semantics::eval_args(m, f, es, 0, Seq::empty(), s) {
                (Ok(vs), s1) => {
                    assert forall|k: int| 0 <= k < vs.len() implies welltyped::has_type(
                        d,
                        #[trigger] vs[k],
                        ts[k],
                    ) by {
                        assert(welltyped::has_type(d, vs[k], es[k].ty));
                    }
                    matching::lemma_all_of(d, vs, ts, 0);
                },
                _ => {},
            }
        },
        TKind::Array(es) => {
            let t = *e.ty->Array_0;
            lemma_elements_ok(d, ret, vars, es, t, 0);
            safe_args(m, d, ret, vars, sh, f, es, 0, Seq::empty(), s);
            match semantics::eval_args(m, f, es, 0, Seq::empty(), s) {
                (Ok(vs), s1) => {
                    assert forall|k: int| 0 <= k < vs.len() implies welltyped::has_type(
                        d,
                        #[trigger] vs[k],
                        t,
                    ) by {
                        assert(welltyped::has_type(d, vs[k], es[k].ty));
                    }
                    matching::lemma_each_of(d, vs, t, 0);
                },
                _ => {},
            }
        },
        _ => {},
    }
}

pub proof fn safe_const(m: TModule, d: Defs, ret: TType, sh: Shape, fuel: nat, name: Text, s: Mem)
    requires
        world_ok(m, d),
        mem_ok(d, s, sh),
        name_map::find(d.consts, name) is Some,
    ensures
        sound(
            d,
            ret,
            sh,
            name_map::find(d.consts, name)->Some_0,
            semantics::eval_const(m, fuel, name, s),
        ),
    decreases fuel, 1int, 0int,
{
    let t = name_map::find(d.consts, name)->Some_0;
    if name_map::find(s.cache, name) is None {
        let c = name_map::find(m.consts, name)->Some_0;
        let none: Vars = Seq::empty();
        let bare: Shape = Seq::empty();
        let inner = semantics::with_env(s, Seq::empty());
        safe_expr(m, d, TType::Unit, none, bare, fuel, c.init, inner);
        name_map::lemma_find_some(m.consts, name, 0);
        purity::law_quiet_expression(m, fuel, c.init, inner);
        match semantics::returned(semantics::eval_expr(m, fuel, c.init, inner)) {
            (Ok(v), s1) => {
                name_map::law_put_keeps_sorted(s1.cache, name, v);
                let next = name_map::put(s1.cache, name, v);
                assert forall|n: Text| #[trigger]
                    name_map::find(next, n) is Some implies (name_map::find(d.consts, n) matches Some(
                    x,
                ) && welltyped::has_type(d, name_map::find(next, n)->Some_0, x)) by {
                    name_map::law_put_then_find(s1.cache, name, v, n);
                    if n != name {
                        assert(name_map::find(s1.cache, n) is Some);
                    }
                }
            },
            _ => {},
        }
    }
}

proof fn safe_args(
    m: TModule,
    d: Defs,
    ret: TType,
    vars: Vars,
    sh: Shape,
    fuel: nat,
    es: Seq<TExpr>,
    i: int,
    acc: Seq<VVal>,
    s: Mem,
)
    requires
        0 <= i <= es.len(),
        poised(m, d, vars, sh, s),
        each_ok(d, ret, vars, es, i),
    ensures
        sound_list(d, ret, sh, es, i, acc, semantics::eval_args(m, fuel, es, i, acc, s)),
    decreases fuel, 1int, es.len() - i,
{
    if i < es.len() {
        safe_expr(m, d, ret, vars, sh, fuel, es[i], s);
        match semantics::eval_expr(m, fuel, es[i], s) {
            (Ok(v), s1) => {
                let next = acc.push(v);
                safe_args(m, d, ret, vars, sh, fuel, es, i + 1, next, s1);
                match semantics::eval_args(m, fuel, es, i + 1, next, s1) {
                    (Ok(vs), _) => {
                        assert forall|k: int| 0 <= k < acc.len() implies #[trigger] vs[k]
                            == acc[k] by {
                            assert(vs[k] == next[k]);
                        }
                        assert(vs[acc.len() as int] == next[acc.len() as int]);
                    },
                    _ => {},
                }
            },
            _ => {},
        }
    }
}

#[verifier::rlimit(40)]
proof fn safe_arms(
    m: TModule,
    d: Defs,
    ret: TType,
    vars: Vars,
    sh: Shape,
    fuel: nat,
    arms: Seq<TArm>,
    i: int,
    k: int,
    sty: TType,
    ty: TType,
    v: VVal,
    s: Mem,
)
    requires
        0 <= i <= k < arms.len(),
        poised(m, d, vars, sh, s),
        welltyped::arms_ok(d, ret, vars, arms, sty, ty, i),
        welltyped::has_type(d, v, sty),
        matching::takes(arms, k, v),
    ensures
        sound(d, ret, sh, ty, semantics::eval_arms(m, fuel, arms, i, v, s)),
    decreases fuel, 1int, arms.len() - i,
{
    let a = arms[i];
    assert(welltyped::arm_ok(d, ret, vars, a, sty, ty));
    match semantics::matched(a.pattern, v) {
        None => safe_arms(m, d, ret, vars, sh, fuel, arms, i + 1, k, sty, ty, v, s),
        Some(b) => {
            let n = s.env.len() as int;
            let inner = semantics::with_env(s, s.env + b);
            let sb = matching::lemma_matched(d, a.pattern, sty, v);
            let pv = welltyped::pattern_vars(a.pattern);
            matching::lemma_typed_add(d, s.env, sh, b, sb);
            matching::lemma_fitting_add(vars, sh, pv, sb);
            let vars1 = vars + pv;
            let sh1 = sh + sb;
            assert forall|j: int| 0 <= j < sh.len() implies #[trigger] sh1[j] == sh[j] by {}
            match a.guard {
                None => {
                    safe_expr(m, d, ret, vars1, sh1, fuel, a.body, inner);
                    let (r, s1) = semantics::eval_expr(m, fuel, a.body, inner);
                    if r is Ok {
                        lemma_cut(d, s1.env, sh1, sh);
                    }
                },
                Some(g) => {
                    safe_expr(m, d, ret, vars1, sh1, fuel, g, inner);
                    match semantics::eval_expr(m, fuel, g, inner) {
                        (Err(_), _) => {},
                        (Ok(c), s1) => {
                            lemma_cut(d, s1.env, sh1, sh);
                            if c == VVal::Bool(true) {
                                safe_expr(m, d, ret, vars1, sh1, fuel, a.body, s1);
                                let (r, s2) = semantics::eval_expr(m, fuel, a.body, s1);
                                if r is Ok {
                                    lemma_cut(d, s2.env, sh1, sh);
                                }
                            } else {
                                safe_arms(
                                    m,
                                    d,
                                    ret,
                                    vars,
                                    sh,
                                    fuel,
                                    arms,
                                    i + 1,
                                    k,
                                    sty,
                                    ty,
                                    v,
                                    semantics::with_env(s1, semantics::cut(s1.env, n)),
                                );
                            }
                        },
                    }
                },
            }
        },
    }
}

proof fn safe_load(m: TModule, d: Defs, ret: TType, vars: Vars, sh: Shape, fuel: nat, p: TPlace, s: Mem)
    requires
        poised(m, d, vars, sh, s),
        welltyped::place_ok(d, ret, vars, p),
    ensures
        sound(d, ret, sh, p.ty(), semantics::load(m, fuel, p, s)),
    decreases fuel, 1int, semantics::place_depth(p) as int,
{
    match p {
        TPlace::Local { name, ty } => lemma_read(d, vars, name, s.env, sh),
        TPlace::Field { base, index, ty } => {
            safe_load(m, d, ret, vars, sh, fuel, *base, s);
            match semantics::load(m, fuel, *base, s) {
                (Ok(v), _) => lemma_field(d, v, base.ty(), index),
                _ => {},
            }
        },
        TPlace::TupleField { base, index, ty } => {
            safe_load(m, d, ret, vars, sh, fuel, *base, s);
            match semantics::load(m, fuel, *base, s) {
                (Ok(v), _) => lemma_part(d, v, base.ty(), index),
                _ => {},
            }
        },
        TPlace::Index { base, index, ty } => {
            safe_expr(m, d, ret, vars, sh, fuel, *index, s);
            match semantics::eval_expr(m, fuel, *index, s) {
                (Ok(i), s1) => {
                    safe_load(m, d, ret, vars, sh, fuel, *base, s1);
                    match semantics::load(m, fuel, *base, s1) {
                        (Ok(v), _) => lemma_element(
                            d,
                            v->Array_0,
                            *base.ty()->Array_0,
                            base.ty()->Array_1,
                            semantics::int_of(i),
                            ret,
                        ),
                        _ => {},
                    }
                },
                _ => {},
            }
        },
    }
}

#[verifier::rlimit(40)]
proof fn safe_store(
    m: TModule,
    d: Defs,
    ret: TType,
    vars: Vars,
    sh: Shape,
    fuel: nat,
    p: TPlace,
    v: VVal,
    s: Mem,
)
    requires
        poised(m, d, vars, sh, s),
        welltyped::place_ok(d, ret, vars, p),
        welltyped::has_type(d, v, p.ty()),
    ensures
        sound_step(d, ret, sh, semantics::store(m, fuel, p, v, s)),
    decreases fuel, 2int, semantics::place_depth(p) as int,
{
    match p {
        TPlace::Local { name, ty } => {
            lemma_read(d, vars, name, s.env, sh);
            lemma_write(d, s.env, sh, semantics::slot(sh, name)->Some_0, name, v);
        },
        TPlace::Field { base, index, ty } => {
            safe_load(m, d, ret, vars, sh, fuel, *base, s);
            match semantics::load(m, fuel, *base, s) {
                (Ok(cur), s1) => {
                    lemma_with_field(d, cur, base.ty(), index, v);
                    let next = semantics::with_field(cur, index, v)->Ok_0;
                    safe_store(m, d, ret, vars, sh, fuel, *base, next, s1);
                },
                _ => {},
            }
        },
        TPlace::TupleField { base, index, ty } => {
            safe_load(m, d, ret, vars, sh, fuel, *base, s);
            match semantics::load(m, fuel, *base, s) {
                (Ok(cur), s1) => {
                    lemma_with_part(d, cur, base.ty(), index, v);
                    let next = semantics::with_part(cur, index, v)->Ok_0;
                    safe_store(m, d, ret, vars, sh, fuel, *base, next, s1);
                },
                _ => {},
            }
        },
        TPlace::Index { base, index, ty } => {
            safe_expr(m, d, ret, vars, sh, fuel, *index, s);
            match semantics::eval_expr(m, fuel, *index, s) {
                (Ok(i), s1) => {
                    safe_load(m, d, ret, vars, sh, fuel, *base, s1);
                    match semantics::load(m, fuel, *base, s1) {
                        (Ok(cur), s2) => {
                            let at = semantics::int_of(i);
                            lemma_with_element(d, cur, base.ty(), at, v, ret);
                            match semantics::with_element(cur, at, v) {
                                Ok(next) => safe_store(
                                    m,
                                    d,
                                    ret,
                                    vars,
                                    sh,
                                    fuel,
                                    *base,
                                    next,
                                    s2,
                                ),
                                Err(_) => {},
                            }
                        },
                        _ => {},
                    }
                },
                _ => {},
            }
        },
    }
}

proof fn safe_while(
    m: TModule,
    d: Defs,
    ret: TType,
    vars: Vars,
    sh: Shape,
    fuel: nat,
    cond: TExpr,
    body: TBlock,
    s: Mem,
)
    requires
        poised(m, d, vars, sh, s),
        welltyped::expr_ok(d, ret, vars, cond),
        welltyped::block_ok(d, ret, vars, body),
    ensures
        sound_step(d, ret, sh, semantics::eval_while(m, fuel, cond, body, s)),
    decreases fuel, 6int, 0int,
{
    if fuel > 0 {
        let f = (fuel - 1) as nat;
        safe_expr(m, d, ret, vars, sh, f, cond, s);
        match semantics::eval_expr(m, f, cond, s) {
            (Ok(c), s1) => if c == VVal::Bool(true) {
                safe_block(m, d, ret, vars, sh, f, body, s1);
                match semantics::eval_block(m, f, body, s1) {
                    (Ok(_), s2) => safe_while(m, d, ret, vars, sh, f, cond, body, s2),
                    _ => {},
                }
            },
            _ => {},
        }
    }
}

proof fn safe_for(
    m: TModule,
    d: Defs,
    ret: TType,
    vars: Vars,
    sh: Shape,
    fuel: nat,
    var: Text,
    ty: TType,
    i: int,
    hi: int,
    body: TBlock,
    s: Mem,
)
    requires
        poised(m, d, vars, sh, s),
        ty.is_integer(),
        welltyped::block_ok(d, ret, vars.push((var, Var { ty, mutable: false })), body),
    ensures
        sound_step(d, ret, sh, semantics::eval_for(m, fuel, var, ty, i, hi, body, s)),
    decreases fuel, 6int, hi - i,
{
    if i < hi {
        let n = s.env.len() as int;
        let v = semantics::make_int(i, ty);
        let inner = semantics::with_env(s, s.env.push((var, v)));
        let sh1 = sh.push((var, ty));
        lemma_make_int(d, i, ty);
        lemma_env_push(d, s.env, sh, var, v, ty);
        matching::lemma_fitting_push(vars, sh, var, Var { ty, mutable: false });
        safe_block(
            m,
            d,
            ret,
            vars.push((var, Var { ty, mutable: false })),
            sh1,
            fuel,
            body,
            inner,
        );
        match semantics::eval_block(m, fuel, body, inner) {
            (Ok(_), s1) => {
                lemma_cut(d, s1.env, sh1, sh);
                safe_for(
                    m,
                    d,
                    ret,
                    vars,
                    sh,
                    fuel,
                    var,
                    ty,
                    i + 1,
                    hi,
                    body,
                    semantics::with_env(s1, semantics::cut(s1.env, n)),
                );
            },
            _ => {},
        }
    }
}

#[verifier::rlimit(40)]
proof fn safe_stmt(m: TModule, d: Defs, ret: TType, vars: Vars, sh: Shape, fuel: nat, st: TStmt, s: Mem)
    requires
        poised(m, d, vars, sh, s),
        welltyped::stmt_ok(d, ret, vars, st),
    ensures
        sound_step(d, ret, shape_behind(sh, st), semantics::eval_stmt(m, fuel, st, s)),
    decreases fuel, 3int, 0int,
{
    match st {
        TStmt::Let { name, mutable, ty, init } => {
            safe_expr(m, d, ret, vars, sh, fuel, init, s);
            match semantics::eval_expr(m, fuel, init, s) {
                (Ok(v), s1) => lemma_env_push(d, s1.env, sh, name, v, init.ty),
                _ => {},
            }
        },
        TStmt::Assign { place, value } => {
            safe_expr(m, d, ret, vars, sh, fuel, value, s);
            match semantics::eval_expr(m, fuel, value, s) {
                (Ok(v), s1) => safe_store(m, d, ret, vars, sh, fuel, place, v, s1),
                _ => {},
            }
        },
        TStmt::While { cond, body } => {
            if fuel > 0 {
                safe_while(m, d, ret, vars, sh, (fuel - 1) as nat, cond, body, s);
            }
        },
        TStmt::For { var, ty, lo, hi, body } => {
            safe_expr(m, d, ret, vars, sh, fuel, lo, s);
            match semantics::eval_expr(m, fuel, lo, s) {
                (Ok(a), s1) => {
                    safe_expr(m, d, ret, vars, sh, fuel, hi, s1);
                    match semantics::eval_expr(m, fuel, hi, s1) {
                        (Ok(b), s2) => if fuel > 0 {
                            safe_for(
                                m,
                                d,
                                ret,
                                vars,
                                sh,
                                (fuel - 1) as nat,
                                var,
                                ty,
                                semantics::int_of(a),
                                semantics::int_of(b),
                                body,
                                s2,
                            );
                        },
                        _ => {},
                    }
                },
                _ => {},
            }
        },
        TStmt::Return { value } => match value {
            Some(e) => safe_expr(m, d, ret, vars, sh, fuel, e, s),
            None => {},
        },
        TStmt::Expr(e) => safe_expr(m, d, ret, vars, sh, fuel, e, s),
    }
}

proof fn safe_stmts(
    m: TModule,
    d: Defs,
    ret: TType,
    vars: Vars,
    sh: Shape,
    fuel: nat,
    sts: Seq<TStmt>,
    i: int,
    s: Mem,
)
    requires
        0 <= i,
        poised(m, d, vars, sh, s),
        welltyped::stmts_ok(d, ret, vars, sts, i),
    ensures
        sound_step(d, ret, shape_after(sh, sts, i), semantics::eval_stmts(m, fuel, sts, i, s)),
    decreases fuel, 4int, sts.len() - i,
{
    if i < sts.len() {
        safe_stmt(m, d, ret, vars, sh, fuel, sts[i], s);
        lemma_fitting_behind(vars, sh, sts[i]);
        match semantics::eval_stmt(m, fuel, sts[i], s) {
            (Ok(_), s1) => safe_stmts(
                m,
                d,
                ret,
                welltyped::vars_behind(vars, sts[i]),
                shape_behind(sh, sts[i]),
                fuel,
                sts,
                i + 1,
                s1,
            ),
            _ => {},
        }
    }
}

proof fn safe_block(m: TModule, d: Defs, ret: TType, vars: Vars, sh: Shape, fuel: nat, b: TBlock, s: Mem)
    requires
        poised(m, d, vars, sh, s),
        welltyped::block_ok(d, ret, vars, b),
    ensures
        sound(d, ret, sh, b.ty, semantics::eval_block(m, fuel, b, s)),
    decreases fuel, 5int, 0int,
{
    let vars1 = welltyped::vars_after(vars, b.stmts, 0);
    let sh1 = shape_after(sh, b.stmts, 0);
    safe_stmts(m, d, ret, vars, sh, fuel, b.stmts, 0, s);
    lemma_shape_after(vars, sh, b.stmts, 0);
    match semantics::eval_stmts(m, fuel, b.stmts, 0, s) {
        (Ok(_), s1) => {
            lemma_cut(d, s1.env, sh1, sh);
            match b.tail {
                Some(e) => {
                    safe_expr(m, d, ret, vars1, sh1, fuel, *e, s1);
                    let (r, s2) = semantics::eval_expr(m, fuel, *e, s1);
                    if r is Ok {
                        lemma_cut(d, s2.env, sh1, sh);
                    }
                },
                None => {},
            }
        },
        _ => {},
    }
}

/// The shape of the variables that parameters are.
pub open spec fn param_shape(ps: Seq<TParam>) -> Shape {
    Seq::new(ps.len(), |i: int| (ps[i].name, ps[i].ty))
}

proof fn lemma_param_slots(ps: Seq<TParam>, n: Text, i: int)
    requires
        0 <= i <= ps.len(),
    ensures
        semantics::slot_before(program::param_vars(ps), n, i) == semantics::slot_before(
            param_shape(ps),
            n,
            i,
        ),
    decreases i,
{
    if i > 0 {
        lemma_param_slots(ps, n, i - 1);
    }
}

proof fn lemma_params(d: Defs, ps: Seq<TParam>, args: Seq<VVal>)
    requires
        args.len() == ps.len(),
        forall|k: int| 0 <= k < ps.len() ==> welltyped::has_type(d, args[k], (#[trigger] ps[k]).ty),
    ensures
        matching::typed_env(d, semantics::bind_params(ps, args), param_shape(ps)),
        matching::fitting(program::param_vars(ps), param_shape(ps)),
{
    let env = semantics::bind_params(ps, args);
    let sh = param_shape(ps);
    assert forall|i: int| 0 <= i < env.len() implies (#[trigger] env[i]).0 == sh[i].0
        && welltyped::has_type(d, env[i].1, sh[i].1) by {
        assert(welltyped::has_type(d, args[i], ps[i].ty));
    }
    let vars = program::param_vars(ps);
    assert forall|n: Text| #[trigger] semantics::slot(vars, n) is Some implies semantics::slot(sh, n) is Some
        && sh[semantics::slot(sh, n)->Some_0].1 == vars[semantics::slot(vars, n)->Some_0].1.ty by {
        lemma_param_slots(ps, n, ps.len() as int);
        matching::lemma_slot_in(vars, n);
    }
}

pub proof fn safe_call(m: TModule, d: Defs, fuel: nat, name: Text, args: Seq<VVal>, s: Mem)
    requires
        world_ok(m, d),
        cache_ok(d, s.cache),
        name_map::find(d.funcs, name) matches Some(sig) && args.len() == sig.params.len()
            && forall|k: int|
            0 <= k < args.len() ==> welltyped::has_type(d, #[trigger] args[k], sig.params[k]),
    ensures
        ({
            let ret = name_map::find(d.funcs, name)->Some_0.ret;
            let (r, s1) = semantics::call_func(m, fuel, name, args, s);
            &&& match r {
                Ok(v) => welltyped::has_type(d, v, ret),
                Err(f) => !(f is Return) && exit_ok(d, ret, f),
            }
            &&& cache_ok(d, s1.cache)
            &&& s1.env == s.env
        }),
    decreases fuel, 6int, 0int,
{
    let sig = name_map::find(d.funcs, name)->Some_0;
    let f = name_map::find(m.funcs, name)->Some_0;
    assert forall|k: int| 0 <= k < f.params.len() implies welltyped::has_type(
        d,
        args[k],
        (#[trigger] f.params[k]).ty,
    ) by {
        assert(sig.params[k] == f.params[k].ty);
        assert(welltyped::has_type(d, args[k], sig.params[k]));
    }
    lemma_params(d, f.params, args);
    let inner = semantics::with_env(s, semantics::bind_params(f.params, args));
    safe_block(
        m,
        d,
        f.ret,
        program::param_vars(f.params),
        param_shape(f.params),
        fuel,
        f.body,
        inner,
    );
    if let Ok(v) = semantics::eval_block(m, fuel, f.body, inner).0 {
        welltyped::lemma_ranged(d, v, f.body.ty);
    }
}

} // verus!
