//! What a typed program means: evaluation of the core IR as a function.
//!
//! Evaluation is a function of the module, the expression and the memory (the
//! local variables, the printed lines and the constants evaluated so far). It
//! takes an allowance that bounds nesting and loop iterations; where the
//! allowance suffices the result does not depend on it
//! (`allowance`).

use crate::arith;
use crate::diagnostic::{Diag, Stage};
use crate::ir::{BinOp, IntTy, TArm, TBlock, TExpr, TKind, TModule, TParam, TPattern, TPlace, TStmt, TType, UnOp};
use crate::name_map::{self, Table};
use crate::span::Span;
use crate::text::{self, Text};
use crate::value::{self, VVal};
use vstd::prelude::*;

verus! {

/// Local variables, innermost last.
pub type Locals = Seq<(Text, VVal)>;

/// What evaluation reads and changes.
#[verifier::ext_equal]
pub struct Mem {
    pub env: Locals,
    pub out: Seq<Text>,
    pub cache: Table<VVal>,
}

/// What ends an evaluation early: a `return`, a runtime trap, or an exhausted
/// allowance.
pub enum Flow {
    Return(VVal),
    Error(Diag),
    Exhausted,
}

/// A runtime trap with the given message.
pub open spec fn trap(message: Text) -> Flow {
    Flow::Error(Diag { stage: Stage::Runtime, message, span: Span::nowhere() })
}

/// The position of the last variable before position `i` called `name`.
pub open spec fn slot_before<T>(env: Seq<(Text, T)>, name: Text, i: int) -> Option<int>
    decreases i,
{
    if i <= 0 || i > env.len() {
        None
    } else if env[i - 1].0 == name {
        Some(i - 1)
    } else {
        slot_before(env, name, i - 1)
    }
}

/// The innermost variable called `name`.
pub open spec fn slot<T>(env: Seq<(Text, T)>, name: Text) -> Option<int> {
    slot_before(env, name, env.len() as int)
}

/// The variables without those introduced beyond the first `n`.
pub open spec fn cut<T>(env: Seq<T>, n: int) -> Seq<T> {
    if 0 <= n <= env.len() {
        env.subrange(0, n)
    } else {
        env
    }
}

/// An integer-like value as an integer, for indexing and loop counters.
pub open spec fn int_of(v: VVal) -> int {
    match v {
        VVal::Int(n, it) => n as int,
        VVal::Bit(n, w) => n as int,
        VVal::Bool(b) => if b {
            1
        } else {
            0
        },
        _ => 0,
    }
}

/// The value of an integer-like type that `v` reduces to.
pub open spec fn make_int(v: int, ty: TType) -> VVal {
    match ty {
        TType::Int(it) => VVal::Int(arith::norm(v, it) as i128, it),
        TType::Bit(n) => VVal::Bit(arith::wrap(v, n) as u128, n),
        _ => VVal::Int(v as i128, IntTy { signed: true, width: 32 }),
    }
}

/// The variables that a pattern binds where it matches `v`.
pub open spec fn matched(p: TPattern, v: VVal) -> Option<Locals>
    decreases p, 0int,
{
    match p {
        TPattern::Wildcard => Some(Seq::empty()),
        TPattern::Binding { name, ty } => Some(seq![(name, v)]),
        TPattern::Int(target) => match v {
            VVal::Int(n, it) => if n == target {
                Some(Seq::empty())
            } else {
                None
            },
            VVal::Bit(n, w) => if n == target {
                Some(Seq::empty())
            } else {
                None
            },
            _ => None,
        },
        TPattern::Bool(target) => if v == VVal::Bool(target) {
            Some(Seq::empty())
        } else {
            None
        },
        TPattern::Range { lo, hi, inclusive } => if (v is Int || v is Bit) && lo <= int_of(v) && (
        int_of(v) < hi || (inclusive && int_of(v) == hi)) {
            Some(Seq::empty())
        } else {
            None
        },
        TPattern::Variant { enum_name, tag, subpatterns } => match v {
            VVal::Enum(n, vtag, args) => if vtag == tag && args.len() == subpatterns.len() {
                matched_all(subpatterns, args, 0)
            } else {
                None
            },
            _ => None,
        },
        TPattern::Tuple(subs) => match v {
            VVal::Tuple(elems) => if elems.len() == subs.len() {
                matched_all(subs, elems, 0)
            } else {
                None
            },
            _ => None,
        },
        TPattern::Or(alts) => matched_any(alts, v, 0),
    }
}

/// The variables that the patterns from position `i` on bind where each matches
/// the value at its position.
pub open spec fn matched_all(ps: Seq<TPattern>, vs: Seq<VVal>, i: int) -> Option<Locals>
    decreases ps, ps.len() - i,
{
    if i < 0 || i >= ps.len() || i >= vs.len() {
        Some(Seq::empty())
    } else {
        match matched(ps[i], vs[i]) {
            None => None,
            Some(b) => match matched_all(ps, vs, i + 1) {
                None => None,
                Some(c) => Some(b + c),
            },
        }
    }
}

/// The variables that the first matching alternative from position `i` on binds.
pub open spec fn matched_any(ps: Seq<TPattern>, v: VVal, i: int) -> Option<Locals>
    decreases ps, ps.len() - i,
{
    if i < 0 || i >= ps.len() {
        None
    } else {
        match matched(ps[i], v) {
            Some(b) => Some(b),
            None => matched_any(ps, v, i + 1),
        }
    }
}

pub open spec fn unary(op: UnOp, v: VVal) -> Result<VVal, Flow> {
    match op {
        UnOp::Neg => match v {
            VVal::Int(n, it) => Ok(VVal::Int(arith::norm(-(n as int), it) as i128, it)),
            VVal::Bit(n, w) => Ok(VVal::Bit(arith::wrap(-(n as int), w) as u128, w)),
            _ => Err(trap("cannot negate this value"@)),
        },
        UnOp::Not => match v {
            VVal::Bool(b) => Ok(VVal::Bool(!b)),
            VVal::Int(n, it) => Ok(VVal::Int(arith::norm(-(n as int) - 1, it) as i128, it)),
            VVal::Bit(n, w) => Ok(VVal::Bit(arith::wrap(-(n as int) - 1, w) as u128, w)),
            _ => Err(trap("cannot apply `!` to this value"@)),
        },
    }
}

pub open spec fn int_result(r: Result<int, Text>, it: IntTy) -> Result<VVal, Flow> {
    match r {
        Ok(x) => Ok(VVal::Int(arith::norm(x, it) as i128, it)),
        Err(m) => Err(trap(m)),
    }
}

pub open spec fn bit_result(r: Result<int, Text>, w: u32) -> Result<VVal, Flow> {
    match r {
        Ok(x) => Ok(VVal::Bit(arith::wrap(x, w) as u128, w)),
        Err(m) => Err(trap(m)),
    }
}

/// A comparison, arithmetic, bitwise or shift operator. The result of a shift
/// has the type of its left operand, whatever the type of the amount.
pub open spec fn binary(op: BinOp, l: VVal, r: VVal) -> Result<VVal, Flow> {
    if op.comparing() {
        match (l, r) {
            (VVal::Int(a, _), VVal::Int(b, _)) => Ok(
                VVal::Bool(arith::compares(op, a as int, b as int)),
            ),
            (VVal::Bit(a, _), VVal::Bit(b, _)) => Ok(
                VVal::Bool(arith::compares(op, a as int, b as int)),
            ),
            (VVal::Bool(a), VVal::Bool(b)) => match op {
                BinOp::Eq => Ok(VVal::Bool(a == b)),
                BinOp::Ne => Ok(VVal::Bool(a != b)),
                _ => Err(trap("cannot order booleans"@)),
            },
            _ => Err(trap("comparison of incompatible values"@)),
        }
    } else if op is Shl || op is Shr {
        match l {
            VVal::Int(a, it) => int_result(
                arith::int_op(op, a, arith::signed128(int_of(r)) as i128, it),
                it,
            ),
            VVal::Bit(a, w) => bit_result(
                arith::bit_op(op, a, (int_of(r) % arith::two128()) as u128, w),
                w,
            ),
            _ => Err(trap("shift of a non-integer value"@)),
        }
    } else {
        match (l, r) {
            (VVal::Int(a, it), VVal::Int(b, _)) => int_result(arith::int_op(op, a, b, it), it),
            (VVal::Bit(a, w), VVal::Bit(b, _)) => bit_result(arith::bit_op(op, a, b, w), w),
            _ => Err(trap("arithmetic on incompatible values"@)),
        }
    }
}

pub open spec fn truth(v: VVal) -> Result<bool, Flow> {
    match v {
        VVal::Bool(b) => Ok(b),
        _ => Err(trap("expected a boolean value"@)),
    }
}

/// The element of `xs` at the position `idx`, which must exist.
pub open spec fn element(xs: Seq<VVal>, idx: int) -> Result<VVal, Flow> {
    if 0 <= idx < xs.len() {
        Ok(xs[idx])
    } else {
        Err(out_of_bounds(idx, xs.len()))
    }
}

pub open spec fn out_of_bounds(idx: int, len: nat) -> Flow {
    trap(
        "array index "@ + text::int_text(idx) + " out of bounds for length "@ + text::dec(len),
    )
}

pub open spec fn field_of(v: VVal, index: usize) -> Result<VVal, Flow> {
    match v {
        VVal::Struct(n, xs) => if index < xs.len() {
            Ok(xs[index as int])
        } else {
            Err(trap("field index out of range"@))
        },
        _ => Err(trap("field access on non-struct value"@)),
    }
}

pub open spec fn tuple_part(v: VVal, index: usize) -> Result<VVal, Flow> {
    match v {
        VVal::Tuple(xs) => if index < xs.len() {
            Ok(xs[index as int])
        } else {
            Err(trap("tuple index out of range"@))
        },
        _ => Err(trap("tuple access on non-tuple value"@)),
    }
}

pub open spec fn indexed(v: VVal, idx: int) -> Result<VVal, Flow> {
    match v {
        VVal::Array(xs) => element(xs, idx),
        _ => Err(trap("indexing a non-array value"@)),
    }
}

/// The struct value `cur` with the field at `index` replaced.
pub open spec fn with_field(cur: VVal, index: usize, v: VVal) -> Result<VVal, Flow> {
    match cur {
        VVal::Struct(n, xs) => if index < xs.len() {
            Ok(VVal::Struct(n, xs.update(index as int, v)))
        } else {
            Err(trap("field index out of range"@))
        },
        _ => Err(trap("field assignment on non-struct value"@)),
    }
}

pub open spec fn with_part(cur: VVal, index: usize, v: VVal) -> Result<VVal, Flow> {
    match cur {
        VVal::Tuple(xs) => if index < xs.len() {
            Ok(VVal::Tuple(xs.update(index as int, v)))
        } else {
            Err(trap("tuple index out of range"@))
        },
        _ => Err(trap("tuple assignment on non-tuple value"@)),
    }
}

pub open spec fn with_element(cur: VVal, idx: int, v: VVal) -> Result<VVal, Flow> {
    match cur {
        VVal::Array(xs) => if 0 <= idx < xs.len() {
            Ok(VVal::Array(xs.update(idx, v)))
        } else {
            Err(out_of_bounds(idx, xs.len()))
        },
        _ => Err(trap("index assignment on non-array value"@)),
    }
}

pub open spec fn read_local(name: Text, env: Locals) -> Result<VVal, Flow> {
    match slot(env, name) {
        Some(p) => Ok(env[p].1),
        None => Err(trap("read of unbound variable `"@ + name + "`"@)),
    }
}

/// The parameters of a function bound to its arguments.
pub open spec fn bind_params(ps: Seq<TParam>, args: Seq<VVal>) -> Locals {
    Seq::new(
        if ps.len() <= args.len() {
            ps.len()
        } else {
            args.len()
        },
        |i: int| (ps[i].name, args[i]),
    )
}

pub open spec fn with_env(s: Mem, env: Locals) -> Mem {
    Mem { env, out: s.out, cache: s.cache }
}

/// Evaluate the expressions from position `i` on, behind the values `acc`.
pub open spec fn eval_args(
    m: TModule,
    fuel: nat,
    es: Seq<TExpr>,
    i: int,
    acc: Seq<VVal>,
    s: Mem,
) -> (Result<Seq<VVal>, Flow>, Mem)
    decreases fuel, 1int, es.len() - i,
{
    if i < 0 || i >= es.len() {
        (Ok(acc), s)
    } else {
        match eval_expr(m, fuel, es[i], s) {
            (Err(f), s1) => (Err(f), s1),
            (Ok(v), s1) => eval_args(m, fuel, es, i + 1, acc.push(v), s1),
        }
    }
}

/// Try the arms from position `i` on against `v`.
pub open spec fn eval_arms(m: TModule, fuel: nat, arms: Seq<TArm>, i: int, v: VVal, s: Mem) -> (
    Result<VVal, Flow>,
    Mem,
)
    decreases fuel, 1int, arms.len() - i,
{
    if i < 0 || i >= arms.len() {
        (Err(trap("internal error: no match arm matched (non-exhaustive?)"@)), s)
    } else {
        match matched(arms[i].pattern, v) {
            None => eval_arms(m, fuel, arms, i + 1, v, s),
            Some(b) => {
                let n = s.env.len() as int;
                let inner = with_env(s, s.env + b);
                match arms[i].guard {
                    None => {
                        let (r, s1) = eval_expr(m, fuel, arms[i].body, inner);
                        (r, with_env(s1, cut(s1.env, n)))
                    },
                    Some(g) => match eval_expr(m, fuel, g, inner) {
                        (Err(f), s1) => (Err(f), with_env(s1, cut(s1.env, n))),
                        (Ok(c), s1) => if c == VVal::Bool(true) {
                            let (r, s2) = eval_expr(m, fuel, arms[i].body, s1);
                            (r, with_env(s2, cut(s2.env, n)))
                        } else {
                            eval_arms(m, fuel, arms, i + 1, v, with_env(s1, cut(s1.env, n)))
                        },
                    },
                }
            },
        }
    }
}

/// What an evaluation gives to those outside the body: a `return` ends the body with
/// its value.
pub open spec fn returned(r: (Result<VVal, Flow>, Mem)) -> (Result<VVal, Flow>, Mem) {
    (
        match r.0 {
            Err(Flow::Return(v)) => Ok(v),
            other => other,
        },
        r.1,
    )
}

/// The value of the constant called `name`, evaluated on first use and kept.
pub open spec fn eval_const(m: TModule, fuel: nat, name: Text, s: Mem) -> (Result<VVal, Flow>, Mem)
    decreases fuel, 1int, 0int,
{
    match name_map::find(s.cache, name) {
        Some(v) => (Ok(v), s),
        None => match name_map::find(m.consts, name) {
            None => (Err(trap("reference to unknown const `"@ + name + "`"@)), s),
            Some(d) => match returned(eval_expr(m, fuel, d.init, with_env(s, Seq::empty()))) {
                (Err(f), s1) => (Err(f), with_env(s1, s.env)),
                (Ok(v), s1) => (
                    Ok(v),
                    Mem { env: s.env, out: s1.out, cache: name_map::put(s1.cache, name, v) },
                ),
            },
        },
    }
}

/// Evaluate an expression.
pub open spec fn eval_expr(m: TModule, fuel: nat, e: TExpr, s: Mem) -> (Result<VVal, Flow>, Mem)
    decreases fuel, 0int, 0int,
{
    if fuel == 0 {
        (Err(Flow::Exhausted), s)
    } else {
        let f = (fuel - 1) as nat;
        match e.kind {
            TKind::Int(v) => (Ok(make_int(v as int, e.ty)), s),
            TKind::Bool(b) => (Ok(VVal::Bool(b)), s),
            TKind::Unit => (Ok(VVal::Unit), s),
            TKind::Local(name) => (read_local(name, s.env), s),
            TKind::ConstRef(name) => eval_const(m, f, name, s),
            TKind::Unary { op, expr } => match eval_expr(m, f, *expr, s) {
                (Err(x), s1) => (Err(x), s1),
                (Ok(v), s1) => (unary(op, v), s1),
            },
            TKind::Binary { op, lhs, rhs } => match eval_expr(m, f, *lhs, s) {
                (Err(x), s1) => (Err(x), s1),
                (Ok(l), s1) => if op.logical() {
                    match truth(l) {
                        Err(x) => (Err(x), s1),
                        Ok(b) => if b == (op is Or) {
                            (Ok(VVal::Bool(b)), s1)
                        } else {
                            match eval_expr(m, f, *rhs, s1) {
                                (Err(x), s2) => (Err(x), s2),
                                (Ok(r), s2) => match truth(r) {
                                    Err(x) => (Err(x), s2),
                                    Ok(c) => (Ok(VVal::Bool(c)), s2),
                                },
                            }
                        },
                    }
                } else {
                    match eval_expr(m, f, *rhs, s1) {
                        (Err(x), s2) => (Err(x), s2),
                        (Ok(r), s2) => (binary(op, l, r), s2),
                    }
                },
            },
            TKind::Call { func, args } => match eval_args(m, f, args, 0, Seq::empty(), s) {
                (Err(x), s1) => (Err(x), s1),
                (Ok(vs), s1) => call_func(m, f, func, vs, s1),
            },
            TKind::Print { arg } => match eval_expr(m, f, *arg, s) {
                (Err(x), s1) => (Err(x), s1),
                (Ok(v), s1) => (
                    Ok(VVal::Unit),
                    Mem { env: s1.env, out: s1.out.push(v.show(m)), cache: s1.cache },
                ),
            },
            TKind::MakeStruct { name, fields } => match eval_args(
                m,
                f,
                fields,
                0,
                Seq::empty(),
                s,
            ) {
                (Err(x), s1) => (Err(x), s1),
                (Ok(vs), s1) => (Ok(VVal::Struct(name, vs)), s1),
            },
            TKind::MakeEnum { name, tag, args } => match eval_args(m, f, args, 0, Seq::empty(), s) {
                (Err(x), s1) => (Err(x), s1),
                (Ok(vs), s1) => (Ok(VVal::Enum(name, tag, vs)), s1),
            },
            TKind::MakeTuple(es) => match eval_args(m, f, es, 0, Seq::empty(), s) {
                (Err(x), s1) => (Err(x), s1),
                (Ok(vs), s1) => (Ok(VVal::Tuple(vs)), s1),
            },
            TKind::Field { base, index } => match eval_expr(m, f, *base, s) {
                (Err(x), s1) => (Err(x), s1),
                (Ok(v), s1) => (field_of(v, index), s1),
            },
            TKind::TupleField { base, index } => match eval_expr(m, f, *base, s) {
                (Err(x), s1) => (Err(x), s1),
                (Ok(v), s1) => (tuple_part(v, index), s1),
            },
            TKind::Index { base, index } => match eval_expr(m, f, *base, s) {
                (Err(x), s1) => (Err(x), s1),
                (Ok(b), s1) => match eval_expr(m, f, *index, s1) {
                    (Err(x), s2) => (Err(x), s2),
                    (Ok(i), s2) => (indexed(b, int_of(i)), s2),
                },
            },
            TKind::Array(es) => match eval_args(m, f, es, 0, Seq::empty(), s) {
                (Err(x), s1) => (Err(x), s1),
                (Ok(vs), s1) => (Ok(VVal::Array(vs)), s1),
            },
            TKind::If { cond, then_branch, else_branch } => match eval_expr(m, f, *cond, s) {
                (Err(x), s1) => (Err(x), s1),
                (Ok(c), s1) => match truth(c) {
                    Err(x) => (Err(x), s1),
                    Ok(b) => if b {
                        eval_block(m, f, then_branch, s1)
                    } else {
                        eval_block(m, f, else_branch, s1)
                    },
                },
            },
            TKind::Match { scrutinee, arms } => match eval_expr(m, f, *scrutinee, s) {
                (Err(x), s1) => (Err(x), s1),
                (Ok(v), s1) => eval_arms(m, f, arms, 0, v, s1),
            },
            TKind::Block(b) => eval_block(m, f, b, s),
        }
    }
}

/// How many steps lead from a place to its variable.
pub open spec fn place_depth(p: TPlace) -> nat
    decreases p,
{
    match p {
        TPlace::Local { name, ty } => 0,
        TPlace::Field { base, index, ty } => 1 + place_depth(*base),
        TPlace::TupleField { base, index, ty } => 1 + place_depth(*base),
        TPlace::Index { base, index, ty } => 1 + place_depth(*base),
    }
}

/// Read the value at a place.
pub open spec fn load(m: TModule, fuel: nat, p: TPlace, s: Mem) -> (Result<VVal, Flow>, Mem)
    decreases fuel, 1int, place_depth(p) as int,
{
    match p {
        TPlace::Local { name, ty } => (read_local(name, s.env), s),
        TPlace::Field { base, index, ty } => match load(m, fuel, *base, s) {
            (Err(x), s1) => (Err(x), s1),
            (Ok(v), s1) => (field_of(v, index), s1),
        },
        TPlace::TupleField { base, index, ty } => match load(m, fuel, *base, s) {
            (Err(x), s1) => (Err(x), s1),
            (Ok(v), s1) => (tuple_part(v, index), s1),
        },
        TPlace::Index { base, index, ty } => match eval_expr(m, fuel, *index, s) {
            (Err(x), s1) => (Err(x), s1),
            (Ok(i), s1) => match load(m, fuel, *base, s1) {
                (Err(x), s2) => (Err(x), s2),
                (Ok(v), s2) => (indexed(v, int_of(i)), s2),
            },
        },
    }
}

/// Write `v` to a place.
pub open spec fn store(m: TModule, fuel: nat, p: TPlace, v: VVal, s: Mem) -> (
    Result<(), Flow>,
    Mem,
)
    decreases fuel, 2int, place_depth(p) as int,
{
    match p {
        TPlace::Local { name, ty } => match slot(s.env, name) {
            Some(q) => (Ok(()), with_env(s, s.env.update(q, (name, v)))),
            None => (Err(trap("assignment to unbound variable `"@ + name + "`"@)), s),
        },
        TPlace::Field { base, index, ty } => match load(m, fuel, *base, s) {
            (Err(x), s1) => (Err(x), s1),
            (Ok(cur), s1) => match with_field(cur, index, v) {
                Err(x) => (Err(x), s1),
                Ok(next) => store(m, fuel, *base, next, s1),
            },
        },
        TPlace::TupleField { base, index, ty } => match load(m, fuel, *base, s) {
            (Err(x), s1) => (Err(x), s1),
            (Ok(cur), s1) => match with_part(cur, index, v) {
                Err(x) => (Err(x), s1),
                Ok(next) => store(m, fuel, *base, next, s1),
            },
        },
        TPlace::Index { base, index, ty } => match eval_expr(m, fuel, *index, s) {
            (Err(x), s1) => (Err(x), s1),
            (Ok(i), s1) => match load(m, fuel, *base, s1) {
                (Err(x), s2) => (Err(x), s2),
                (Ok(cur), s2) => match with_element(cur, int_of(i), v) {
                    Err(x) => (Err(x), s2),
                    Ok(next) => store(m, fuel, *base, next, s2),
                },
            },
        },
    }
}

/// Run `while cond { body }`.
pub open spec fn eval_while(m: TModule, fuel: nat, cond: TExpr, body: TBlock, s: Mem) -> (
    Result<(), Flow>,
    Mem,
)
    decreases fuel, 6int, 0int,
{
    if fuel == 0 {
        (Err(Flow::Exhausted), s)
    } else {
        let f = (fuel - 1) as nat;
        match eval_expr(m, f, cond, s) {
            (Err(x), s1) => (Err(x), s1),
            (Ok(c), s1) => if c == VVal::Bool(true) {
                match eval_block(m, f, body, s1) {
                    (Err(x), s2) => (Err(x), s2),
                    (Ok(_), s2) => eval_while(m, f, cond, body, s2),
                }
            } else {
                (Ok(()), s1)
            },
        }
    }
}

/// Run the body of a `for` loop for each value from `i` up to, but not
/// including, `hi`.
pub open spec fn eval_for(
    m: TModule,
    fuel: nat,
    var: Text,
    ty: TType,
    i: int,
    hi: int,
    body: TBlock,
    s: Mem,
) -> (Result<(), Flow>, Mem)
    decreases fuel, 6int, hi - i,
{
    if i >= hi {
        (Ok(()), s)
    } else {
        let n = s.env.len() as int;
        match eval_block(m, fuel, body, with_env(s, s.env.push((var, make_int(i, ty))))) {
            (Err(x), s1) => (Err(x), with_env(s1, cut(s1.env, n))),
            (Ok(_), s1) => eval_for(m, fuel, var, ty, i + 1, hi, body, with_env(s1, cut(s1.env, n))),
        }
    }
}

/// Run a statement.
pub open spec fn eval_stmt(m: TModule, fuel: nat, st: TStmt, s: Mem) -> (Result<(), Flow>, Mem)
    decreases fuel, 3int, 0int,
{
    match st {
        TStmt::Let { name, mutable, ty, init } => match eval_expr(m, fuel, init, s) {
            (Err(x), s1) => (Err(x), s1),
            (Ok(v), s1) => (Ok(()), with_env(s1, s1.env.push((name, v)))),
        },
        TStmt::Assign { place, value } => match eval_expr(m, fuel, value, s) {
            (Err(x), s1) => (Err(x), s1),
            (Ok(v), s1) => store(m, fuel, place, v, s1),
        },
        TStmt::While { cond, body } => if fuel == 0 {
            (Err(Flow::Exhausted), s)
        } else {
            eval_while(m, (fuel - 1) as nat, cond, body, s)
        },
        TStmt::For { var, ty, lo, hi, body } => match eval_expr(m, fuel, lo, s) {
            (Err(x), s1) => (Err(x), s1),
            (Ok(a), s1) => match eval_expr(m, fuel, hi, s1) {
                (Err(x), s2) => (Err(x), s2),
                (Ok(b), s2) => if fuel == 0 {
                    (Err(Flow::Exhausted), s2)
                } else {
                    eval_for(m, (fuel - 1) as nat, var, ty, int_of(a), int_of(b), body, s2)
                },
            },
        },
        TStmt::Return { value } => match value {
            None => (Err(Flow::Return(VVal::Unit)), s),
            Some(e) => match eval_expr(m, fuel, e, s) {
                (Err(x), s1) => (Err(x), s1),
                (Ok(v), s1) => (Err(Flow::Return(v)), s1),
            },
        },
        TStmt::Expr(e) => match eval_expr(m, fuel, e, s) {
            (Err(x), s1) => (Err(x), s1),
            (Ok(_), s1) => (Ok(()), s1),
        },
    }
}

/// Run the statements from position `i` on.
pub open spec fn eval_stmts(m: TModule, fuel: nat, stmts: Seq<TStmt>, i: int, s: Mem) -> (
    Result<(), Flow>,
    Mem,
)
    decreases fuel, 4int, stmts.len() - i,
{
    if i < 0 || i >= stmts.len() {
        (Ok(()), s)
    } else {
        match eval_stmt(m, fuel, stmts[i], s) {
            (Err(x), s1) => (Err(x), s1),
            (Ok(_), s1) => eval_stmts(m, fuel, stmts, i + 1, s1),
        }
    }
}

/// Run a block and take the value of its tail. The variables it introduces go
/// out of scope behind it.
pub open spec fn eval_block(m: TModule, fuel: nat, b: TBlock, s: Mem) -> (Result<VVal, Flow>, Mem)
    decreases fuel, 5int, 0int,
{
    let n = s.env.len() as int;
    match eval_stmts(m, fuel, b.stmts, 0, s) {
        (Err(x), s1) => (Err(x), with_env(s1, cut(s1.env, n))),
        (Ok(_), s1) => match b.tail {
            None => (Ok(VVal::Unit), with_env(s1, cut(s1.env, n))),
            Some(e) => {
                let (r, s2) = eval_expr(m, fuel, *e, s1);
                (r, with_env(s2, cut(s2.env, n)))
            },
        },
    }
}

/// Call the function called `name`. The callee sees its parameters only; the
/// caller's variables are unchanged.
pub open spec fn call_func(m: TModule, fuel: nat, name: Text, args: Seq<VVal>, s: Mem) -> (
    Result<VVal, Flow>,
    Mem,
)
    decreases fuel, 6int, 0int,
{
    match name_map::find(m.funcs, name) {
        None => (Err(trap("call to unknown function `"@ + name + "`"@)), s),
        Some(fd) => {
            let (r, s1) = returned(
                eval_block(m, fuel, fd.body, with_env(s, bind_params(fd.params, args))),
            );
            (r, with_env(s1, s.env))
        },
    }
}

/// The result of an evaluation that a caller outside the program sees.
pub open spec fn settled(r: Result<VVal, Flow>) -> Result<VVal, Diag> {
    match r {
        Ok(v) => Ok(v),
        Err(Flow::Return(v)) => Ok(v),
        Err(Flow::Error(d)) => Err(d),
        Err(Flow::Exhausted) => Err(
            Diag {
                stage: Stage::Runtime,
                message: "evaluation did not end within its allowance"@,
                span: Span::nowhere(),
            },
        ),
    }
}

} // verus!
