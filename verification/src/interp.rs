//! # Interpreter
//!
//! A tree-walking evaluator over the typed core IR. It performs no type checks:
//! it only executes, exactly as [`crate::semantics`] states. Arithmetic wraps on
//! every integer-like type; division by zero and out-of-bounds indexing are
//! defined runtime traps.
//!
//! `print` output is captured into a buffer, so programs are testable.

use crate::arith::{self, bit_arith, compare_bit, compare_int, int_arith, low_bits, neg_bit, neg_int, norm_bit, norm_int, not_bit, not_int, pattern, signed};
use crate::env::{self, find_slot, Env};
use crate::diagnostic::{Diag, Diagnostic, Stage};
use crate::ir::{self, Arm, BinOp, Block, Expr, ExprKind, IntTy, Module, Param, Pattern, Place, Stmt, Type, UnOp};
use crate::model;
use crate::memory;
use crate::name_map::{self, NameMap};
use crate::semantics::{self, Flow, Locals, Mem};
use crate::span::Span;
use crate::text::{self, cat3, cat4, i128_text, texts_from, u128_text, usize_text, Text};
use crate::value::{self, format_value};
use vstd::prelude::*;

pub use crate::value::{VVal, Value};

verus! {

/// Non-local control flow inside evaluation: an early `return`, a runtime trap,
/// or an exhausted allowance.
pub enum Signal {
    Return(Value),
    Error(Diagnostic),
    Exhausted,
}

impl View for Signal {
    type V = Flow;

    open spec fn view(&self) -> Flow {
        match self {
            Signal::Return(v) => Flow::Return(v@),
            Signal::Error(d) => Flow::Error(d@),
            Signal::Exhausted => Flow::Exhausted,
        }
    }
}

/// What outlives a call: the printed lines and the constants evaluated so far.
#[derive(Debug)]
pub struct Store {
    pub output: Vec<String>,
    pub cache: NameMap<Value>,
}

pub open spec fn mem(env: Seq<(String, Value)>, st: Store) -> Mem {
    Mem { env: env::locals(env), out: text::texts(st.output@), cache: st.cache@ }
}

/// The result of an evaluation step, by view.
pub open spec fn outcome(r: Result<Value, Signal>) -> Result<VVal, Flow> {
    match r {
        Ok(v) => Ok(v@),
        Err(x) => Err(x@),
    }
}

pub open spec fn outcomes(r: Result<Vec<Value>, Signal>) -> Result<Seq<VVal>, Flow> {
    match r {
        Ok(v) => Ok(value::values_of(v@)),
        Err(x) => Err(x@),
    }
}

pub open spec fn done(r: Result<(), Signal>) -> Result<(), Flow> {
    match r {
        Ok(_) => Ok(()),
        Err(x) => Err(x@),
    }
}

broadcast use env::group_locals;

// ---- variables ----------------------------------------------------------

fn read_local(name: &String, env: &Env) -> (r: Result<Value, Signal>)
    ensures
        outcome(r) == semantics::read_local(name@, env::locals(env@)),
{
    match find_slot(env, name.as_str()) {
        Some(p) => Ok(env[p].1.dup()),
        None => {
            let msg = cat3("read of unbound variable `", name.as_str(), "`");
            Err(trap(msg))
        },
    }
}

fn cut_env(env: &mut Env, n: usize)
    ensures
        env::locals(final(env)@) == semantics::cut(env::locals(old(env)@), n as int),
{
    if n <= env.len() {
        env.truncate(n);
    }
}

// ---- traps --------------------------------------------------------------

fn trap(message: String) -> (r: Signal)
    ensures
        r@ == semantics::trap(message@),
{
    Signal::Error(Diagnostic::new(Stage::Runtime, message, Span::dummy()))
}

fn rt(message: &str) -> (r: Signal)
    ensures
        r@ == semantics::trap(message@),
{
    trap(message.to_string())
}

fn as_bool(v: &Value) -> (r: Result<bool, Signal>)
    ensures
        match r {
            Ok(b) => semantics::truth(v@) == Ok::<bool, Flow>(b),
            Err(x) => semantics::truth(v@) == Err::<bool, Flow>(x@),
        },
{
    match v {
        Value::Bool(b) => Ok(*b),
        _ => Err(rt("expected a boolean value")),
    }
}

/// An integer-like value as an integer: a machine integer or a bit pattern.
#[derive(Clone, Copy)]
enum Whole {
    Int(i128),
    Bits(u128),
}

impl Whole {
    spec fn value(self) -> int {
        match self {
            Whole::Int(n) => n as int,
            Whole::Bits(n) => n as int,
        }
    }

    fn below(self, other: Whole) -> (r: bool)
        ensures
            r == (self.value() < other.value()),
    {
        match (self, other) {
            (Whole::Int(a), Whole::Int(b)) => a < b,
            (Whole::Bits(a), Whole::Bits(b)) => a < b,
            (Whole::Int(a), Whole::Bits(b)) => a < 0 || (a as u128) < b,
            (Whole::Bits(a), Whole::Int(b)) => b >= 0 && a < b as u128,
        }
    }

    fn next(self, bound: Whole) -> (r: Whole)
        requires
            self.value() < bound.value(),
        ensures
            r.value() == self.value() + 1,
    {
        match self {
            Whole::Int(a) => if a < i128::MAX {
                Whole::Int(a + 1)
            } else {
                Whole::Bits(0x8000_0000_0000_0000_0000_0000_0000_0000)
            },
            Whole::Bits(a) => Whole::Bits(a + 1),
        }
    }

    /// The signed reading of the low 128 bits.
    fn low(self) -> (r: i128)
        ensures
            r == arith::signed128(self.value()),
    {
        match self {
            Whole::Int(a) => signed(pattern(a)),
            Whole::Bits(a) => signed(a),
        }
    }
}

/// Read any integer-like value as an integer (for indexing and loop counters).
fn whole_of(v: &Value) -> (r: Whole)
    ensures
        r.value() == semantics::int_of(v@),
{
    match v {
        Value::Int(n, _) => Whole::Int(*n),
        Value::Bit(n, _) => Whole::Bits(*n),
        Value::Bool(b) => if *b {
            Whole::Int(1)
        } else {
            Whole::Int(0)
        },
        _ => Whole::Int(0),
    }
}

fn bounds_check(idx: Whole, len: usize) -> (r: Result<usize, Signal>)
    ensures
        match r {
            Ok(i) => i == idx.value() && i < len,
            Err(x) => !(0 <= idx.value() < len) && x@ == semantics::out_of_bounds(
                idx.value(),
                len as nat,
            ),
        },
{
    let a = match idx {
        Whole::Int(n) => if 0 <= n && n < len as i128 {
            return Ok(n as usize);
        } else {
            i128_text(n)
        },
        Whole::Bits(n) => if n < len as u128 {
            return Ok(n as usize);
        } else {
            u128_text(n)
        },
    };
    let b = usize_text(len);
    let msg = cat4("array index ", a.as_str(), " out of bounds for length ", b.as_str());
    Err(trap(msg))
}

/// Build a value from a raw integer for the given integer-like type.
fn make_int_value(v: i128, ty: &Type) -> (r: Value)
    ensures
        r@ == semantics::make_int(v as int, ty@),
{
    reveal(Type::model);
    match ty {
        Type::Int(it) => Value::Int(norm_int(v, *it), *it),
        Type::Bit(n) => Value::Bit(norm_bit(v, *n), *n),
        _ => Value::Int(v, IntTy { signed: true, width: 32 }),
    }
}

/// Build the value of an integer-like type that an integer reduces to.
fn make_value(v: Whole, ty: &Type) -> (r: Value)
    ensures
        r@ == semantics::make_int(v.value(), ty@),
{
    reveal(Type::model);
    match v {
        Whole::Int(n) => make_int_value(n, ty),
        Whole::Bits(n) => match ty {
            Type::Int(it) => {
                proof {
                    arith::lemma_signed_pattern(n as int);
                    arith::lemma_same_pattern(arith::signed128(n as int), n as int, it.width);
                }
                Value::Int(norm_int(signed(n), *it), *it)
            },
            Type::Bit(w) => Value::Bit(low_bits(n, *w), *w),
            _ => Value::Int(n as i128, IntTy { signed: true, width: 32 }),
        },
    }
}

// ---- pattern matching ---------------------------------------------------

/// Match `v` against `p`; on success the bindings are appended to `binds`.
fn pattern_matches(p: &Pattern, v: &Value, binds: &mut Env) -> (r: bool)
    ensures
        match semantics::matched(p@, v@) {
            Some(b) => r && env::locals(final(binds)@) == env::locals(old(binds)@) + b,
            None => !r && env::locals(final(binds)@) == env::locals(old(binds)@),
        },
    decreases p, 0int,
{
    reveal(Pattern::model);
    broadcast use ir::group_model;

    let ghost before = env::locals(binds@);
    match p {
        Pattern::Wildcard => {
            assert(before + Seq::<(Text, VVal)>::empty() =~= before);
            true
        },
        Pattern::Binding { name, ty: _ } => {
            binds.push((name.clone(), v.dup()));
            assert(env::locals(binds@) =~= before + seq![(name@, v@)]);
            true
        },
        Pattern::Int(target) => {
            assert(before + Seq::<(Text, VVal)>::empty() =~= before);
            match v {
                Value::Int(n, _) => *n == *target,
                Value::Bit(n, _) => *target >= 0 && *n == *target as u128,
                _ => false,
            }
        },
        Pattern::Bool(target) => {
            assert(before + Seq::<(Text, VVal)>::empty() =~= before);
            match v {
                Value::Bool(b) => *b == *target,
                _ => false,
            }
        },
        Pattern::Range { lo, hi, inclusive } => {
            assert(before + Seq::<(Text, VVal)>::empty() =~= before);
            match v {
                Value::Int(n, _) => *lo <= *n && (*n < *hi || (*inclusive && *n == *hi)),
                Value::Bit(n, _) => (*lo < 0 || *lo as u128 <= *n) && *hi >= 0 && (*n < *hi as u128
                    || (*inclusive && *n == *hi as u128)),
                _ => false,
            }
        },
        Pattern::Variant { enum_name: _, tag, subpatterns } => match v {
            Value::Enum(_, vtag, args) => *vtag == *tag && args.len() == subpatterns.len()
                && pattern_all(subpatterns, args, binds),
            _ => false,
        },
        Pattern::Tuple(subs) => match v {
            Value::Tuple(elems) => elems.len() == subs.len() && pattern_all(subs, elems, binds),
            _ => false,
        },
        Pattern::Or(alts) => pattern_any(alts, v, binds),
    }
}

fn pattern_all(ps: &Vec<Pattern>, vs: &Vec<Value>, binds: &mut Env) -> (r: bool)
    requires
        ps.len() == vs.len(),
    ensures
        match semantics::matched_all(ir::patterns_of(ps@), value::values_of(vs@), 0) {
            Some(b) => r && env::locals(final(binds)@) == env::locals(old(binds)@) + b,
            None => !r && env::locals(final(binds)@) == env::locals(old(binds)@),
        },
    decreases ps, 1int,
{
    broadcast use ir::group_model;

    let n = binds.len();
    let ghost before = env::locals(binds@);
    let ghost mps = ir::patterns_of(ps@);
    let ghost mvs = value::values_of(vs@);
    let ghost mut acc: Locals = Seq::empty();
    assert(before + acc =~= before);
    let mut i: usize = 0;
    assert(match semantics::matched_all(mps, mvs, 0) {
        Some(b) => acc + b =~= b,
        None => true,
    });
    while i < ps.len()
        invariant
            i <= ps.len(),
            ps.len() == vs.len(),
            n == before.len(),
            mps == ir::patterns_of(ps@),
            mvs == value::values_of(vs@),
            before == env::locals(old(binds)@),
            env::locals(binds@) == before + acc,
            match semantics::matched_all(mps, mvs, 0) {
                Some(b) => semantics::matched_all(mps, mvs, i as int) matches Some(c) && b == acc + c,
                None => semantics::matched_all(mps, mvs, i as int) is None,
            },
        decreases ps.len() - i,
    {
        broadcast use ir::group_model;

        assert(mps[i as int] == ps[i as int]@ && mvs[i as int] == vs[i as int]@);
        if !pattern_matches(&ps[i], &vs[i], binds) {
            binds.truncate(n);
            assert((before + acc).subrange(0, n as int) =~= before);
            return false;
        }
        proof {
            let b = semantics::matched(mps[i as int], mvs[i as int])->0;
            assert((before + acc) + b =~= before + (acc + b));
            match semantics::matched_all(mps, mvs, i as int + 1) {
                Some(c) => {
                    assert(acc + (b + c) =~= (acc + b) + c);
                },
                None => {},
            }
            acc = acc + b;
        }
        i += 1;
    }
    assert(acc + Seq::<(Text, VVal)>::empty() =~= acc);
    true
}

fn pattern_any(ps: &Vec<Pattern>, v: &Value, binds: &mut Env) -> (r: bool)
    ensures
        match semantics::matched_any(ir::patterns_of(ps@), v@, 0) {
            Some(b) => r && env::locals(final(binds)@) == env::locals(old(binds)@) + b,
            None => !r && env::locals(final(binds)@) == env::locals(old(binds)@),
        },
    decreases ps, 1int,
{
    broadcast use ir::group_model;

    let ghost mps = ir::patterns_of(ps@);
    let mut i: usize = 0;
    while i < ps.len()
        invariant
            i <= ps.len(),
            mps == ir::patterns_of(ps@),
            env::locals(binds@) == env::locals(old(binds)@),
            semantics::matched_any(mps, v@, 0) == semantics::matched_any(mps, v@, i as int),
        decreases ps.len() - i,
    {
        broadcast use ir::group_model;

        assert(mps[i as int] == ps[i as int]@);
        if pattern_matches(&ps[i], v, binds) {
            return true;
        }
        i += 1;
    }
    false
}

// ---- operators ----------------------------------------------------------

fn eval_unary(op: UnOp, v: Value) -> (r: Result<Value, Signal>)
    ensures
        outcome(r) == semantics::unary(op, v@),
{
    match op {
        UnOp::Neg => match v {
            Value::Int(n, it) => Ok(Value::Int(neg_int(n, it), it)),
            Value::Bit(n, w) => Ok(Value::Bit(neg_bit(n, w), w)),
            _ => Err(rt("cannot negate this value")),
        },
        UnOp::Not => match v {
            Value::Bool(b) => Ok(Value::Bool(!b)),
            Value::Int(n, it) => Ok(Value::Int(not_int(n, it), it)),
            Value::Bit(n, w) => Ok(Value::Bit(not_bit(n, w), w)),
            _ => Err(rt("cannot apply `!` to this value")),
        },
    }
}

fn int_result(x: Result<i128, String>, it: IntTy) -> (r: Result<Value, Signal>)
    ensures
        match x {
            Ok(n) => outcome(r) == Ok::<VVal, Flow>(VVal::Int(n, it)),
            Err(m) => outcome(r) == Err::<VVal, Flow>(semantics::trap(m@)),
        },
{
    match x {
        Ok(n) => Ok(Value::Int(n, it)),
        Err(m) => Err(trap(m)),
    }
}

fn bit_result(x: Result<u128, String>, w: u32) -> (r: Result<Value, Signal>)
    ensures
        match x {
            Ok(n) => outcome(r) == Ok::<VVal, Flow>(VVal::Bit(n, w)),
            Err(m) => outcome(r) == Err::<VVal, Flow>(semantics::trap(m@)),
        },
{
    match x {
        Ok(n) => Ok(Value::Bit(n, w)),
        Err(m) => Err(trap(m)),
    }
}

fn eval_binary(op: BinOp, l: Value, r: Value) -> (x: Result<Value, Signal>)
    ensures
        outcome(x) == semantics::binary(op, l@, r@),
{
    if op.is_comparison() {
        return match (&l, &r) {
            (Value::Int(a, _), Value::Int(b, _)) => Ok(Value::Bool(compare_int(op, *a, *b))),
            (Value::Bit(a, _), Value::Bit(b, _)) => Ok(Value::Bool(compare_bit(op, *a, *b))),
            (Value::Bool(a), Value::Bool(b)) => match op {
                BinOp::Eq => Ok(Value::Bool(*a == *b)),
                BinOp::Ne => Ok(Value::Bool(*a != *b)),
                _ => Err(rt("cannot order booleans")),
            },
            _ => Err(rt("comparison of incompatible values")),
        };
    }
    let shift = match op {
        BinOp::Shl => true,
        BinOp::Shr => true,
        _ => false,
    };
    if shift {
        let amount = whole_of(&r).low();
        proof {
            arith::lemma_signed_pattern(semantics::int_of(r@));
        }
        return match l {
            Value::Int(a, it) => int_result(int_arith(op, a, amount, it), it),
            Value::Bit(a, w) => bit_result(bit_arith(op, a, pattern(amount), w), w),
            _ => Err(rt("shift of a non-integer value")),
        };
    }
    match (l, r) {
        (Value::Int(a, it), Value::Int(b, _)) => int_result(int_arith(op, a, b, it), it),
        (Value::Bit(a, w), Value::Bit(b, _)) => bit_result(bit_arith(op, a, b, w), w),
        _ => Err(rt("arithmetic on incompatible values")),
    }
}

fn field_of(v: Value, index: usize) -> (r: Result<Value, Signal>)
    ensures
        outcome(r) == semantics::field_of(v@, index),
{
    match &v {
        Value::Struct(_, xs) => if index < xs.len() {
            assert(value::values_of(xs@)[index as int] == xs[index as int]@);
            Ok(xs[index].dup())
        } else {
            Err(rt("field index out of range"))
        },
        _ => Err(rt("field access on non-struct value")),
    }
}

fn tuple_part(v: Value, index: usize) -> (r: Result<Value, Signal>)
    ensures
        outcome(r) == semantics::tuple_part(v@, index),
{
    match &v {
        Value::Tuple(xs) => if index < xs.len() {
            assert(value::values_of(xs@)[index as int] == xs[index as int]@);
            Ok(xs[index].dup())
        } else {
            Err(rt("tuple index out of range"))
        },
        _ => Err(rt("tuple access on non-tuple value")),
    }
}

fn indexed(v: Value, idx: Whole) -> (r: Result<Value, Signal>)
    ensures
        outcome(r) == semantics::indexed(v@, idx.value()),
{
    match &v {
        Value::Array(xs) => {
            let i = bounds_check(idx, xs.len())?;
            assert(value::values_of(xs@)[i as int] == xs[i as int]@);
            Ok(xs[i].dup())
        },
        _ => Err(rt("indexing a non-array value")),
    }
}

fn with_field(cur: Value, index: usize, v: Value) -> (r: Result<Value, Signal>)
    ensures
        outcome(r) == semantics::with_field(cur@, index, v@),
{
    match cur {
        Value::Struct(n, xs) => if index < xs.len() {
            let ys = replaced(xs, index, v);
            Ok(Value::Struct(n, ys))
        } else {
            Err(rt("field index out of range"))
        },
        _ => Err(rt("field assignment on non-struct value")),
    }
}

fn with_part(cur: Value, index: usize, v: Value) -> (r: Result<Value, Signal>)
    ensures
        outcome(r) == semantics::with_part(cur@, index, v@),
{
    match cur {
        Value::Tuple(xs) => if index < xs.len() {
            let ys = replaced(xs, index, v);
            Ok(Value::Tuple(ys))
        } else {
            Err(rt("tuple index out of range"))
        },
        _ => Err(rt("tuple assignment on non-tuple value")),
    }
}

fn with_element(cur: Value, idx: Whole, v: Value) -> (r: Result<Value, Signal>)
    ensures
        outcome(r) == semantics::with_element(cur@, idx.value(), v@),
{
    match cur {
        Value::Array(xs) => {
            let i = bounds_check(idx, xs.len())?;
            let ys = replaced(xs, i, v);
            Ok(Value::Array(ys))
        },
        _ => Err(rt("index assignment on non-array value")),
    }
}

fn replaced(xs: Vec<Value>, i: usize, v: Value) -> (r: Vec<Value>)
    requires
        i < xs.len(),
    ensures
        value::values_of(r@) == value::values_of(xs@).update(i as int, v@),
{
    let mut ys = xs;
    let ghost want = value::values_of(ys@).update(i as int, v@);
    ys[i] = v;
    assert(value::values_of(ys@) =~= want);
    ys
}

// ---- evaluation ---------------------------------------------------------

fn eval_args(m: &Module, fuel: u64, es: &Vec<Expr>, env: &mut Env, st: &mut Store) -> (r: Result<
    Vec<Value>,
    Signal,
>)
    ensures
        (outcomes(r), mem(final(env)@, *final(st))) == semantics::eval_args(
            m@,
            fuel as nat,
            ir::exprs_of(es@),
            0,
            Seq::empty(),
            mem(old(env)@, *old(st)),
        ),
    decreases fuel, 1int, 0int,
{
    broadcast use ir::group_model;

    let ghost mes = ir::exprs_of(es@);
    let ghost s0 = mem(env@, *st);
    let mut vals: Vec<Value> = Vec::new();
    assert(value::values_of(vals@) =~= Seq::<VVal>::empty());
    let mut i: usize = 0;
    while i < es.len()
        invariant
            i <= es.len(),
            mes == ir::exprs_of(es@),
            s0 == mem(old(env)@, *old(st)),
            semantics::eval_args(m@, fuel as nat, mes, 0, Seq::empty(), s0)
                == semantics::eval_args(
                m@,
                fuel as nat,
                mes,
                i as int,
                value::values_of(vals@),
                mem(env@, *st),
            ),
        decreases es.len() - i,
    {
        broadcast use ir::group_model;

        assert(mes[i as int] == es[i as int]@);
        let ghost before = value::values_of(vals@);
        match eval_expr(m, fuel, &es[i], env, st) {
            Err(x) => {
                return Err(x);
            },
            Ok(v) => {
                vals.push(v);
                assert(value::values_of(vals@) =~= before.push(v@));
            },
        }
        i += 1;
    }
    Ok(vals)
}

fn eval_arms(
    m: &Module,
    fuel: u64,
    arms: &Vec<Arm>,
    v: &Value,
    env: &mut Env,
    st: &mut Store,
) -> (r: Result<Value, Signal>)
    ensures
        (outcome(r), mem(final(env)@, *final(st))) == semantics::eval_arms(
            m@,
            fuel as nat,
            ir::arms_of(arms@),
            0,
            v@,
            mem(old(env)@, *old(st)),
        ),
    decreases fuel, 1int, 0int,
{
    broadcast use ir::group_model;

    let ghost marms = ir::arms_of(arms@);
    let ghost s0 = mem(env@, *st);
    let mut i: usize = 0;
    while i < arms.len()
        invariant
            i <= arms.len(),
            marms == ir::arms_of(arms@),
            s0 == mem(old(env)@, *old(st)),
            semantics::eval_arms(m@, fuel as nat, marms, 0, v@, s0) == semantics::eval_arms(
                m@,
                fuel as nat,
                marms,
                i as int,
                v@,
                mem(env@, *st),
            ),
        decreases arms.len() - i,
    {
        let arm = &arms[i];
        broadcast use ir::group_model;

        reveal(Arm::model);
        reveal(Pattern::model);
        reveal(Expr::model);
        assert(marms[i as int] == arm@);
        let n = env.len();
        if pattern_matches(&arm.pattern, v, env) {
            match &arm.guard {
                None => {
                    let x = eval_expr(m, fuel, &arm.body, env, st);
                    cut_env(env, n);
                    return x;
                },
                Some(g) => {
                    match eval_expr(m, fuel, g, env, st) {
                        Err(x) => {
                            cut_env(env, n);
                            return Err(x);
                        },
                        Ok(c) => {
                            let hold = match c {
                                Value::Bool(b) => b,
                                _ => false,
                            };
                            if hold {
                                let x = eval_expr(m, fuel, &arm.body, env, st);
                                cut_env(env, n);
                                return x;
                            }
                            cut_env(env, n);
                        },
                    }
                },
            }
        }
        i += 1;
    }
    Err(rt("internal error: no match arm matched (non-exhaustive?)"))
}

fn const_value(m: &Module, fuel: u64, name: &String, env: &mut Env, st: &mut Store) -> (r: Result<
    Value,
    Signal,
>)
    ensures
        (outcome(r), mem(final(env)@, *final(st))) == semantics::eval_const(
            m@,
            fuel as nat,
            name@,
            mem(old(env)@, *old(st)),
        ),
    decreases fuel, 1int, 0int,
{
    if let Some(v) = st.cache.get(name.as_str()) {
        return Ok(v.dup());
    }
    match m.consts.get(name.as_str()) {
        None => {
            let msg = cat3("reference to unknown const `", name.as_str(), "`");
            Err(trap(msg))
        },
        Some(d) => {
            let mut fresh: Env = Vec::new();
            assert(env::locals(fresh@) =~= Seq::<(Text, VVal)>::empty());
            match eval_expr(m, fuel, &d.init, &mut fresh, st) {
                Err(Signal::Return(v)) => {
                    st.cache.insert(name.clone(), v.dup());
                    Ok(v)
                },
                Err(x) => Err(x),
                Ok(v) => {
                    st.cache.insert(name.clone(), v.dup());
                    Ok(v)
                },
            }
        },
    }
}

#[verifier::rlimit(60)]
#[verifier::spinoff_prover]
fn eval_expr(m: &Module, fuel: u64, e: &Expr, env: &mut Env, st: &mut Store) -> (r: Result<
    Value,
    Signal,
>)
    ensures
        (outcome(r), mem(final(env)@, *final(st))) == semantics::eval_expr(
            m@,
            fuel as nat,
            e@,
            mem(old(env)@, *old(st)),
        ),
    decreases fuel, 0int, 0int,
{
    reveal(Expr::model);
    reveal(ExprKind::model);
    reveal(Block::model);
    reveal(Type::model);
    if fuel == 0 {
        return Err(Signal::Exhausted);
    }
    let f = fuel - 1;
    match &e.kind {
        ExprKind::Int(v) => Ok(make_int_value(*v, &e.ty)),
        ExprKind::Bool(b) => Ok(Value::Bool(*b)),
        ExprKind::Unit => Ok(Value::Unit),
        ExprKind::Local(name) => read_local(name, env),
        ExprKind::ConstRef(name) => const_value(m, f, name, env, st),
        ExprKind::Unary { op, expr } => {
            let v = eval_expr(m, f, expr, env, st)?;
            eval_unary(*op, v)
        },
        ExprKind::Binary { op, lhs, rhs } => {
            let l = eval_expr(m, f, lhs, env, st)?;
            if op.is_logical() {
                let b = as_bool(&l)?;
                let stop = match op {
                    BinOp::Or => true,
                    _ => false,
                };
                if b == stop {
                    return Ok(Value::Bool(b));
                }
                let r = eval_expr(m, f, rhs, env, st)?;
                let c = as_bool(&r)?;
                return Ok(Value::Bool(c));
            }
            let r = eval_expr(m, f, rhs, env, st)?;
            eval_binary(*op, l, r)
        },
        ExprKind::Call { func, args } => {
            let vals = eval_args(m, f, args, env, st)?;
            call_func(m, f, func, vals, env, st)
        },
        ExprKind::Print { arg } => {
            let v = eval_expr(m, f, arg, env, st)?;
            let line = format_value(m, &v);
            st.output.push(line);
            Ok(Value::Unit)
        },
        ExprKind::MakeStruct { name, fields } => {
            let vals = eval_args(m, f, fields, env, st)?;
            Ok(Value::Struct(name.clone(), vals))
        },
        ExprKind::MakeEnum { name, tag, args } => {
            let vals = eval_args(m, f, args, env, st)?;
            Ok(Value::Enum(name.clone(), *tag, vals))
        },
        ExprKind::MakeTuple(es) => {
            let vals = eval_args(m, f, es, env, st)?;
            Ok(Value::Tuple(vals))
        },
        ExprKind::Field { base, index } => {
            let v = eval_expr(m, f, base, env, st)?;
            field_of(v, *index)
        },
        ExprKind::TupleField { base, index } => {
            let v = eval_expr(m, f, base, env, st)?;
            tuple_part(v, *index)
        },
        ExprKind::Index { base, index } => {
            let b = eval_expr(m, f, base, env, st)?;
            let i = eval_expr(m, f, index, env, st)?;
            indexed(b, whole_of(&i))
        },
        ExprKind::Array(es) => {
            let vals = eval_args(m, f, es, env, st)?;
            Ok(Value::Array(vals))
        },
        ExprKind::If { cond, then_branch, else_branch } => {
            let c = eval_expr(m, f, cond, env, st)?;
            let b = as_bool(&c)?;
            if b {
                eval_block(m, f, then_branch, env, st)
            } else {
                eval_block(m, f, else_branch, env, st)
            }
        },
        ExprKind::Match { scrutinee, arms } => {
            let v = eval_expr(m, f, scrutinee, env, st)?;
            eval_arms(m, f, arms, &v, env, st)
        },
        ExprKind::Block(b) => eval_block(m, f, b, env, st),
    }
}

/// Read the current value at a place (a copy: value semantics).
fn load(m: &Module, fuel: u64, p: &Place, env: &mut Env, st: &mut Store) -> (r: Result<
    Value,
    Signal,
>)
    ensures
        (outcome(r), mem(final(env)@, *final(st))) == semantics::load(
            m@,
            fuel as nat,
            p@,
            mem(old(env)@, *old(st)),
        ),
    decreases fuel, 1int, semantics::place_depth(p@) as int,
{
    reveal(Place::model);
    reveal(Expr::model);
    match p {
        Place::Local { name, ty: _ } => read_local(name, env),
        Place::Field { base, index, ty: _ } => {
            let v = load(m, fuel, base, env, st)?;
            field_of(v, *index)
        },
        Place::TupleField { base, index, ty: _ } => {
            let v = load(m, fuel, base, env, st)?;
            tuple_part(v, *index)
        },
        Place::Index { base, index, ty: _ } => {
            let i = eval_expr(m, fuel, index, env, st)?;
            let v = load(m, fuel, base, env, st)?;
            indexed(v, whole_of(&i))
        },
    }
}

/// Assign to a place by functional update along its path.
fn store(m: &Module, fuel: u64, p: &Place, v: Value, env: &mut Env, st: &mut Store) -> (r: Result<
    (),
    Signal,
>)
    ensures
        (done(r), mem(final(env)@, *final(st))) == semantics::store(
            m@,
            fuel as nat,
            p@,
            v@,
            mem(old(env)@, *old(st)),
        ),
    decreases fuel, 2int, semantics::place_depth(p@) as int,
{
    reveal(Place::model);
    reveal(Expr::model);
    match p {
        Place::Local { name, ty: _ } => match find_slot(env, name.as_str()) {
            Some(q) => {
                env[q] = (name.clone(), v);
                Ok(())
            },
            None => {
                let msg = cat3("assignment to unbound variable `", name.as_str(), "`");
                Err(trap(msg))
            },
        },
        Place::Field { base, index, ty: _ } => {
            let cur = load(m, fuel, base, env, st)?;
            let next = with_field(cur, *index, v)?;
            store(m, fuel, base, next, env, st)
        },
        Place::TupleField { base, index, ty: _ } => {
            let cur = load(m, fuel, base, env, st)?;
            let next = with_part(cur, *index, v)?;
            store(m, fuel, base, next, env, st)
        },
        Place::Index { base, index, ty: _ } => {
            let i = eval_expr(m, fuel, index, env, st)?;
            let cur = load(m, fuel, base, env, st)?;
            let next = with_element(cur, whole_of(&i), v)?;
            store(m, fuel, base, next, env, st)
        },
    }
}

fn eval_while(m: &Module, fuel: u64, cond: &Expr, body: &Block, env: &mut Env, st: &mut Store) -> (r:
    Result<(), Signal>)
    ensures
        (done(r), mem(final(env)@, *final(st))) == semantics::eval_while(
            m@,
            fuel as nat,
            cond@,
            body@,
            mem(old(env)@, *old(st)),
        ),
    decreases fuel, 6int, 0int,
{
    let ghost s0 = mem(env@, *st);
    let mut left: u64 = fuel;
    while left > 0
        invariant
            left <= fuel,
            s0 == mem(old(env)@, *old(st)),
            semantics::eval_while(m@, fuel as nat, cond@, body@, s0) == semantics::eval_while(
                m@,
                left as nat,
                cond@,
                body@,
                mem(env@, *st),
            ),
        decreases left,
    {
        let c = eval_expr(m, left - 1, cond, env, st)?;
        let go = match c {
            Value::Bool(b) => b,
            _ => false,
        };
        if !go {
            return Ok(());
        }
        match eval_block(m, left - 1, body, env, st) {
            Err(x) => {
                return Err(x);
            },
            Ok(_) => {},
        }
        left = left - 1;
    }
    Err(Signal::Exhausted)
}

fn eval_for(
    m: &Module,
    fuel: u64,
    var: &String,
    ty: &Type,
    lo: Whole,
    hi: Whole,
    body: &Block,
    env: &mut Env,
    st: &mut Store,
) -> (r: Result<(), Signal>)
    ensures
        (done(r), mem(final(env)@, *final(st))) == semantics::eval_for(
            m@,
            fuel as nat,
            var@,
            ty@,
            lo.value(),
            hi.value(),
            body@,
            mem(old(env)@, *old(st)),
        ),
    decreases fuel, 6int, 0int,
{
    let ghost s0 = mem(env@, *st);
    let mut i = lo;
    while i.below(hi)
        invariant
            lo.value() <= i.value(),
            s0 == mem(old(env)@, *old(st)),
            semantics::eval_for(m@, fuel as nat, var@, ty@, lo.value(), hi.value(), body@, s0)
                == semantics::eval_for(
                m@,
                fuel as nat,
                var@,
                ty@,
                i.value(),
                hi.value(),
                body@,
                mem(env@, *st),
            ),
        decreases hi.value() - i.value(),
    {
        let n = env.len();
        env.push((var.clone(), make_value(i, ty)));
        let r = eval_block(m, fuel, body, env, st);
        cut_env(env, n);
        match r {
            Err(x) => {
                return Err(x);
            },
            Ok(_) => {},
        }
        i = i.next(hi);
    }
    Ok(())
}

fn eval_stmt(m: &Module, fuel: u64, s: &Stmt, env: &mut Env, st: &mut Store) -> (r: Result<
    (),
    Signal,
>)
    ensures
        (done(r), mem(final(env)@, *final(st))) == semantics::eval_stmt(
            m@,
            fuel as nat,
            s@,
            mem(old(env)@, *old(st)),
        ),
    decreases fuel, 3int, 0int,
{
    reveal(Stmt::model);
    reveal(Expr::model);
    reveal(Place::model);
    reveal(Block::model);
    reveal(Type::model);
    match s {
        Stmt::Let { name, mutable: _, ty: _, init } => {
            let v = eval_expr(m, fuel, init, env, st)?;
            env.push((name.clone(), v));
            Ok(())
        },
        Stmt::Assign { place, value } => {
            let v = eval_expr(m, fuel, value, env, st)?;
            store(m, fuel, place, v, env, st)
        },
        Stmt::While { cond, body } => {
            if fuel == 0 {
                return Err(Signal::Exhausted);
            }
            eval_while(m, fuel - 1, cond, body, env, st)
        },
        Stmt::For { var, ty, lo, hi, body } => {
            let a = eval_expr(m, fuel, lo, env, st)?;
            let b = eval_expr(m, fuel, hi, env, st)?;
            if fuel == 0 {
                return Err(Signal::Exhausted);
            }
            eval_for(m, fuel - 1, var, ty, whole_of(&a), whole_of(&b), body, env, st)
        },
        Stmt::Return { value } => match value {
            None => Err(Signal::Return(Value::Unit)),
            Some(e) => {
                let v = eval_expr(m, fuel, e, env, st)?;
                Err(Signal::Return(v))
            },
        },
        Stmt::Expr(e) => {
            eval_expr(m, fuel, e, env, st)?;
            Ok(())
        },
    }
}

fn eval_block(m: &Module, fuel: u64, b: &Block, env: &mut Env, st: &mut Store) -> (r: Result<
    Value,
    Signal,
>)
    ensures
        (outcome(r), mem(final(env)@, *final(st))) == semantics::eval_block(
            m@,
            fuel as nat,
            b@,
            mem(old(env)@, *old(st)),
        ),
    decreases fuel, 5int, 0int,
{
    reveal(Block::model);
    reveal(Expr::model);
    let n = env.len();
    match eval_stmts(m, fuel, &b.stmts, env, st) {
        Err(x) => {
            cut_env(env, n);
            Err(x)
        },
        Ok(_) => match &b.tail {
            None => {
                cut_env(env, n);
                Ok(Value::Unit)
            },
            Some(e) => {
                let r = eval_expr(m, fuel, e, env, st);
                cut_env(env, n);
                r
            },
        },
    }
}

fn eval_stmts(m: &Module, fuel: u64, stmts: &Vec<Stmt>, env: &mut Env, st: &mut Store) -> (r:
    Result<(), Signal>)
    ensures
        (done(r), mem(final(env)@, *final(st))) == semantics::eval_stmts(
            m@,
            fuel as nat,
            ir::stmts_of(stmts@),
            0,
            mem(old(env)@, *old(st)),
        ),
    decreases fuel, 4int, 0int,
{
    broadcast use ir::group_model;

    let ghost ms = ir::stmts_of(stmts@);
    let ghost s0 = mem(env@, *st);
    let mut i: usize = 0;
    while i < stmts.len()
        invariant
            i <= stmts.len(),
            ms == ir::stmts_of(stmts@),
            s0 == mem(old(env)@, *old(st)),
            semantics::eval_stmts(m@, fuel as nat, ms, 0, s0) == semantics::eval_stmts(
                m@,
                fuel as nat,
                ms,
                i as int,
                mem(env@, *st),
            ),
        decreases stmts.len() - i,
    {
        broadcast use ir::group_model;

        assert(ms[i as int] == stmts[i as int]@);
        match eval_stmt(m, fuel, &stmts[i], env, st) {
            Err(x) => {
                return Err(x);
            },
            Ok(_) => {},
        }
        i += 1;
    }
    Ok(())
}

fn bind_params(ps: &Vec<Param>, args: &Vec<Value>) -> (r: Env)
    ensures
        env::locals(r@) == semantics::bind_params(ir::params_of(ps@), value::values_of(args@)),
{
    broadcast use ir::group_model;

    let mut env: Env = Vec::new();
    let mut i: usize = 0;
    while i < ps.len() && i < args.len()
        invariant
            i <= ps.len(),
            i <= args.len(),
            env.len() == i,
            forall|j: int|
                0 <= j < i ==> (#[trigger] env[j]).0@ == ps[j].name@ && env[j].1@ == args[j]@,
        decreases ps.len() - i,
    {
        env.push((ps[i].name.clone(), args[i].dup()));
        i += 1;
    }
    assert(env::locals(env@) =~= semantics::bind_params(ir::params_of(ps@), value::values_of(args@)));
    env
}

fn call_func(
    m: &Module,
    fuel: u64,
    name: &String,
    args: Vec<Value>,
    env: &mut Env,
    st: &mut Store,
) -> (r: Result<Value, Signal>)
    ensures
        (outcome(r), mem(final(env)@, *final(st))) == semantics::call_func(
            m@,
            fuel as nat,
            name@,
            value::values_of(args@),
            mem(old(env)@, *old(st)),
        ),
    decreases fuel, 6int, 0int,
{
    match m.funcs.get(name.as_str()) {
        None => {
            let msg = cat3("call to unknown function `", name.as_str(), "`");
            Err(trap(msg))
        },
        Some(fd) => {
            let mut callee = bind_params(&fd.params, &args);
            match eval_block(m, fuel, &fd.body, &mut callee, st) {
                Ok(v) => Ok(v),
                Err(Signal::Return(v)) => Ok(v),
                Err(x) => Err(x),
            }
        },
    }
}

// ---- the interpreter ----------------------------------------------------

/// The allowance of a call from outside the program.
pub const ALLOWANCE: u64 = 0xffff_ffff_ffff_ffff;

/// The interpreter owns the typed module (the swappable set of definitions) and
/// the captured `print` output.
#[derive(Debug)]
pub struct Interpreter {
    pub module: Module,
    pub store: Store,
}

pub open spec fn verdict(r: Result<Value, Diagnostic>) -> Result<VVal, Diag> {
    match r {
        Ok(v) => Ok(v@),
        Err(d) => Err(d@),
    }
}

fn settle(r: Result<Value, Signal>) -> (x: Result<Value, Diagnostic>)
    ensures
        verdict(x) == semantics::settled(outcome(r)),
{
    match r {
        Ok(v) => Ok(v),
        Err(Signal::Return(v)) => Ok(v),
        Err(Signal::Error(d)) => Err(d),
        Err(Signal::Exhausted) => Err(
            Diagnostic::new(
                Stage::Runtime,
                "evaluation did not end within its allowance".to_string(),
                Span::dummy(),
            ),
        ),
    }
}

/// There is no `main` to run.
pub open spec fn no_main() -> Diag {
    Diag {
        stage: Stage::Runtime,
        message: "no `main` function to run"@,
        span: Span::nowhere(),
    }
}

impl Interpreter {
    /// The memory in which a call from outside the program starts.
    pub open spec fn memory(&self) -> Mem {
        Mem {
            env: Seq::empty(),
            out: text::texts(self.store.output@),
            cache: self.store.cache@,
        }
    }

    /// The interpreter's module is that of `before`, and its store is what `s`
    /// says.
    pub open spec fn became(&self, before: Interpreter, s: Mem) -> bool {
        &&& self.module == before.module
        &&& text::texts(self.store.output@) == s.out
        &&& self.store.cache@ == s.cache
    }

    /// An interpreter for `module` that has printed nothing.
    pub fn new(module: Module) -> (r: Interpreter)
        ensures
            r.module == module,
            r.memory() == memory::afresh(Seq::empty()),
    {
        let r = Interpreter {
            module,
            store: Store { output: Vec::new(), cache: NameMap::new() },
        };
        assert(text::texts(r.store.output@) =~= Seq::<Text>::empty());
        r
    }

    /// The module currently being interpreted.
    pub fn module(&self) -> (r: &Module)
        ensures
            *r == self.module,
    {
        &self.module
    }

    /// Replace the live module; constants are evaluated anew.
    pub fn set_module(&mut self, module: Module)
        ensures
            final(self).module == module,
            final(self).store.output == old(self).store.output,
            final(self).memory() == memory::afresh(old(self).memory().out),
    {
        self.module = module;
        self.store.cache = NameMap::new();
    }

    /// All captured `print` lines so far.
    pub fn output(&self) -> (r: &Vec<String>)
        ensures
            *r == self.store.output,
    {
        &self.store.output
    }

    /// Take and clear the captured output.
    pub fn take_output(&mut self) -> (r: Vec<String>)
        ensures
            r == old(self).store.output,
            final(self).store.output@ == Seq::<String>::empty(),
            final(self).module == old(self).module,
            final(self).store.cache == old(self).store.cache,
    {
        let mut out: Vec<String> = Vec::new();
        std::mem::swap(&mut out, &mut self.store.output);
        out
    }

    /// Evaluate a constant by its full name. The value is kept, so that a second
    /// call does not evaluate again.
    pub fn eval_const(&mut self, name: &str) -> (r: Result<Value, Diagnostic>)
        ensures
            ({
                let (x, s) = semantics::eval_const(
                    old(self).module@,
                    (ALLOWANCE - 1) as nat,
                    name@,
                    old(self).memory(),
                );
                &&& verdict(r) == semantics::settled(x)
                &&& final(self).became(*old(self), s)
            }),
    {
        let mut env: Env = Vec::new();
        assert(env::locals(env@) =~= Seq::<(Text, VVal)>::empty());
        let n = name.to_string();
        let r = const_value(&self.module, ALLOWANCE - 1, &n, &mut env, &mut self.store);
        settle(r)
    }

    /// Run `main()` and return the lines that this run printed. Errors are returned as a
    /// single runtime [`Diagnostic`].
    pub fn run_main(&mut self) -> (r: Result<Vec<String>, Diagnostic>)
        ensures
            ({
                let (x, s) = semantics::call_func(
                    old(self).module@,
                    ALLOWANCE as nat,
                    "main"@,
                    Seq::empty(),
                    old(self).memory(),
                );
                if name_map::find(old(self).module@.funcs, "main"@) is None {
                    &&& r matches Err(d) && d@ == no_main()
                    &&& *final(self) == *old(self)
                } else {
                    &&& final(self).became(*old(self), s)
                    &&& match r {
                        Ok(lines) => semantics::settled(x) is Ok && s.out
                            == old(self).memory().out + text::texts(lines@),
                        Err(d) => semantics::settled(x) == Err::<VVal, Diag>(d@),
                    }
                }
            }),
    {
        if !self.module.funcs.contains_key("main") {
            return Err(
                Diagnostic::new(
                    Stage::Runtime,
                    "no `main` function to run".to_string(),
                    Span::dummy(),
                ),
            );
        }
        let args: Vec<Value> = Vec::new();
        assert(value::values_of(args@) =~= Seq::<VVal>::empty());
        let n = self.store.output.len();
        let ghost s0 = self.memory();
        assert(s0.out.len() == n);
        self.call("main", args)?;
        proof {
            memory::law_calls_ignore_output(
                self.module@,
                ALLOWANCE as nat,
                "main"@,
                Seq::empty(),
                s0,
            );
        }
        assert(self.memory().out.len() == self.store.output.len());
        let lines = texts_from(&self.store.output, n);
        assert(self.memory().out =~= s0.out + text::texts(lines@));
        Ok(lines)
    }

    /// Call a function by name with already-evaluated argument values.
    pub fn call(&mut self, name: &str, args: Vec<Value>) -> (r: Result<Value, Diagnostic>)
        ensures
            ({
                let (x, s) = semantics::call_func(
                    old(self).module@,
                    ALLOWANCE as nat,
                    name@,
                    value::values_of(args@),
                    old(self).memory(),
                );
                &&& verdict(r) == semantics::settled(x)
                &&& final(self).became(*old(self), s)
            }),
    {
        let mut env: Env = Vec::new();
        assert(env::locals(env@) =~= Seq::<(Text, VVal)>::empty());
        let n = name.to_string();
        let r = call_func(&self.module, ALLOWANCE, &n, args, &mut env, &mut self.store);
        settle(r)
    }
}

} // verus!
