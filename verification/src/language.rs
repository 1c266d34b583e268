//! What the language promises of single constructs: arithmetic wraps, shifts are
//! total, traps are defined, assignment changes one variable, literals fit, and
//! there are no implicit conversions.

use crate::arith;
use crate::ast;
use crate::ir::{BinOp, IntTy, TExpr, TModule, TPlace, TType};
use crate::semantics::{self, Flow, Mem};
use crate::span::Span;
use crate::text::Text;
use crate::typing;
use crate::value::VVal;
use crate::wires;
use vstd::arithmetic::power2::*;
use vstd::prelude::*;

verus! {

/// Integer arithmetic never overflows: a sum, difference or product of integers of
/// a type is the integer of that type that differs from the exact result by a
/// multiple of `2^w`.
pub proof fn law_integer_arithmetic_wraps(op: BinOp, a: i128, b: i128, it: IntTy)
    requires
        op is Add || op is Sub || op is Mul,
    ensures
        ({
            let exact = match op {
                BinOp::Add => a + b,
                BinOp::Sub => a - b,
                _ => a * b,
            };
            semantics::binary(op, VVal::Int(a, it), VVal::Int(b, it)) matches Ok(VVal::Int(r, t))
                && t == it && arith::in_range(r as int, it) && arith::wrap(r as int, it.width)
                == arith::wrap(exact, it.width)
        }),
{
    let exact = match op {
        BinOp::Add => a + b,
        BinOp::Sub => a - b,
        _ => a * b,
    };
    arith::law_norm_range(exact, it);
    arith::lemma_two128();
}

/// Arithmetic on `bit<w>` values is arithmetic modulo `2^w`.
pub proof fn law_bit_arithmetic_wraps(op: BinOp, a: u128, b: u128, w: u32)
    requires
        op is Add || op is Sub || op is Mul,
    ensures
        ({
            let exact = match op {
                BinOp::Add => a + b,
                BinOp::Sub => a - b,
                _ => a * b,
            };
            semantics::binary(op, VVal::Bit(a, w), VVal::Bit(b, w)) matches Ok(VVal::Bit(r, t)) && t
                == w && r == arith::wrap(exact, w) && r < pow2(arith::bits_of_width(w))
        }),
{
    let exact = match op {
        BinOp::Add => a + b,
        BinOp::Sub => a - b,
        _ => a * b,
    };
    arith::law_wrap_range(exact, w);
}

/// Shifts are total: whatever the amount, a shift of an integer gives an integer of
/// the same type.
pub proof fn law_shifts_are_total(op: BinOp, l: VVal, r: VVal)
    requires
        op is Shl || op is Shr,
        l is Int || l is Bit,
    ensures
        match l {
            VVal::Int(_, it) => semantics::binary(op, l, r) matches Ok(VVal::Int(_, t)) && t == it,
            VVal::Bit(_, w) => semantics::binary(op, l, r) matches Ok(VVal::Bit(_, t)) && t == w,
            _ => false,
        },
{
}

/// The amount of a shift counts modulo the width of what is shifted.
pub proof fn law_shift_amounts_are_reduced(op: BinOp, a: u128, b: u128, c: u128, w: u32)
    requires
        op is Shl || op is Shr,
        1 <= w <= 128,
        b as int % (w as int) == c as int % (w as int),
    ensures
        arith::bit_op(op, a, b, w) == arith::bit_op(op, a, c, w),
{
    arith::lemma_two128();
    vstd::arithmetic::div_mod::lemma_small_mod(b as nat, arith::two128() as nat);
    vstd::arithmetic::div_mod::lemma_small_mod(c as nat, arith::two128() as nat);
}

/// Dividing by zero is a defined trap, and so is taking a remainder.
pub proof fn law_division_by_zero_traps(a: i128, it: IntTy, x: u128, w: u32)
    ensures
        semantics::binary(BinOp::Div, VVal::Int(a, it), VVal::Int(0, it)) == Err::<VVal, Flow>(
            semantics::trap("division by zero"@),
        ),
        semantics::binary(BinOp::Rem, VVal::Int(a, it), VVal::Int(0, it)) == Err::<VVal, Flow>(
            semantics::trap("remainder by zero"@),
        ),
        semantics::binary(BinOp::Div, VVal::Bit(x, w), VVal::Bit(0, w)) == Err::<VVal, Flow>(
            semantics::trap("division by zero"@),
        ),
        semantics::binary(BinOp::Rem, VVal::Bit(x, w), VVal::Bit(0, w)) == Err::<VVal, Flow>(
            semantics::trap("remainder by zero"@),
        ),
{
}

/// Indexing an array gives the element, or traps where there is none.
pub proof fn law_indexing_is_checked(xs: Seq<VVal>, i: int)
    ensures
        0 <= i < xs.len() ==> semantics::indexed(VVal::Array(xs), i) == Ok::<VVal, Flow>(xs[i]),
        !(0 <= i < xs.len()) ==> semantics::indexed(VVal::Array(xs), i) == Err::<VVal, Flow>(
            semantics::out_of_bounds(i, xs.len()),
        ),
{
}

/// Assigning to a variable sets that variable and no other.
pub proof fn law_assignment_sets_one_variable(
    m: TModule,
    fuel: nat,
    name: Text,
    ty: TType,
    v: VVal,
    s: Mem,
    other: Text,
)
    requires
        semantics::slot(s.env, name) is Some,
    ensures
        ({
            let (r, s1) = semantics::store(m, fuel, TPlace::Local { name, ty }, v, s);
            &&& r is Ok
            &&& semantics::read_local(name, s1.env) == Ok::<VVal, Flow>(v)
            &&& other != name ==> semantics::read_local(other, s1.env) == semantics::read_local(
                other,
                s.env,
            )
            &&& s1.out == s.out
            &&& s1.cache == s.cache
        }),
{
    let q = semantics::slot(s.env, name)->Some_0;
    wires::lemma_slot_bound(s.env, name, s.env.len() as int);
    let env1 = s.env.update(q, (name, v));
    assert forall|i: int| 0 <= i < s.env.len() implies (#[trigger] s.env[i]).0 == env1[i].0 by {}
    wires::lemma_slot_same(s.env, env1, name, s.env.len() as int);
    wires::lemma_slot_same(s.env, env1, other, s.env.len() as int);
    if other != name && semantics::slot(s.env, other) is Some {
        wires::lemma_slot_bound(s.env, other, s.env.len() as int);
    }
}

/// An integer literal is accepted only where it fits its type.
pub proof fn law_literals_fit(value: i128, span: Span, expected: Option<TType>)
    ensures
        typing::int_rule(value, span, expected) matches Ok(e) ==> e.ty.is_integer() && typing::fits(
            value as int,
            e.ty,
        ) && (expected matches Some(t) ==> (t.is_integer() ==> e.ty == t)),
{
    reveal(typing::int_rule);
}

/// There are no implicit conversions: an operator that is no shift takes operands of
/// one type. A comparison gives a `bool`, and any other operator that type.
pub proof fn law_no_implicit_conversions(op: ast::BinOp, l: TExpr, r: TExpr, span: Span)
    ensures
        l.ty != r.ty ==> typing::operator_rule(op, l, r, span) is Err,
        typing::operator_rule(op, l, r, span) matches Ok(e) ==> e.ty == if typing::lower_op(
            op,
        ).comparing() {
            TType::Bool
        } else {
            l.ty
        },
{
    reveal(typing::operator_rule);
}

} // verus!
