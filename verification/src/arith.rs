//! Wrapping arithmetic on machine integers and bit-vectors.
//!
//! Every operation is stated over mathematical integers and then reduced into
//! the range of the type: modulo `2^w` for `bit<w>` and unsigned integers, to
//! the two's-complement range for signed ones. Widths of 128 and more are taken
//! as 128.

use crate::ir::{BinOp, IntTy};
use crate::text::Text;
use vstd::arithmetic::div_mod::*;
use vstd::arithmetic::power2::*;
use vstd::prelude::*;

verus! {

/// `2^128`.
pub open spec fn two128() -> int {
    0x1_0000_0000_0000_0000_0000_0000_0000_0000int
}

/// The number of bits that a width stands for.
pub open spec fn bits_of_width(w: u32) -> nat {
    if w >= 128 {
        128
    } else {
        w as nat
    }
}

/// `x` modulo `2^w`.
pub open spec fn wrap(x: int, w: u32) -> int {
    x % (pow2(bits_of_width(w)) as int)
}

/// `x` reduced into the range of the integer type `it`.
pub open spec fn norm(x: int, it: IntTy) -> int {
    let e = bits_of_width(it.width);
    let m = wrap(x, it.width);
    if (it.signed || it.width >= 128) && e > 0 && m >= pow2((e - 1) as nat) {
        m - pow2(e)
    } else {
        m
    }
}

/// The 128-bit two's-complement reading of `x`.
pub open spec fn signed128(x: int) -> int {
    let m = x % two128();
    if m >= two128() / 2 {
        m - two128()
    } else {
        m
    }
}

pub open spec fn magnitude(a: int) -> int {
    if a < 0 {
        -a
    } else {
        a
    }
}

/// Division that rounds towards zero.
pub open spec fn quotient(a: int, b: int) -> int {
    let q = magnitude(a) / magnitude(b);
    if (a < 0) == (b < 0) {
        q
    } else {
        -q
    }
}

/// The remainder that goes with [`quotient`]; it has the sign of `a`.
pub open spec fn remainder(a: int, b: int) -> int {
    let r = magnitude(a) % magnitude(b);
    if a < 0 {
        -r
    } else {
        r
    }
}

/// The amount of a shift: the 128-bit pattern of `b` modulo the width.
pub open spec fn shift_amount(b: int, w: u32) -> nat {
    let e = bits_of_width(w);
    if e == 0 {
        0
    } else {
        ((b % two128()) % (e as int)) as nat
    }
}

/// The result of an arithmetic, bitwise or shift operator on machine integers of
/// type `it`, before it is reduced into the type.
pub open spec fn int_op(op: BinOp, a: i128, b: i128, it: IntTy) -> Result<int, Text> {
    match op {
        BinOp::Add => Ok(a + b),
        BinOp::Sub => Ok(a - b),
        BinOp::Mul => Ok(a * b),
        BinOp::Div => if b == 0 {
            Err("division by zero"@)
        } else {
            Ok(quotient(a as int, b as int))
        },
        BinOp::Rem => if b == 0 {
            Err("remainder by zero"@)
        } else {
            Ok(remainder(a as int, b as int))
        },
        BinOp::BitAnd => Ok((a & b) as int),
        BinOp::BitOr => Ok((a | b) as int),
        BinOp::BitXor => Ok((a ^ b) as int),
        BinOp::Shl => Ok(a * pow2(shift_amount(b as int, it.width))),
        BinOp::Shr => Ok(
            (if it.signed {
                a as int
            } else {
                a as int % two128()
            }) / (pow2(shift_amount(b as int, it.width)) as int),
        ),
        _ => Err("unsupported integer operator"@),
    }
}

/// The result of an arithmetic, bitwise or shift operator on `bit<w>` values,
/// before it is reduced modulo `2^w`.
pub open spec fn bit_op(op: BinOp, a: u128, b: u128, w: u32) -> Result<int, Text> {
    match op {
        BinOp::Add => Ok(a + b),
        BinOp::Sub => Ok(a - b),
        BinOp::Mul => Ok(a * b),
        BinOp::Div => if b == 0 {
            Err("division by zero"@)
        } else {
            Ok(a as int / b as int)
        },
        BinOp::Rem => if b == 0 {
            Err("remainder by zero"@)
        } else {
            Ok(a as int % b as int)
        },
        BinOp::BitAnd => Ok((a & b) as int),
        BinOp::BitOr => Ok((a | b) as int),
        BinOp::BitXor => Ok((a ^ b) as int),
        BinOp::Shl => Ok(a * pow2(shift_amount(b as int, w))),
        BinOp::Shr => Ok(a as int / (pow2(shift_amount(b as int, w)) as int)),
        _ => Err("unsupported bit operator"@),
    }
}

/// Whether the comparison `op` holds between two integers.
pub open spec fn compares(op: BinOp, a: int, b: int) -> bool {
    match op {
        BinOp::Eq => a == b,
        BinOp::Ne => a != b,
        BinOp::Lt => a < b,
        BinOp::Le => a <= b,
        BinOp::Gt => a > b,
        BinOp::Ge => a >= b,
        _ => false,
    }
}

// ---- facts --------------------------------------------------------------

pub proof fn lemma_two128()
    ensures
        pow2(128) == two128(),
        pow2(127) * 2 == two128(),
{
    lemma2_to64();
    lemma_pow2_adds(64, 64);
    lemma_pow2_unfold(128);
}

/// The signed reading of a pattern stands for the same pattern.
pub proof fn lemma_signed_pattern(x: int)
    ensures
        signed128(x) % two128() == x % two128(),
{
    let m = x % two128();
    lemma_small_mod(m as nat, two128() as nat);
    if m >= two128() / 2 {
        lemma_pattern_shift(m, -1);
    }
}

/// Reducing modulo `2^128` first does not change a reduction to fewer bits.
pub proof fn lemma_wrap_128(x: int, w: u32)
    ensures
        wrap(x % two128(), w) == wrap(x, w),
{
    let e = bits_of_width(w);
    lemma_two128();
    lemma_pow2_adds(e, (128 - e) as nat);
    lemma_pow2_pos(e);
    lemma_pow2_pos((128 - e) as nat);
    lemma_mod_mod(x, pow2(e) as int, pow2((128 - e) as nat) as int);
}

pub proof fn lemma_same_pattern(x: int, y: int, w: u32)
    requires
        x % two128() == y % two128(),
    ensures
        wrap(x, w) == wrap(y, w),
{
    lemma_wrap_128(x, w);
    lemma_wrap_128(y, w);
}

/// A wrapped value lies in the range of its width, and wrapping it again
/// changes nothing.
pub proof fn law_wrap_range(x: int, w: u32)
    ensures
        0 <= wrap(x, w) < pow2(bits_of_width(w)) <= two128(),
        wrap(wrap(x, w), w) == wrap(x, w),
{
    let e = bits_of_width(w);
    lemma_pow2_pos(e);
    lemma_two128();
    if e < 128 {
        lemma_pow2_strictly_increases(e, 128);
    }
    lemma_mod_bound(x, pow2(e) as int);
    lemma_small_mod(wrap(x, w) as nat, pow2(e));
}

/// The range of the integer type `it`.
pub open spec fn in_range(v: int, it: IntTy) -> bool {
    let e = bits_of_width(it.width);
    if e == 0 {
        v == 0
    } else if it.signed || it.width >= 128 {
        -pow2((e - 1) as nat) <= v < pow2((e - 1) as nat)
    } else {
        0 <= v < pow2(e)
    }
}

/// Normalising puts a value into the range of the type, keeps values that are
/// already in range, and changes a value by a multiple of `2^w` only.
pub proof fn law_norm_range(x: int, it: IntTy)
    ensures
        in_range(norm(x, it), it),
        in_range(x, it) ==> norm(x, it) == x,
        wrap(norm(x, it), it.width) == wrap(x, it.width),
        -two128() / 2 <= norm(x, it) < two128(),
        norm(x, it) <= i128::MAX,
{
    let e = bits_of_width(it.width);
    let p = pow2(e) as int;
    law_wrap_range(x, it.width);
    lemma_pow2_pos(e);
    lemma_two128();
    if e > 0 {
        lemma_pow2_unfold(e);
        lemma_pow2_pos((e - 1) as nat);
    }
    if e < 128 {
        lemma_pow2_strictly_increases(e, 128);
        if e < 127 {
            lemma_pow2_strictly_increases(e, 127);
        }
    }
    if e > 0 && e - 1 < 127 {
        lemma_pow2_strictly_increases((e - 1) as nat, 127);
    }
    if e == 0 {
        lemma2_to64();
    }
    let m = wrap(x, it.width);
    lemma_fundamental_div_mod(x, p);
    if norm(x, it) != m {
        assert((m - p) % p == m % p) by {
            lemma_mod_sub_multiples_vanish(m, p);
        }
    }
    if in_range(x, it) && x >= 0 {
        lemma_small_mod(x as nat, pow2(e));
    }
    if in_range(x, it) && x < 0 {
        lemma_mod_add_multiples_vanish(x, p);
        lemma_small_mod((x + p) as nat, pow2(e));
    }
}

pub proof fn lemma_norm_pattern(x: int, y: int, it: IntTy)
    requires
        x % two128() == y % two128(),
    ensures
        norm(x, it) == norm(y, it),
{
    lemma_same_pattern(x, y, it.width);
}

/// `x` and `x + k * 2^128` have the same pattern.
pub proof fn lemma_pattern_shift(x: int, k: int)
    ensures
        (x + k * two128()) % two128() == x % two128(),
{
    lemma_mod_multiples_vanish(k, x, two128());
    assert(k * two128() == two128() * k) by (nonlinear_arith);
}

// ---- machine words ------------------------------------------------------

/// `2^w`.
pub fn power(w: u32) -> (r: u128)
    requires
        w < 128,
    ensures
        r == pow2(w as nat),
{
    proof {
        lemma_power(w as u128);
    }
    1u128 << w
}

proof fn lemma_power(w: u128)
    requires
        w < 128,
    ensures
        (1u128 << w) == pow2(w as nat),
    decreases w,
{
    lemma2_to64();
    if w == 0 {
        assert(1u128 << 0u128 == 1u128) by (bit_vector);
    } else {
        let v = (w - 1) as u128;
        lemma_power(v);
        lemma_pow2_unfold(w as nat);
        assert((1u128 << w) == 2 * (1u128 << v)) by (bit_vector)
            requires
                0 < w < 128,
                v == w - 1,
        ;
    }
}

/// The 128-bit pattern of `a`.
pub fn pattern(a: i128) -> (r: u128)
    ensures
        r == a as int % two128(),
{
    let r = a as u128;
    assert(r == (if a < 0 {
        a + 0x1_0000_0000_0000_0000_0000_0000_0000_0000int
    } else {
        a as int
    })) by (bit_vector)
        requires
            r == a as u128,
    ;
    proof {
        if a < 0 {
            lemma_pattern_shift(a as int, 1);
            lemma_small_mod(r as nat, two128() as nat);
        } else {
            lemma_small_mod(r as nat, two128() as nat);
        }
    }
    r
}

/// The two's-complement reading of the pattern `m`.
pub fn signed(m: u128) -> (r: i128)
    ensures
        r == signed128(m as int),
        r == (if m >= two128() / 2 {
            m - two128()
        } else {
            m as int
        }),
{
    let r = m as i128;
    assert(r == (if m >= 0x8000_0000_0000_0000_0000_0000_0000_0000 {
        m - 0x1_0000_0000_0000_0000_0000_0000_0000_0000int
    } else {
        m as int
    })) by (bit_vector)
        requires
            r == m as i128,
    ;
    proof {
        lemma_small_mod(m as nat, two128() as nat);
    }
    r
}

/// The low bits of `m`: `m` modulo `2^w`.
pub fn low_bits(m: u128, w: u32) -> (r: u128)
    ensures
        r == wrap(m as int, w),
{
    if w >= 128 {
        proof {
            lemma_two128();
            lemma_small_mod(m as nat, two128() as nat);
        }
        m
    } else {
        let p = power(w);
        proof {
            lemma_pow2_pos(w as nat);
        }
        m % p
    }
}

/// The low bits of `m`, read as a value of the integer type `it`.
pub fn from_bits(m: u128, it: IntTy) -> (r: i128)
    ensures
        r == norm(m as int, it),
{
    proof {
        lemma_two128();
        law_norm_range(m as int, it);
        law_wrap_range(m as int, it.width);
    }
    if it.width >= 128 {
        proof {
            lemma_small_mod(m as nat, two128() as nat);
        }
        signed(m)
    } else {
        let w = it.width;
        let low = low_bits(m, w);
        if it.signed && w > 0 {
            let p = power(w);
            let h = power(w - 1);
            proof {
                lemma_pow2_unfold(w as nat);
                if w < 127 {
                    lemma_pow2_strictly_increases(w as nat, 127);
                }
            }
            if low >= h {
                let d: u128 = p - low;
                -(d as i128)
            } else {
                low as i128
            }
        } else {
            proof {
                if w < 127 {
                    lemma_pow2_strictly_increases(w as nat, 127);
                }
            }
            low as i128
        }
    }
}

/// The value `v` reduced into the integer type `it`.
pub fn norm_int(v: i128, it: IntTy) -> (r: i128)
    ensures
        r == norm(v as int, it),
{
    let m = pattern(v);
    proof {
        lemma_small_mod(m as nat, two128() as nat);
        lemma_norm_pattern(m as int, v as int, it);
    }
    from_bits(m, it)
}

/// The pattern of `v`, reduced modulo `2^w`.
pub fn norm_bit(v: i128, w: u32) -> (r: u128)
    ensures
        r == wrap(v as int, w),
{
    let m = pattern(v);
    proof {
        lemma_small_mod(m as nat, two128() as nat);
        lemma_same_pattern(m as int, v as int, w);
    }
    low_bits(m, w)
}

fn absolute(a: i128) -> (r: u128)
    ensures
        r == magnitude(a as int),
        r <= two128() / 2,
{
    if a >= 0 {
        a as u128
    } else {
        let t: i128 = -(a + 1);
        (t as u128) + 1
    }
}

fn negate(m: u128, neg: bool) -> (r: u128)
    ensures
        r as int % two128() == (if neg {
            -(m as int)
        } else {
            m as int
        }) % two128(),
{
    if neg {
        let r = 0u128.wrapping_sub(m);
        proof {
            if m > 0 {
                assert(r == two128() - m);
                lemma_pattern_shift(-(m as int), 1);
            }
        }
        r
    } else {
        m
    }
}

fn amount_of(m: u128, w: u32) -> (r: u32)
    ensures
        r == shift_amount(m as int, w),
        r < 128,
{
    proof {
        lemma_small_mod(m as nat, two128() as nat);
    }
    if w == 0 {
        0
    } else if w >= 128 {
        (m % 128) as u32
    } else {
        (m % (w as u128)) as u32
    }
}

fn shifted_left(a: u128, s: u32) -> (r: u128)
    requires
        s < 128,
    ensures
        r as int % two128() == (a * pow2(s as nat)) % two128(),
{
    let p = power(s);
    let r = a.wrapping_mul(p);
    proof {
        lemma_mod_bound(a * p, two128());
        lemma_mod_twice(a * p, two128());
    }
    r
}

/// The product of two words, modulo `2^128`.
pub fn mul_pattern(a: u128, b: u128) -> (r: u128)
    ensures
        r == (a * b) % two128(),
{
    let r = a.wrapping_mul(b);
    proof {
        lemma_mod_bound(a * b, two128());
    }
    r
}

/// A word that differs from `x` by `2^128` at most is `x` modulo `2^128`.
pub proof fn lemma_word(x: int, r: u128)
    requires
        r == x || r == x - two128() || r == x + two128(),
    ensures
        r == x % two128(),
{
    lemma_small_mod(r as nat, two128() as nat);
    if r == x - two128() {
        lemma_pattern_shift(r as int, 1);
    } else if r == x + two128() {
        lemma_pattern_shift(r as int, -1);
    }
}

/// `floor(a / 2^s)`.
fn shifted_right(a: u128, s: u32) -> (r: u128)
    requires
        s < 128,
    ensures
        r == a as int / (pow2(s as nat) as int),
{
    let p = power(s);
    proof {
        lemma_pow2_pos(s as nat);
    }
    a / p
}

proof fn lemma_floor_negative(a: int, p: int)
    requires
        a < 0,
        p > 0,
    ensures
        a / p == -((-a - 1) / p) - 1,
{
    let k = (-a - 1) / p;
    let m = (-a - 1) % p;
    lemma_fundamental_div_mod(-a - 1, p);
    lemma_mod_bound(-a - 1, p);
    assert(a == (-k - 1) * p + (p - 1 - m)) by (nonlinear_arith)
        requires
            -a - 1 == p * k + m,
    ;
    assert(a == p * (-k - 1) + (p - 1 - m)) by (nonlinear_arith)
        requires
            a == (-k - 1) * p + (p - 1 - m),
    ;
    lemma_fundamental_div_mod_converse(a, p, -k - 1, p - 1 - m);
}

/// Arithmetic, bitwise and shift operators on machine integers of type `it`.
pub fn int_arith(op: BinOp, a: i128, b: i128, it: IntTy) -> (r: Result<i128, String>)
    ensures
        match r {
            Ok(v) => int_op(op, a, b, it) matches Ok(x) && v == norm(x, it),
            Err(m) => int_op(op, a, b, it) == Err::<int, Text>(m@),
        },
{
    match op {
        BinOp::Add => {
            let x = a.wrapping_add(b);
            proof {
                lemma_near(x as int, a + b);
                lemma_norm_pattern(x as int, a + b, it);
            }
            Ok(norm_int(x, it))
        },
        BinOp::Sub => {
            let x = a.wrapping_sub(b);
            proof {
                lemma_near(x as int, a - b);
                lemma_norm_pattern(x as int, a - b, it);
            }
            Ok(norm_int(x, it))
        },
        BinOp::Mul => {
            let x = a.wrapping_mul(b);
            proof {
                lemma_mod_bound(a * b, two128());
                lemma_mod_twice(a * b, two128());
                lemma_near(x as int, (a * b) % two128());
                lemma_norm_pattern(x as int, a * b, it);
            }
            Ok(norm_int(x, it))
        },
        BinOp::Div => {
            if b == 0 {
                return Err("division by zero".to_string());
            }
            let q = absolute(a) / absolute(b);
            let m = negate(q, (a < 0) != (b < 0));
            proof {
                lemma_norm_pattern(m as int, quotient(a as int, b as int), it);
            }
            Ok(from_bits(m, it))
        },
        BinOp::Rem => {
            if b == 0 {
                return Err("remainder by zero".to_string());
            }
            let q = absolute(a) % absolute(b);
            let m = negate(q, a < 0);
            proof {
                lemma_norm_pattern(m as int, remainder(a as int, b as int), it);
            }
            Ok(from_bits(m, it))
        },
        BinOp::BitAnd => Ok(norm_int(a & b, it)),
        BinOp::BitOr => Ok(norm_int(a | b, it)),
        BinOp::BitXor => Ok(norm_int(a ^ b, it)),
        BinOp::Shl => {
            let m = pattern(b);
            let s = amount_of(m, it.width);
            let t = pattern(a);
            let x = shifted_left(t, s);
            proof {
                lemma_small_mod(m as nat, two128() as nat);
                lemma_mul_pattern(t as int, a as int, pow2(s as nat) as int);
                lemma_norm_pattern(x as int, a * pow2(s as nat), it);
            }
            Ok(from_bits(x, it))
        },
        BinOp::Shr => {
            let m = pattern(b);
            let s = amount_of(m, it.width);
            proof {
                lemma_small_mod(m as nat, two128() as nat);
                lemma_pow2_pos(s as nat);
            }
            if it.signed && a < 0 {
                let t: u128 = absolute(a) - 1;
                let q = shifted_right(t, s);
                let y: u128 = q + 1;
                let x = negate(y, true);
                proof {
                    lemma_floor_negative(a as int, pow2(s as nat) as int);
                    lemma_norm_pattern(x as int, a as int / (pow2(s as nat) as int), it);
                }
                Ok(from_bits(x, it))
            } else {
                let t = pattern(a);
                proof {
                    if a >= 0 {
                        lemma_small_mod(a as nat, two128() as nat);
                    }
                }
                let x = shifted_right(t, s);
                Ok(from_bits(x, it))
            }
        },
        _ => Err("unsupported integer operator".to_string()),
    }
}

proof fn lemma_near(x: int, y: int)
    requires
        x == y || x == y + two128() || x == y - two128(),
    ensures
        x % two128() == y % two128(),
{
    lemma_pattern_shift(y, 1);
    lemma_pattern_shift(y, -1);
}

proof fn lemma_mul_pattern(x: int, y: int, p: int)
    requires
        x == y % two128(),
    ensures
        (x * p) % two128() == (y * p) % two128(),
{
    lemma_mul_mod_noop_left(y, p, two128());
}

/// Arithmetic, bitwise and shift operators on `bit<w>` values.
pub fn bit_arith(op: BinOp, a: u128, b: u128, w: u32) -> (r: Result<u128, String>)
    ensures
        match r {
            Ok(v) => bit_op(op, a, b, w) matches Ok(x) && v == wrap(x, w),
            Err(m) => bit_op(op, a, b, w) == Err::<int, Text>(m@),
        },
{
    match op {
        BinOp::Add => {
            let x = a.wrapping_add(b);
            proof {
                lemma_near(x as int, a + b);
                lemma_same_pattern(x as int, a + b, w);
            }
            Ok(low_bits(x, w))
        },
        BinOp::Sub => {
            let x = a.wrapping_sub(b);
            proof {
                lemma_near(x as int, a - b);
                lemma_same_pattern(x as int, a - b, w);
            }
            Ok(low_bits(x, w))
        },
        BinOp::Mul => {
            let x = a.wrapping_mul(b);
            proof {
                lemma_mod_bound(a * b, two128());
                lemma_mod_twice(a * b, two128());
                lemma_same_pattern(x as int, a * b, w);
            }
            Ok(low_bits(x, w))
        },
        BinOp::Div => {
            if b == 0 {
                return Err("division by zero".to_string());
            }
            Ok(low_bits(a / b, w))
        },
        BinOp::Rem => {
            if b == 0 {
                return Err("remainder by zero".to_string());
            }
            Ok(low_bits(a % b, w))
        },
        BinOp::BitAnd => Ok(low_bits(a & b, w)),
        BinOp::BitOr => Ok(low_bits(a | b, w)),
        BinOp::BitXor => Ok(low_bits(a ^ b, w)),
        BinOp::Shl => {
            let s = amount_of(b, w);
            let x = shifted_left(a, s);
            proof {
                lemma_same_pattern(x as int, a * pow2(s as nat), w);
            }
            Ok(low_bits(x, w))
        },
        BinOp::Shr => {
            let s = amount_of(b, w);
            let x = shifted_right(a, s);
            Ok(low_bits(x, w))
        },
        _ => Err("unsupported bit operator".to_string()),
    }
}

/// The two's-complement negation of `n`, reduced into `it`.
pub fn neg_int(n: i128, it: IntTy) -> (r: i128)
    ensures
        r == norm(-(n as int), it),
{
    let x = 0i128.wrapping_sub(n);
    proof {
        lemma_near(x as int, -(n as int));
        lemma_norm_pattern(x as int, -(n as int), it);
    }
    norm_int(x, it)
}

/// The negation of `n` modulo `2^w`.
pub fn neg_bit(n: u128, w: u32) -> (r: u128)
    ensures
        r == wrap(-(n as int), w),
{
    let x = 0u128.wrapping_sub(n);
    proof {
        lemma_near(x as int, -(n as int));
        lemma_same_pattern(x as int, -(n as int), w);
    }
    low_bits(x, w)
}

/// The bitwise complement of `n`, reduced into `it`.
pub fn not_int(n: i128, it: IntTy) -> (r: i128)
    ensures
        r == norm(-(n as int) - 1, it),
{
    let t = pattern(n);
    let x: u128 = 0xffff_ffff_ffff_ffff_ffff_ffff_ffff_ffff - t;
    proof {
        lemma_not_pattern(n as int);
        lemma_norm_pattern(x as int, -(n as int) - 1, it);
    }
    from_bits(x, it)
}

/// The bitwise complement of `n` modulo `2^w`.
pub fn not_bit(n: u128, w: u32) -> (r: u128)
    ensures
        r == wrap(-(n as int) - 1, w),
{
    let x: u128 = 0xffff_ffff_ffff_ffff_ffff_ffff_ffff_ffff - n;
    proof {
        lemma_pattern_shift(-(n as int) - 1, 1);
        lemma_same_pattern(x as int, -(n as int) - 1, w);
    }
    low_bits(x, w)
}

proof fn lemma_not_pattern(n: int)
    ensures
        (two128() - 1 - (n % two128())) % two128() == (-n - 1) % two128(),
{
    let q = n / two128();
    lemma_fundamental_div_mod(n, two128());
    lemma_pattern_shift(-n - 1, q + 1);
    assert(two128() - 1 - (n % two128()) == -n - 1 + (q + 1) * two128()) by (nonlinear_arith)
        requires
            n == two128() * q + n % two128(),
    ;
}

/// Whether the comparison `op` holds between two signed integers.
pub fn compare_int(op: BinOp, a: i128, b: i128) -> (r: bool)
    ensures
        r == compares(op, a as int, b as int),
{
    match op {
        BinOp::Eq => a == b,
        BinOp::Ne => a != b,
        BinOp::Lt => a < b,
        BinOp::Le => a <= b,
        BinOp::Gt => a > b,
        BinOp::Ge => a >= b,
        _ => false,
    }
}

/// Whether the comparison `op` holds between two unsigned integers.
pub fn compare_bit(op: BinOp, a: u128, b: u128) -> (r: bool)
    ensures
        r == compares(op, a as int, b as int),
{
    match op {
        BinOp::Eq => a == b,
        BinOp::Ne => a != b,
        BinOp::Lt => a < b,
        BinOp::Le => a <= b,
        BinOp::Gt => a > b,
        BinOp::Ge => a >= b,
        _ => false,
    }
}

} // verus!
