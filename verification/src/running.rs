//! What running a program does, construct by construct: which variable a name means, in
//! what order things happen, how often loops run, which arm of a `match` is taken, what
//! a call binds and what `print` writes.

use crate::arith;
use crate::diagnostic::Diag;
use crate::ir::{IntTy, TArm, TBlock, TConst, TExpr, TFunc, TKind, TModule, TPattern, TPlace, TStmt, TType};
use crate::name_map;
use crate::semantics::{self, Flow, Locals, Mem};
use crate::text::{self, Text};
use crate::value::VVal;
use vstd::arithmetic::power2::*;
use vstd::prelude::*;

verus! {

// ---- variables ----------------------------------------------------------

proof fn lemma_slot_found<T>(env: Seq<(Text, T)>, n: Text, i: int, p: int)
    requires
        0 <= p < i <= env.len(),
        env[p].0 == n,
        forall|j: int| p < j < i ==> (#[trigger] env[j]).0 != n,
    ensures
        semantics::slot_before(env, n, i) == Some(p),
    decreases i,
{
    if p < i - 1 {
        lemma_slot_found(env, n, i - 1, p);
    }
}

proof fn lemma_slot_missing<T>(env: Seq<(Text, T)>, n: Text, i: int)
    requires
        0 <= i <= env.len(),
        forall|j: int| 0 <= j < i ==> (#[trigger] env[j]).0 != n,
    ensures
        semantics::slot_before(env, n, i) is None,
    decreases i,
{
    if i > 0 {
        lemma_slot_missing(env, n, i - 1);
    }
}

/// A name means the innermost variable of that name; where there is none, reading it is
/// an error.
pub proof fn law_names_mean_the_innermost_variable(env: Locals, n: Text)
    ensures
        forall|p: int|
            0 <= p < env.len() && (#[trigger] env[p]).0 == n && (forall|j: int|
                p < j < env.len() ==> (#[trigger] env[j]).0 != n) ==> semantics::read_local(n, env)
                == Ok::<VVal, Flow>(env[p].1),
        (forall|j: int| 0 <= j < env.len() ==> (#[trigger] env[j]).0 != n)
            ==> semantics::read_local(n, env) is Err,
{
    assert forall|p: int|
        0 <= p < env.len() && (#[trigger] env[p]).0 == n && (forall|j: int|
            p < j < env.len() ==> (#[trigger] env[j]).0 != n) implies semantics::read_local(n, env)
        == Ok::<VVal, Flow>(env[p].1) by {
        lemma_slot_found(env, n, env.len() as int, p);
    }
    if forall|j: int| 0 <= j < env.len() ==> (#[trigger] env[j]).0 != n {
        lemma_slot_missing(env, n, env.len() as int);
    }
}

/// Reading a variable gives its value and changes nothing.
pub proof fn law_variables_are_read(m: TModule, fuel: nat, n: Text, ty: TType, s: Mem, v: VVal)
    requires
        fuel > 0,
    ensures
        semantics::eval_expr(
            m,
            fuel,
            TExpr { kind: TKind::Local(n), ty },
            Mem { env: s.env.push((n, v)), out: s.out, cache: s.cache },
        ) == (
            Ok::<VVal, Flow>(v),
            Mem { env: s.env.push((n, v)), out: s.out, cache: s.cache },
        ),
{
    let env = s.env.push((n, v));
    assert(env[s.env.len() as int] == (n, v));
    lemma_slot_found(env, n, env.len() as int, s.env.len() as int);
}

/// A literal is the number that it says, of its type, and has no effect.
pub proof fn law_literals_are_what_they_say(m: TModule, fuel: nat, v: i128, it: IntTy, w: u32, s: Mem)
    requires
        fuel > 0,
    ensures
        arith::in_range(v as int, it) ==> semantics::eval_expr(
            m,
            fuel,
            TExpr { kind: TKind::Int(v), ty: TType::Int(it) },
            s,
        ) == (Ok::<VVal, Flow>(VVal::Int(v, it)), s),
        w <= 128 && 0 <= v < pow2(w as nat) ==> semantics::eval_expr(
            m,
            fuel,
            TExpr { kind: TKind::Int(v), ty: TType::Bit(w) },
            s,
        ) == (Ok::<VVal, Flow>(VVal::Bit(v as u128, w)), s),
        forall|b: bool, ty: TType|
            #[trigger] semantics::eval_expr(m, fuel, TExpr { kind: TKind::Bool(b), ty }, s) == (
                Ok::<VVal, Flow>(VVal::Bool(b)),
                s,
            ),
        forall|ty: TType|
            #[trigger] semantics::eval_expr(m, fuel, TExpr { kind: TKind::Unit, ty }, s) == (
                Ok::<VVal, Flow>(VVal::Unit),
                s,
            ),
{
    arith::law_norm_range(v as int, it);
    if w <= 128 && 0 <= v < pow2(w as nat) {
        assert(arith::bits_of_width(w) == w as nat);
        vstd::arithmetic::div_mod::lemma_small_mod(v as nat, pow2(w as nat));
    }
}

// ---- order --------------------------------------------------------------

/// Whether the expressions, evaluated one behind the other from left to right, give the
/// values, with the memory of each handed to the next.
pub open spec fn one_by_one(
    m: TModule,
    fuel: nat,
    es: Seq<TExpr>,
    vs: Seq<VVal>,
    ss: Seq<Mem>,
) -> bool {
    &&& vs.len() == es.len()
    &&& ss.len() == es.len() + 1
    &&& forall|i: int|
        0 <= i < es.len() ==> semantics::eval_expr(m, fuel, #[trigger] es[i], ss[i]) == (
            Ok::<VVal, Flow>(vs[i]),
            ss[i + 1],
        )
}

proof fn lemma_args(
    m: TModule,
    fuel: nat,
    es: Seq<TExpr>,
    vs: Seq<VVal>,
    ss: Seq<Mem>,
    i: int,
    acc: Seq<VVal>,
)
    requires
        one_by_one(m, fuel, es, vs, ss),
        0 <= i <= es.len(),
        acc == vs.subrange(0, i),
    ensures
        semantics::eval_args(m, fuel, es, i, acc, ss[i]) == (
            Ok::<Seq<VVal>, Flow>(vs),
            ss[es.len() as int],
        ),
    decreases es.len() - i,
{
    if i < es.len() {
        assert(semantics::eval_expr(m, fuel, es[i], ss[i]) == (Ok::<VVal, Flow>(vs[i]), ss[i + 1]));
        assert(acc.push(vs[i]) =~= vs.subrange(0, i + 1));
        lemma_args(m, fuel, es, vs, ss, i + 1, acc.push(vs[i]));
    } else {
        assert(acc =~= vs);
    }
}

/// The arguments of a call, the elements of an array and of a tuple, the fields of a
/// struct and the values of a variant are evaluated from left to right and stand in that
/// order in what is made of them.
pub proof fn law_parts_are_evaluated_in_order(
    m: TModule,
    fuel: nat,
    es: Seq<TExpr>,
    vs: Seq<VVal>,
    ss: Seq<Mem>,
    name: Text,
    tag: usize,
    ty: TType,
)
    requires
        fuel > 0,
        one_by_one(m, (fuel - 1) as nat, es, vs, ss),
    ensures
        ({
            let last = ss[es.len() as int];
            &&& semantics::eval_expr(m, fuel, TExpr { kind: TKind::Array(es), ty }, ss[0]) == (
                Ok::<VVal, Flow>(VVal::Array(vs)),
                last,
            )
            &&& semantics::eval_expr(m, fuel, TExpr { kind: TKind::MakeTuple(es), ty }, ss[0]) == (
                Ok::<VVal, Flow>(VVal::Tuple(vs)),
                last,
            )
            &&& semantics::eval_expr(
                m,
                fuel,
                TExpr { kind: TKind::MakeStruct { name, fields: es }, ty },
                ss[0],
            ) == (Ok::<VVal, Flow>(VVal::Struct(name, vs)), last)
            &&& semantics::eval_expr(
                m,
                fuel,
                TExpr { kind: TKind::MakeEnum { name, tag, args: es }, ty },
                ss[0],
            ) == (Ok::<VVal, Flow>(VVal::Enum(name, tag, vs)), last)
            &&& semantics::eval_expr(
                m,
                fuel,
                TExpr { kind: TKind::Call { func: name, args: es }, ty },
                ss[0],
            ) == semantics::call_func(m, (fuel - 1) as nat, name, vs, last)
        }),
{
    assert(vs.subrange(0, 0) =~= Seq::empty());
    lemma_args(m, (fuel - 1) as nat, es, vs, ss, 0, Seq::empty());
}

/// Both operands of an operator are evaluated, the left one first.
pub proof fn law_operands_are_evaluated_in_order(
    m: TModule,
    fuel: nat,
    op: crate::ir::BinOp,
    l: TExpr,
    r: TExpr,
    ty: TType,
    s: Mem,
)
    requires
        fuel > 0,
        !(op is And || op is Or),
    ensures
        ({
            let f = (fuel - 1) as nat;
            let e = TExpr {
                kind: TKind::Binary { op, lhs: Box::new(l), rhs: Box::new(r) },
                ty,
            };
            let first = semantics::eval_expr(m, f, l, s);
            let second = semantics::eval_expr(m, f, r, first.1);
            let whole = semantics::eval_expr(m, fuel, e, s);
            &&& first.0 matches Err(x) ==> whole == (Err::<VVal, Flow>(x), first.1)
            &&& first.0 matches Ok(a) ==> (second.0 matches Err(x) ==> whole == (
                Err::<VVal, Flow>(x),
                second.1,
            ))
            &&& first.0 matches Ok(a) ==> (second.0 matches Ok(b) ==> whole == (
                semantics::binary(op, a, b),
                second.1,
            ))
        }),
{
}

/// Statements run one behind the other. The first that fails or returns is the last.
pub proof fn law_statements_run_in_order(
    m: TModule,
    fuel: nat,
    stmts: Seq<TStmt>,
    ss: Seq<Mem>,
    k: int,
)
    requires
        0 <= k <= stmts.len(),
        ss.len() == k + 1,
        forall|i: int|
            0 <= i < k ==> semantics::eval_stmt(m, fuel, #[trigger] stmts[i], ss[i]) == (
                Ok::<(), Flow>(()),
                ss[i + 1],
            ),
    ensures
        k == stmts.len() ==> semantics::eval_stmts(m, fuel, stmts, 0, ss[0]) == (
            Ok::<(), Flow>(()),
            ss[k],
        ),
        k < stmts.len() && semantics::eval_stmt(m, fuel, stmts[k], ss[k]).0 is Err
            ==> semantics::eval_stmts(m, fuel, stmts, 0, ss[0]) == semantics::eval_stmt(
            m,
            fuel,
            stmts[k],
            ss[k],
        ),
{
    lemma_stmts(m, fuel, stmts, ss, k, 0);
}

proof fn lemma_stmts(m: TModule, fuel: nat, stmts: Seq<TStmt>, ss: Seq<Mem>, k: int, i: int)
    requires
        0 <= i <= k <= stmts.len(),
        ss.len() == k + 1,
        forall|i: int|
            0 <= i < k ==> semantics::eval_stmt(m, fuel, #[trigger] stmts[i], ss[i]) == (
                Ok::<(), Flow>(()),
                ss[i + 1],
            ),
    ensures
        k == stmts.len() ==> semantics::eval_stmts(m, fuel, stmts, i, ss[i]) == (
            Ok::<(), Flow>(()),
            ss[k],
        ),
        k < stmts.len() && semantics::eval_stmt(m, fuel, stmts[k], ss[k]).0 is Err
            ==> semantics::eval_stmts(m, fuel, stmts, i, ss[i]) == semantics::eval_stmt(
            m,
            fuel,
            stmts[k],
            ss[k],
        ),
    decreases k - i,
{
    if i < k {
        assert(semantics::eval_stmt(m, fuel, stmts[i], ss[i]) == (Ok::<(), Flow>(()), ss[i + 1]));
        lemma_stmts(m, fuel, stmts, ss, k, i + 1);
    }
}

/// What a `let` introduces has the value of its initialiser until the end of the block,
/// and is gone behind it.
pub proof fn law_let_introduces_a_variable(
    m: TModule,
    fuel: nat,
    n: Text,
    mutable: bool,
    ty: TType,
    init: TExpr,
    s: Mem,
    v: VVal,
    s1: Mem,
)
    requires
        fuel > 0,
        semantics::eval_expr(m, fuel, init, s) == (Ok::<VVal, Flow>(v), s1),
        s1.env.len() == s.env.len(),
    ensures
        semantics::eval_block(
            m,
            fuel,
            TBlock {
                stmts: seq![TStmt::Let { name: n, mutable, ty, init }],
                tail: Some(Box::new(TExpr { kind: TKind::Local(n), ty })),
                ty,
            },
            s,
        ) == (Ok::<VVal, Flow>(v), s1),
{
    let st = TStmt::Let { name: n, mutable, ty, init };
    let sts = seq![st];
    let s2 = Mem { env: s1.env.push((n, v)), out: s1.out, cache: s1.cache };
    assert(semantics::eval_stmt(m, fuel, st, s) == (Ok::<(), Flow>(()), s2));
    law_statements_run_in_order(m, fuel, sts, seq![s, s2], 1);
    law_variables_are_read(m, fuel, n, ty, s1, v);
    assert(semantics::cut(s2.env, s.env.len() as int) =~= s1.env);
}

/// An assignment evaluates its value before it stores it; an expression for effect is evaluated
/// and its value dropped; a block without a value at its end gives the unit value.
pub proof fn law_simple_statements(
    m: TModule,
    fuel: nat,
    place: TPlace,
    e: TExpr,
    stmts: Seq<TStmt>,
    ty: TType,
    s: Mem,
    v: VVal,
    s1: Mem,
)
    requires
        semantics::eval_expr(m, fuel, e, s) == (Ok::<VVal, Flow>(v), s1),
    ensures
        semantics::eval_stmt(m, fuel, TStmt::Assign { place, value: e }, s) == semantics::store(
            m,
            fuel,
            place,
            v,
            s1,
        ),
        semantics::eval_stmt(m, fuel, TStmt::Expr(e), s) == (Ok::<(), Flow>(()), s1),
        semantics::eval_stmts(m, fuel, stmts, 0, s).0 is Ok ==> semantics::eval_block(
            m,
            fuel,
            TBlock { stmts, tail: None, ty },
            s,
        ).0 == Ok::<VVal, Flow>(VVal::Unit),
        semantics::eval_stmts(m, fuel, stmts, 0, s) matches (Err(x), _) ==> semantics::eval_block(
            m,
            fuel,
            TBlock { stmts, tail: Some(Box::new(e)), ty },
            s,
        ).0 == Err::<VVal, Flow>(x),
{
}

/// Behind a block there are as many variables as before it.
pub proof fn law_blocks_leave_no_variables(m: TModule, fuel: nat, b: TBlock, s: Mem)
    ensures
        semantics::eval_block(m, fuel, b, s).1.env.len() <= s.env.len(),
{
}

// ---- choices ------------------------------------------------------------

/// An `if` runs the first branch where its condition is true and the second where it is
/// false, and gives the value of that branch.
pub proof fn law_if_takes_one_branch(
    m: TModule,
    fuel: nat,
    cond: TExpr,
    a: TBlock,
    b: TBlock,
    ty: TType,
    s: Mem,
)
    requires
        fuel > 0,
    ensures
        ({
            let f = (fuel - 1) as nat;
            let e = TExpr {
                kind: TKind::If { cond: Box::new(cond), then_branch: a, else_branch: b },
                ty,
            };
            let (c, s1) = semantics::eval_expr(m, f, cond, s);
            &&& c == Ok::<VVal, Flow>(VVal::Bool(true)) ==> semantics::eval_expr(m, fuel, e, s)
                == semantics::eval_block(m, f, a, s1)
            &&& c == Ok::<VVal, Flow>(VVal::Bool(false)) ==> semantics::eval_expr(m, fuel, e, s)
                == semantics::eval_block(m, f, b, s1)
        }),
{
}

/// Whether an arm lets `v` pass: its pattern does not match, or its guard is false and has
/// no effect.
pub open spec fn passes(m: TModule, fuel: nat, a: TArm, v: VVal, s: Mem) -> bool {
    match semantics::matched(a.pattern, v) {
        None => true,
        Some(b) => a.guard matches Some(g) && semantics::eval_expr(
            m,
            fuel,
            g,
            semantics::with_env(s, s.env + b),
        ) == (Ok::<VVal, Flow>(VVal::Bool(false)), semantics::with_env(s, s.env + b)),
    }
}

/// Whether an arm takes `v`: its pattern matches, and its guard, if it has one, is true and
/// has no effect.
pub open spec fn takes(m: TModule, fuel: nat, a: TArm, v: VVal, s: Mem) -> bool {
    semantics::matched(a.pattern, v) matches Some(b) && match a.guard {
        None => true,
        Some(g) => semantics::eval_expr(m, fuel, g, semantics::with_env(s, s.env + b)) == (
            Ok::<VVal, Flow>(VVal::Bool(true)),
            semantics::with_env(s, s.env + b),
        ),
    }
}

/// A `match` takes the first arm that takes its value and runs its body with the variables
/// of the pattern, which are gone behind it.
pub proof fn law_the_first_matching_arm_is_taken(
    m: TModule,
    fuel: nat,
    arms: Seq<TArm>,
    j: int,
    v: VVal,
    s: Mem,
)
    requires
        0 <= j < arms.len(),
        forall|k: int| 0 <= k < j ==> passes(m, fuel, #[trigger] arms[k], v, s),
        takes(m, fuel, arms[j], v, s),
    ensures
        ({
            let b = semantics::matched(arms[j].pattern, v)->0;
            let (r, s1) = semantics::eval_expr(
                m,
                fuel,
                arms[j].body,
                semantics::with_env(s, s.env + b),
            );
            semantics::eval_arms(m, fuel, arms, 0, v, s) == (
                r,
                semantics::with_env(s1, semantics::cut(s1.env, s.env.len() as int)),
            )
        }),
{
    lemma_arms(m, fuel, arms, j, v, s, 0);
}

proof fn lemma_arms(m: TModule, fuel: nat, arms: Seq<TArm>, j: int, v: VVal, s: Mem, i: int)
    requires
        0 <= i <= j < arms.len(),
        forall|k: int| 0 <= k < j ==> passes(m, fuel, #[trigger] arms[k], v, s),
        takes(m, fuel, arms[j], v, s),
    ensures
        ({
            let b = semantics::matched(arms[j].pattern, v)->0;
            let (r, s1) = semantics::eval_expr(
                m,
                fuel,
                arms[j].body,
                semantics::with_env(s, s.env + b),
            );
            semantics::eval_arms(m, fuel, arms, i, v, s) == (
                r,
                semantics::with_env(s1, semantics::cut(s1.env, s.env.len() as int)),
            )
        }),
    decreases j - i,
{
    if i < j {
        assert(passes(m, fuel, arms[i], v, s));
        lemma_arms(m, fuel, arms, j, v, s, i + 1);
        if let Some(b) = semantics::matched(arms[i].pattern, v) {
            let inner = semantics::with_env(s, s.env + b);
            assert(semantics::cut(inner.env, s.env.len() as int) =~= s.env);
            assert(semantics::with_env(inner, s.env) == s);
        }
    }
}

proof fn lemma_all(ps: Seq<TPattern>, vs: Seq<VVal>, i: int)
    requires
        ps.len() == vs.len(),
        0 <= i <= ps.len(),
    ensures
        semantics::matched_all(ps, vs, i) is Some <==> forall|k: int|
            i <= k < ps.len() ==> semantics::matched(#[trigger] ps[k], vs[k]) is Some,
        semantics::matched_all(ps, vs, i) is Some ==> forall|k: int, x: (Text, VVal)|
            i <= k < ps.len() && #[trigger] semantics::matched(ps[k], vs[k])->0.contains(x)
                ==> semantics::matched_all(ps, vs, i)->0.contains(x),
    decreases ps.len() - i,
{
    if i < ps.len() {
        lemma_all(ps, vs, i + 1);
        if semantics::matched_all(ps, vs, i) is Some {
            let b = semantics::matched(ps[i], vs[i])->0;
            let c = semantics::matched_all(ps, vs, i + 1)->0;
            assert forall|k: int, x: (Text, VVal)|
                i <= k < ps.len() && #[trigger] semantics::matched(ps[k], vs[k])->0.contains(
                    x,
                ) implies semantics::matched_all(ps, vs, i)->0.contains(x) by {
                if k == i {
                    let p = choose|p: int| 0 <= p < b.len() && b[p] == x;
                    assert((b + c)[p] == x);
                } else {
                    assert(c.contains(x));
                    let p = choose|p: int| 0 <= p < c.len() && c[p] == x;
                    assert((b + c)[b.len() + p] == x);
                }
            }
        }
    }
}

proof fn lemma_any(ps: Seq<TPattern>, v: VVal, i: int)
    requires
        0 <= i <= ps.len(),
    ensures
        semantics::matched_any(ps, v, i) is Some <==> exists|k: int|
            i <= k < ps.len() && semantics::matched(#[trigger] ps[k], v) is Some,
        forall|k: int|
            i <= k < ps.len() && semantics::matched(#[trigger] ps[k], v) is Some && (forall|l: int|
                i <= l < k ==> semantics::matched(#[trigger] ps[l], v) is None)
                ==> semantics::matched_any(ps, v, i) == semantics::matched(ps[k], v),
    decreases ps.len() - i,
{
    if i < ps.len() {
        lemma_any(ps, v, i + 1);
    }
}

/// Which values a pattern matches, and what it binds. An integer matches itself; a range
/// `lo..hi` what lies from `lo` up to but without `hi`, and `lo..=hi` with it; a variant the
/// values of that variant whose parts match; a tuple the tuples whose parts match;
/// alternatives what one of them matches; a name and `_` everything. A name is bound to
/// the value, and what the parts bind is bound.
pub proof fn law_patterns_match(v: VVal, n: i128, it: IntTy, x: u128, w: u32)
    ensures
        semantics::matched(TPattern::Wildcard, v) == Some(Seq::<(Text, VVal)>::empty()),
        forall|name: Text, ty: TType|
            #[trigger] semantics::matched(TPattern::Binding { name, ty }, v) == Some(
                seq![(name, v)],
            ),
        forall|t: i128|
            #[trigger] semantics::matched(TPattern::Int(t), VVal::Int(n, it)) is Some <==> t == n,
        forall|t: i128|
            #[trigger] semantics::matched(TPattern::Int(t), VVal::Bit(x, w)) is Some <==> t == x,
        forall|t: bool, b: bool|
            #[trigger] semantics::matched(TPattern::Bool(t), VVal::Bool(b)) is Some <==> t == b,
        forall|lo: i128, hi: i128|
            #[trigger] semantics::matched(
                TPattern::Range { lo, hi, inclusive: false },
                VVal::Int(n, it),
            ) is Some <==> lo <= n < hi,
        forall|lo: i128, hi: i128|
            #[trigger] semantics::matched(
                TPattern::Range { lo, hi, inclusive: true },
                VVal::Int(n, it),
            ) is Some <==> lo <= n <= hi,
        forall|lo: i128, hi: i128|
            #[trigger] semantics::matched(
                TPattern::Range { lo, hi, inclusive: false },
                VVal::Bit(x, w),
            ) is Some <==> lo <= x < hi,
        forall|lo: i128, hi: i128|
            #[trigger] semantics::matched(
                TPattern::Range { lo, hi, inclusive: true },
                VVal::Bit(x, w),
            ) is Some <==> lo <= x <= hi,
{
}

/// A tuple, and a variant, is matched part by part, and binds what its parts bind; alternatives
/// match what one of them matches, and bind what the first that matches binds.
pub proof fn law_patterns_of_parts_match(
    ps: Seq<TPattern>,
    vs: Seq<VVal>,
    enum_name: Text,
    name: Text,
    tag: usize,
    t: usize,
    v: VVal,
)
    ensures
        semantics::matched(TPattern::Tuple(ps), VVal::Tuple(vs)) is Some <==> ps.len() == vs.len()
            && forall|k: int|
            0 <= k < ps.len() ==> semantics::matched(#[trigger] ps[k], vs[k]) is Some,
        semantics::matched(
            TPattern::Variant { enum_name, tag, subpatterns: ps },
            VVal::Enum(name, t, vs),
        ) is Some <==> tag == t && ps.len() == vs.len() && forall|k: int|
            0 <= k < ps.len() ==> semantics::matched(#[trigger] ps[k], vs[k]) is Some,
        semantics::matched(TPattern::Tuple(ps), VVal::Tuple(vs)) matches Some(b) ==> forall|
            k: int,
            x: (Text, VVal),
        |
            0 <= k < ps.len() && #[trigger] semantics::matched(ps[k], vs[k])->0.contains(x)
                ==> b.contains(x),
        semantics::matched(
            TPattern::Variant { enum_name, tag, subpatterns: ps },
            VVal::Enum(name, t, vs),
        ) matches Some(b) ==> forall|k: int, x: (Text, VVal)|
            0 <= k < ps.len() && #[trigger] semantics::matched(ps[k], vs[k])->0.contains(x)
                ==> b.contains(x),
        semantics::matched(TPattern::Or(ps), v) is Some <==> exists|k: int|
            0 <= k < ps.len() && semantics::matched(#[trigger] ps[k], v) is Some,
        forall|k: int|
            0 <= k < ps.len() && semantics::matched(#[trigger] ps[k], v) is Some && (forall|l: int|
                0 <= l < k ==> semantics::matched(#[trigger] ps[l], v) is None)
                ==> semantics::matched(TPattern::Or(ps), v) == semantics::matched(ps[k], v),
{
    if ps.len() == vs.len() {
        lemma_all(ps, vs, 0);
    }
    lemma_any(ps, v, 0);
}

// ---- loops --------------------------------------------------------------

/// A `while` loop whose condition is not true does not run its body; one whose condition
/// is true runs it and starts again.
pub proof fn law_while_runs_while_true(m: TModule, fuel: nat, cond: TExpr, body: TBlock, s: Mem)
    requires
        fuel > 0,
    ensures
        ({
            let f = (fuel - 1) as nat;
            let (c, s1) = semantics::eval_expr(m, f, cond, s);
            let (b, s2) = semantics::eval_block(m, f, body, s1);
            &&& c == Ok::<VVal, Flow>(VVal::Bool(false)) ==> semantics::eval_while(
                m,
                fuel,
                cond,
                body,
                s,
            ) == (Ok::<(), Flow>(()), s1)
            &&& c == Ok::<VVal, Flow>(VVal::Bool(true)) && b is Ok ==> semantics::eval_while(
                m,
                fuel,
                cond,
                body,
                s,
            ) == semantics::eval_while(m, f, cond, body, s2)
        }),
{
}

/// Behind a `while` loop its condition has just been found not to be true.
pub proof fn law_while_ends_where_its_condition_fails(
    m: TModule,
    fuel: nat,
    cond: TExpr,
    body: TBlock,
    s: Mem,
)
    requires
        semantics::eval_while(m, fuel, cond, body, s).0 is Ok,
    ensures
        exists|f: nat, t: Mem|
            (#[trigger] semantics::eval_expr(m, f, cond, t)).1 == semantics::eval_while(
                m,
                fuel,
                cond,
                body,
                s,
            ).1 && semantics::eval_expr(m, f, cond, t).0 is Ok && semantics::eval_expr(
                m,
                f,
                cond,
                t,
            ).0 != Ok::<VVal, Flow>(VVal::Bool(true)),
    decreases fuel,
{
    let f = (fuel - 1) as nat;
    let (c, s1) = semantics::eval_expr(m, f, cond, s);
    if c == Ok::<VVal, Flow>(VVal::Bool(true)) {
        let (b, s2) = semantics::eval_block(m, f, body, s1);
        law_while_ends_where_its_condition_fails(m, f, cond, body, s2);
    } else {
        assert(semantics::eval_expr(m, f, cond, s) == (
            Ok::<VVal, Flow>(c->Ok_0),
            semantics::eval_while(m, fuel, cond, body, s).1,
        ));
    }
}

/// The body that prints the loop variable.
pub open spec fn printing(var: Text, ty: TType) -> TBlock {
    TBlock {
        stmts: Seq::empty(),
        tail: Some(
            Box::new(
                TExpr {
                    kind: TKind::Print {
                        arg: Box::new(TExpr { kind: TKind::Local(var), ty }),
                    },
                    ty: TType::Unit,
                },
            ),
        ),
        ty: TType::Unit,
    }
}

/// A `for` loop runs its body for each integer from the first bound up to but without the
/// second, in ascending order, with the loop variable set to it: a body that prints the
/// variable prints exactly these, and behind the loop the variables are as before.
pub proof fn law_for_counts(
    m: TModule,
    fuel: nat,
    var: Text,
    it: IntTy,
    lo: int,
    hi: int,
    s: Mem,
)
    requires
        fuel > 1,
        arith::in_range(lo, it) || lo >= hi,
        arith::in_range(hi, it) || lo >= hi,
    ensures
        semantics::eval_for(m, fuel, var, TType::Int(it), lo, hi, printing(var, TType::Int(it)), s)
            == (
            Ok::<(), Flow>(()),
            Mem {
                env: s.env,
                out: s.out + Seq::new(
                    if lo < hi {
                        (hi - lo) as nat
                    } else {
                        0
                    },
                    |k: int| text::int_text(lo + k),
                ),
                cache: s.cache,
            },
        ),
    decreases hi - lo,
{
    let ty = TType::Int(it);
    let body = printing(var, ty);
    let lines = |a: int|
        Seq::new(
            if a < hi {
                (hi - a) as nat
            } else {
                0
            },
            |k: int| text::int_text(a + k),
        );
    if lo < hi {
        arith::law_norm_range(lo, it);
        let v = VVal::Int(lo as i128, it);
        let inner = Mem { env: s.env.push((var, v)), out: s.out, cache: s.cache };
        law_variables_are_read(m, (fuel - 1) as nat, var, ty, s, v);
        let s1 = Mem {
            env: s.env.push((var, v)),
            out: s.out.push(text::int_text(lo)),
            cache: s.cache,
        };
        assert(semantics::make_int(lo, ty) == v);
        assert(semantics::eval_stmts(m, fuel, body.stmts, 0, inner) == (Ok::<(), Flow>(()), inner));
        assert(semantics::eval_expr(m, fuel, *(body.tail->0), inner) == (
            Ok::<VVal, Flow>(VVal::Unit),
            s1,
        ));
        assert(semantics::cut(s1.env, s1.env.len() as int) =~= s1.env);
        assert(semantics::eval_block(m, fuel, body, inner) == (Ok::<VVal, Flow>(VVal::Unit), s1));
        assert(semantics::cut(s1.env, s.env.len() as int) =~= s.env);
        let s2 = Mem { env: s.env, out: s1.out, cache: s.cache };
        lemma_between(lo, hi, it);
        law_for_counts(m, fuel, var, it, lo + 1, hi, s2);
        let a = Seq::new((hi - lo) as nat, |k: int| text::int_text(lo + k));
        let b = Seq::new(
            if lo + 1 < hi {
                (hi - (lo + 1)) as nat
            } else {
                0
            },
            |k: int| text::int_text(lo + 1 + k),
        );
        assert(s.out + a =~= s2.out + b);
    } else {
        assert(s.out + Seq::new(0, |k: int| text::int_text(lo + k)) =~= s.out);
    }
}

proof fn lemma_between(lo: int, hi: int, it: IntTy)
    requires
        lo < hi,
        arith::in_range(lo, it),
        arith::in_range(hi, it),
    ensures
        arith::in_range(lo + 1, it),
{
}

/// The bounds of a `for` loop are evaluated once, the first bound first.
pub proof fn law_bounds_are_evaluated_once(
    m: TModule,
    fuel: nat,
    var: Text,
    ty: TType,
    lo: TExpr,
    hi: TExpr,
    body: TBlock,
    s: Mem,
    a: (VVal, Mem),
    b: (VVal, Mem),
)
    requires
        fuel > 0,
        semantics::eval_expr(m, fuel, lo, s) == (Ok::<VVal, Flow>(a.0), a.1),
        semantics::eval_expr(m, fuel, hi, a.1) == (Ok::<VVal, Flow>(b.0), b.1),
    ensures
        a.0 matches VVal::Int(x, _) ==> (b.0 matches VVal::Int(y, _) ==> semantics::eval_stmt(
            m,
            fuel,
            TStmt::For { var, ty, lo, hi, body },
            s,
        ) == semantics::eval_for(
            m,
            (fuel - 1) as nat,
            var,
            ty,
            x as int,
            y as int,
            body,
            b.1,
        )),
        a.0 matches VVal::Bit(x, _) ==> (b.0 matches VVal::Bit(y, _) ==> semantics::eval_stmt(
            m,
            fuel,
            TStmt::For { var, ty, lo, hi, body },
            s,
        ) == semantics::eval_for(
            m,
            (fuel - 1) as nat,
            var,
            ty,
            x as int,
            y as int,
            body,
            b.1,
        )),
{
}

/// A loop stops where its body fails or returns: what ended the body ends the loop, and the
/// variables of the body are gone.
pub proof fn law_loops_stop_where_their_body_does(
    m: TModule,
    fuel: nat,
    var: Text,
    ty: TType,
    lo: int,
    hi: int,
    cond: TExpr,
    body: TBlock,
    s: Mem,
    x: Flow,
)
    requires
        fuel > 0,
    ensures
        ({
            let (r, s1) = semantics::eval_block(
                m,
                fuel,
                body,
                semantics::with_env(s, s.env.push((var, semantics::make_int(lo, ty)))),
            );
            lo < hi && r == Err::<VVal, Flow>(x) ==> semantics::eval_for(
                m,
                fuel,
                var,
                ty,
                lo,
                hi,
                body,
                s,
            ).0 == Err::<(), Flow>(x)
        }),
        ({
            let f = (fuel - 1) as nat;
            let (c, s1) = semantics::eval_expr(m, f, cond, s);
            let (r, s2) = semantics::eval_block(m, f, body, s1);
            &&& c == Err::<VVal, Flow>(x) ==> semantics::eval_while(m, fuel, cond, body, s) == (
                Err::<(), Flow>(x),
                s1,
            )
            &&& c == Ok::<VVal, Flow>(VVal::Bool(true)) && r == Err::<VVal, Flow>(x)
                ==> semantics::eval_while(m, fuel, cond, body, s) == (Err::<(), Flow>(x), s2)
        }),
{
}

/// Where a part fails or returns, the whole does: the condition of an `if`, what a `match`
/// matches, what is printed, and the first argument that does of a call or a literal.
pub proof fn law_failures_spread(
    m: TModule,
    fuel: nat,
    e: TExpr,
    rest: Seq<TExpr>,
    a: TBlock,
    b: TBlock,
    arms: Seq<TArm>,
    func: Text,
    ty: TType,
    s: Mem,
    x: Flow,
    s1: Mem,
)
    requires
        fuel > 0,
        semantics::eval_expr(m, (fuel - 1) as nat, e, s) == (Err::<VVal, Flow>(x), s1),
    ensures
        ({
            let whole = |k: TKind| semantics::eval_expr(m, fuel, TExpr { kind: k, ty }, s);
            let gone = (Err::<VVal, Flow>(x), s1);
            &&& whole(
                TKind::If { cond: Box::new(e), then_branch: a, else_branch: b },
            ) == gone
            &&& whole(TKind::Match { scrutinee: Box::new(e), arms }) == gone
            &&& whole(TKind::Print { arg: Box::new(e) }) == gone
            &&& whole(TKind::Call { func, args: seq![e] + rest }) == gone
            &&& whole(TKind::Array(seq![e] + rest)) == gone
            &&& whole(TKind::MakeTuple(seq![e] + rest)) == gone
            &&& whole(TKind::MakeStruct { name: func, fields: seq![e] + rest }) == gone
        }),
{
    let es = seq![e] + rest;
    assert(es[0] == e);
    assert(semantics::eval_args(m, (fuel - 1) as nat, es, 0, Seq::empty(), s) == (
        Err::<Seq<VVal>, Flow>(x),
        s1,
    ));
}

// ---- calls --------------------------------------------------------------

/// In a function the name of the `i`-th parameter means the `i`-th argument, whatever
/// the variables of the caller are called.
pub proof fn law_parameters_mean_arguments(
    m: TModule,
    fuel: nat,
    name: Text,
    f: TFunc,
    args: Seq<VVal>,
    i: int,
    ty: TType,
    s: Mem,
)
    requires
        fuel > 0,
        name_map::find(m.funcs, name) == Some(f),
        f.params.len() == args.len(),
        0 <= i < args.len(),
        forall|j: int| i < j < args.len() ==> (#[trigger] f.params[j]).name != f.params[i].name,
        f.body == (TBlock {
            stmts: Seq::empty(),
            tail: Some(Box::new(TExpr { kind: TKind::Local(f.params[i].name), ty })),
            ty,
        }),
    ensures
        semantics::call_func(m, fuel, name, args, s) == (Ok::<VVal, Flow>(args[i]), s),
{
    let env = semantics::bind_params(f.params, args);
    let inner = semantics::with_env(s, env);
    assert(env.len() == args.len());
    assert forall|j: int| 0 <= j < env.len() implies (#[trigger] env[j]) == (
        f.params[j].name,
        args[j],
    ) by {}
    assert forall|j: int| i < j < env.len() implies (#[trigger] env[j]).0 != f.params[i].name by {
        assert(f.params[j].name != f.params[i].name);
    }
    lemma_slot_found(env, f.params[i].name, env.len() as int, i);
    assert(semantics::eval_stmts(m, fuel, f.body.stmts, 0, inner) == (Ok::<(), Flow>(()), inner));
    assert(semantics::eval_expr(m, fuel, *(f.body.tail->0), inner) == (
        Ok::<VVal, Flow>(args[i]),
        inner,
    ));
    assert(semantics::cut(env, env.len() as int) =~= env);
    assert(semantics::with_env(inner, s.env) == s);
}

/// A call gives the value of the body of the function, or what the first `return` in it
/// gives; nothing behind that `return` runs.
pub proof fn law_calls_give_what_the_body_gives(
    m: TModule,
    fuel: nat,
    name: Text,
    f: TFunc,
    args: Seq<VVal>,
    s: Mem,
    v: VVal,
)
    requires
        name_map::find(m.funcs, name) == Some(f),
        ({
            let r = semantics::eval_block(
                m,
                fuel,
                f.body,
                semantics::with_env(s, semantics::bind_params(f.params, args)),
            ).0;
            r == Ok::<VVal, Flow>(v) || r == Err::<VVal, Flow>(Flow::Return(v))
        }),
    ensures
        semantics::call_func(m, fuel, name, args, s).0 == Ok::<VVal, Flow>(v),
        semantics::call_func(m, fuel, name, args, s).1.env == s.env,
{
}

/// A `return` ends the statements with its value.
pub proof fn law_return_ends_the_body(
    m: TModule,
    fuel: nat,
    e: TExpr,
    rest: Seq<TStmt>,
    s: Mem,
    v: VVal,
    s1: Mem,
)
    requires
        semantics::eval_expr(m, fuel, e, s) == (Ok::<VVal, Flow>(v), s1),
    ensures
        semantics::eval_stmts(m, fuel, seq![TStmt::Return { value: Some(e) }] + rest, 0, s) == (
            Err::<(), Flow>(Flow::Return(v)),
            s1,
        ),
        semantics::eval_stmts(m, fuel, seq![TStmt::Return { value: None }] + rest, 0, s) == (
            Err::<(), Flow>(Flow::Return(VVal::Unit)),
            s,
        ),
{
    let a = seq![TStmt::Return { value: Some(e) }] + rest;
    let b = seq![TStmt::Return { value: None }] + rest;
    assert(a[0] == (TStmt::Return { value: Some(e) }));
    assert(b[0] == (TStmt::Return { value: None }));
    assert(semantics::eval_stmt(m, fuel, a[0], s) == (Err::<(), Flow>(Flow::Return(v)), s1));
    assert(semantics::eval_stmt(m, fuel, b[0], s) == (
        Err::<(), Flow>(Flow::Return(VVal::Unit)),
        s,
    ));
    law_statements_run_in_order(m, fuel, a, seq![s], 0);
    law_statements_run_in_order(m, fuel, b, seq![s], 0);
}

/// A constant that has not been read yet has the value of its initialiser, evaluated with
/// no variable in scope.
pub proof fn law_constants_have_the_value_of_their_initialiser(
    m: TModule,
    fuel: nat,
    name: Text,
    c: TConst,
    s: Mem,
    v: VVal,
)
    requires
        name_map::find(s.cache, name) is None,
        name_map::find(m.consts, name) == Some(c),
        semantics::eval_expr(
            m,
            fuel,
            c.init,
            Mem { env: Seq::empty(), out: s.out, cache: s.cache },
        ).0 == Ok::<VVal, Flow>(v),
    ensures
        semantics::eval_const(m, fuel, name, s).0 == Ok::<VVal, Flow>(v),
        semantics::eval_const(m, fuel, name, s).1.env == s.env,
{
}

// ---- parts --------------------------------------------------------------

/// A field, a part or an element is taken from the struct, the tuple or the array by its
/// position.
pub proof fn law_parts_are_taken_by_position(
    m: TModule,
    fuel: nat,
    base: TExpr,
    index: TExpr,
    i: usize,
    ty: TType,
    s: Mem,
    v: VVal,
    s1: Mem,
    w: VVal,
    s2: Mem,
)
    requires
        fuel > 0,
        semantics::eval_expr(m, (fuel - 1) as nat, base, s) == (Ok::<VVal, Flow>(v), s1),
        semantics::eval_expr(m, (fuel - 1) as nat, index, s1) == (Ok::<VVal, Flow>(w), s2),
    ensures
        v matches VVal::Struct(_, xs) ==> i < xs.len() ==> semantics::eval_expr(
            m,
            fuel,
            TExpr { kind: TKind::Field { base: Box::new(base), index: i }, ty },
            s,
        ) == (Ok::<VVal, Flow>(xs[i as int]), s1),
        v matches VVal::Tuple(xs) ==> i < xs.len() ==> semantics::eval_expr(
            m,
            fuel,
            TExpr { kind: TKind::TupleField { base: Box::new(base), index: i }, ty },
            s,
        ) == (Ok::<VVal, Flow>(xs[i as int]), s1),
        v matches VVal::Array(xs) ==> (w matches VVal::Int(k, _) ==> 0 <= k < xs.len()
            ==> semantics::eval_expr(
            m,
            fuel,
            TExpr {
                kind: TKind::Index { base: Box::new(base), index: Box::new(index) },
                ty,
            },
            s,
        ) == (Ok::<VVal, Flow>(xs[k as int]), s2)),
        v matches VVal::Array(xs) ==> (w matches VVal::Bit(k, _) ==> k < xs.len()
            ==> semantics::eval_expr(
            m,
            fuel,
            TExpr {
                kind: TKind::Index { base: Box::new(base), index: Box::new(index) },
                ty,
            },
            s,
        ) == (Ok::<VVal, Flow>(xs[k as int]), s2)),
{
}

/// `print` adds one line, the text of its value, behind what was printed before, and gives
/// no value.
pub proof fn law_print_adds_a_line(
    m: TModule,
    fuel: nat,
    arg: TExpr,
    ty: TType,
    s: Mem,
    v: VVal,
    s1: Mem,
)
    requires
        fuel > 0,
        semantics::eval_expr(m, (fuel - 1) as nat, arg, s) == (Ok::<VVal, Flow>(v), s1),
    ensures
        ({
            let (r, s2) = semantics::eval_expr(
                m,
                fuel,
                TExpr { kind: TKind::Print { arg: Box::new(arg) }, ty },
                s,
            );
            &&& r == Ok::<VVal, Flow>(VVal::Unit)
            &&& s2.env == s1.env && s2.cache == s1.cache
            &&& s2.out.len() == s1.out.len() + 1
            &&& s2.out.drop_last() == s1.out
            &&& v matches VVal::Bool(b) ==> s2.out.last() == (if b {
                "true"@
            } else {
                "false"@
            })
            &&& v matches VVal::Int(n, _) ==> s2.out.last() == text::int_text(n as int)
            &&& v matches VVal::Bit(n, _) ==> s2.out.last() == text::int_text(n as int)
            &&& v matches VVal::Unit ==> s2.out.last() == "()"@
        }),
{
    let line = v.show(m);
    assert(s1.out.push(line).drop_last() =~= s1.out);
}

/// A run that ends with a value or by a `return` succeeded with that value; one that traps
/// failed with the message of the trap.
pub proof fn law_outcomes(v: VVal, d: Diag)
    ensures
        semantics::settled(Ok(v)) == Ok::<VVal, Diag>(v),
        semantics::settled(Err(Flow::Return(v))) == Ok::<VVal, Diag>(v),
        semantics::settled(Err(Flow::Error(d))) == Err::<VVal, Diag>(d),
        semantics::settled(Err(Flow::Exhausted)) is Err,
{
}

} // verus!
