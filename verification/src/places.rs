//! What an assignment to a place does: the place holds the value behind it, and
//! nothing else changes.

use crate::ir::{TExpr, TModule, TPlace};
use crate::semantics::{self, Mem};
use crate::text::Text;
use crate::value::VVal;
use vstd::prelude::*;

verus! {

/// One step into a value: to a field of a struct, a part of a tuple or an element of
/// an array.
pub enum Step {
    Field(usize),
    Part(usize),
    Element(int),
}

/// What one step leads to.
pub open spec fn part_at(v: VVal, t: Step) -> Option<VVal> {
    match (t, v) {
        (Step::Field(i), VVal::Struct(n, xs)) => if i < xs.len() {
            Some(xs[i as int])
        } else {
            None
        },
        (Step::Part(i), VVal::Tuple(xs)) => if i < xs.len() {
            Some(xs[i as int])
        } else {
            None
        },
        (Step::Element(i), VVal::Array(xs)) => if 0 <= i < xs.len() {
            Some(xs[i])
        } else {
            None
        },
        _ => None,
    }
}

/// The value with what one step leads to replaced.
pub open spec fn with_part_at(v: VVal, t: Step, x: VVal) -> VVal {
    match (t, v) {
        (Step::Field(i), VVal::Struct(n, xs)) => VVal::Struct(n, xs.update(i as int, x)),
        (Step::Part(i), VVal::Tuple(xs)) => VVal::Tuple(xs.update(i as int, x)),
        (Step::Element(i), VVal::Array(xs)) => VVal::Array(xs.update(i, x)),
        _ => v,
    }
}

/// What a path of steps leads to.
pub open spec fn at(v: VVal, path: Seq<Step>) -> Option<VVal>
    decreases path.len(),
{
    if path.len() == 0 {
        Some(v)
    } else {
        match at(v, path.drop_last()) {
            Some(c) => part_at(c, path.last()),
            None => None,
        }
    }
}

/// The value with what a path leads to replaced.
pub open spec fn with_at(v: VVal, path: Seq<Step>, x: VVal) -> VVal
    decreases path.len(),
{
    if path.len() == 0 {
        x
    } else {
        match at(v, path.drop_last()) {
            Some(c) => with_at(v, path.drop_last(), with_part_at(c, path.last(), x)),
            None => v,
        }
    }
}

/// Whether two paths part ways: they differ in a step that both have.
pub open spec fn apart(a: Seq<Step>, b: Seq<Step>) -> bool {
    exists|i: int| 0 <= i < a.len() && i < b.len() && #[trigger] a[i] != b[i]
}

proof fn lemma_at_add(v: VVal, a: Seq<Step>, b: Seq<Step>)
    ensures
        at(v, a + b) == match at(v, a) {
            Some(c) => at(c, b),
            None => None,
        },
    decreases b.len(),
{
    if b.len() == 0 {
        assert(a + b =~= a);
    } else {
        assert((a + b).drop_last() =~= a + b.drop_last());
        lemma_at_add(v, a, b.drop_last());
    }
}

/// What was put at the end of a path is found there.
proof fn lemma_read_back(v: VVal, path: Seq<Step>, x: VVal)
    requires
        at(v, path) is Some,
    ensures
        at(with_at(v, path, x), path) == Some(x),
    decreases path.len(),
{
    if path.len() > 0 {
        let b = path.drop_last();
        let c = at(v, b)->Some_0;
        lemma_read_back(v, b, with_part_at(c, path.last(), x));
    }
}

/// What paths that part ways lead to is not touched.
proof fn lemma_others(v: VVal, path: Seq<Step>, x: VVal, q: Seq<Step>)
    requires
        at(v, path) is Some,
        apart(path, q),
    ensures
        at(with_at(v, path, x), q) == at(v, q),
    decreases path.len(),
{
    let b = path.drop_last();
    let t = path.last();
    let c = at(v, b)->Some_0;
    let y = with_part_at(c, t, x);
    if apart(b, q) {
        lemma_others(v, b, y, q);
    } else {
        let n = b.len() as int;
        let i = choose|i: int| 0 <= i < path.len() && i < q.len() && #[trigger] path[i] != q[i];
        if i < n {
            assert(b[i] != q[i]);
        }
        assert(i == n);
        let u = q[n];
        let rest = q.subrange(n + 1, q.len() as int);
        assert(q.subrange(0, n) =~= b) by {
            assert forall|k: int| 0 <= k < n implies q[k] == b[k] by {}
        }
        assert(q =~= b + (seq![u] + rest));
        lemma_read_back(v, b, y);
        lemma_at_add(v, b, seq![u] + rest);
        lemma_at_add(with_at(v, b, y), b, seq![u] + rest);
        lemma_at_add(c, seq![u], rest);
        lemma_at_add(y, seq![u], rest);
        let none: Seq<Step> = Seq::empty();
        assert(none.push(u) =~= seq![u]);
        lemma_path_push(c, none, u, x);
        lemma_path_push(y, none, u, x);
        assert(part_at(y, u) == part_at(c, u));
    }
}

/// The variable that a place is rooted in.
pub open spec fn root(p: TPlace) -> Text
    decreases p,
{
    match p {
        TPlace::Local { name, ty } => name,
        TPlace::Field { base, index, ty } => root(*base),
        TPlace::TupleField { base, index, ty } => root(*base),
        TPlace::Index { base, index, ty } => root(*base),
    }
}

/// The memory with another value in the variable at position `q`.
pub open spec fn with_var(s: Mem, q: int, x: VVal) -> Mem {
    semantics::with_env(s, s.env.update(q, (s.env[q].0, x)))
}

/// Whether an expression has no effects and does not read the variable at position
/// `q`: whatever that holds, the result is the same and the memory stays.
pub open spec fn independent(m: TModule, fuel: nat, e: TExpr, s: Mem, q: int) -> bool {
    forall|x: VVal| #[trigger]
        semantics::eval_expr(m, fuel, e, with_var(s, q, x)) == (
            semantics::eval_expr(m, fuel, e, s).0,
            with_var(s, q, x),
        )
}

/// Whether this holds of all index expressions of a place.
pub open spec fn indices_independent(m: TModule, fuel: nat, p: TPlace, s: Mem, q: int) -> bool
    decreases p,
{
    match p {
        TPlace::Local { name, ty } => true,
        TPlace::Field { base, index, ty } => indices_independent(m, fuel, *base, s, q),
        TPlace::TupleField { base, index, ty } => indices_independent(m, fuel, *base, s, q),
        TPlace::Index { base, index, ty } => independent(m, fuel, *index, s, q)
            && indices_independent(m, fuel, *base, s, q),
    }
}

/// The path from the variable to the place, where all its indices have values.
pub open spec fn path_of(m: TModule, fuel: nat, p: TPlace, s: Mem) -> Option<Seq<Step>>
    decreases p,
{
    match p {
        TPlace::Local { name, ty } => Some(Seq::empty()),
        TPlace::Field { base, index, ty } => match path_of(m, fuel, *base, s) {
            Some(path) => Some(path.push(Step::Field(index))),
            None => None,
        },
        TPlace::TupleField { base, index, ty } => match path_of(m, fuel, *base, s) {
            Some(path) => Some(path.push(Step::Part(index))),
            None => None,
        },
        TPlace::Index { base, index, ty } => match semantics::eval_expr(m, fuel, *index, s).0 {
            Ok(i) => match path_of(m, fuel, *base, s) {
                Some(path) => Some(path.push(Step::Element(semantics::int_of(i)))),
                None => None,
            },
            Err(_) => None,
        },
    }
}

/// What the place holds while its variable holds `x`.
pub open spec fn held(m: TModule, fuel: nat, p: TPlace, s: Mem, x: VVal) -> Option<VVal> {
    match path_of(m, fuel, p, s) {
        Some(path) => at(x, path),
        None => None,
    }
}

proof fn lemma_slot_same(s: Mem, q: int, x: VVal, name: Text, i: int)
    requires
        0 <= q < s.env.len(),
        0 <= i <= s.env.len(),
    ensures
        semantics::slot_before(with_var(s, q, x).env, name, i) == semantics::slot_before(
            s.env,
            name,
            i,
        ),
    decreases i,
{
    if i > 0 {
        lemma_slot_same(s, q, x, name, i - 1);
    }
}

proof fn lemma_path_push(v: VVal, path: Seq<Step>, t: Step, x: VVal)
    ensures
        path.push(t).drop_last() == path,
        at(v, path.push(t)) == match at(v, path) {
            Some(c) => part_at(c, t),
            None => None,
        },
        at(v, path) matches Some(c) ==> with_at(v, path.push(t), x) == with_at(
            v,
            path,
            with_part_at(c, t, x),
        ),
{
    assert(path.push(t).drop_last() =~= path);
}

proof fn lemma_load(m: TModule, fuel: nat, p: TPlace, s: Mem, q: int, x: VVal)
    requires
        semantics::slot(s.env, root(p)) == Some(q),
        0 <= q < s.env.len(),
        indices_independent(m, fuel, p, s, q),
    ensures
        semantics::load(m, fuel, p, with_var(s, q, x)).1 == with_var(s, q, x),
        match held(m, fuel, p, s, x) {
            Some(v) => semantics::load(m, fuel, p, with_var(s, q, x)).0 == Ok::<
                VVal,
                semantics::Flow,
            >(v),
            None => semantics::load(m, fuel, p, with_var(s, q, x)).0 is Err,
        },
    decreases p,
{
    let s1 = with_var(s, q, x);
    match p {
        TPlace::Local { name, ty } => {
            lemma_slot_same(s, q, x, name, s.env.len() as int);
        },
        TPlace::Field { base, index, ty } => {
            lemma_load(m, fuel, *base, s, q, x);
            match path_of(m, fuel, *base, s) {
                Some(path) => lemma_path_push(x, path, Step::Field(index), x),
                None => {},
            }
        },
        TPlace::TupleField { base, index, ty } => {
            lemma_load(m, fuel, *base, s, q, x);
            match path_of(m, fuel, *base, s) {
                Some(path) => lemma_path_push(x, path, Step::Part(index), x),
                None => {},
            }
        },
        TPlace::Index { base, index, ty } => {
            lemma_load(m, fuel, *base, s, q, x);
            assert(semantics::eval_expr(m, fuel, *index, s1) == (
                semantics::eval_expr(m, fuel, *index, s).0,
                s1,
            ));
            match semantics::eval_expr(m, fuel, *index, s).0 {
                Ok(i) => match path_of(m, fuel, *base, s) {
                    Some(path) => lemma_path_push(
                        x,
                        path,
                        Step::Element(semantics::int_of(i)),
                        x,
                    ),
                    None => {},
                },
                Err(_) => {},
            }
        },
    }
}

#[verifier::rlimit(40)]
proof fn lemma_store(m: TModule, fuel: nat, p: TPlace, v: VVal, s: Mem, q: int, x: VVal)
    requires
        semantics::slot(s.env, root(p)) == Some(q),
        0 <= q < s.env.len(),
        indices_independent(m, fuel, p, s, q),
    ensures
        match held(m, fuel, p, s, x) {
            Some(_) => semantics::store(m, fuel, p, v, with_var(s, q, x)) == (
                Ok::<(), semantics::Flow>(()),
                with_var(s, q, with_at(x, path_of(m, fuel, p, s)->Some_0, v)),
            ),
            None => semantics::store(m, fuel, p, v, with_var(s, q, x)).0 is Err
                && semantics::store(m, fuel, p, v, with_var(s, q, x)).1 == with_var(s, q, x),
        },
    decreases p,
{
    let s1 = with_var(s, q, x);
    match p {
        TPlace::Local { name, ty } => {
            lemma_slot_same(s, q, x, name, s.env.len() as int);
            crate::wires::lemma_slot_bound(s.env, name, s.env.len() as int);
            assert(s1.env.update(q, (name, v)) =~= with_var(s, q, v).env);
        },
        TPlace::Field { base, index, ty } => {
            lemma_load(m, fuel, *base, s, q, x);
            match path_of(m, fuel, *base, s) {
                Some(path) => {
                    lemma_path_push(x, path, Step::Field(index), v);
                    match at(x, path) {
                        Some(c) => {
                            let next = with_part_at(c, Step::Field(index), v);
                            lemma_store(m, fuel, *base, next, s, q, x);
                        },
                        None => {},
                    }
                },
                None => {},
            }
        },
        TPlace::TupleField { base, index, ty } => {
            lemma_load(m, fuel, *base, s, q, x);
            match path_of(m, fuel, *base, s) {
                Some(path) => {
                    lemma_path_push(x, path, Step::Part(index), v);
                    match at(x, path) {
                        Some(c) => {
                            let next = with_part_at(c, Step::Part(index), v);
                            lemma_store(m, fuel, *base, next, s, q, x);
                        },
                        None => {},
                    }
                },
                None => {},
            }
        },
        TPlace::Index { base, index, ty } => {
            lemma_load(m, fuel, *base, s, q, x);
            assert(semantics::eval_expr(m, fuel, *index, s1) == (
                semantics::eval_expr(m, fuel, *index, s).0,
                s1,
            ));
            match semantics::eval_expr(m, fuel, *index, s).0 {
                Ok(i) => match path_of(m, fuel, *base, s) {
                    Some(path) => {
                        let t = Step::Element(semantics::int_of(i));
                        lemma_path_push(x, path, t, v);
                        match at(x, path) {
                            Some(c) => {
                                let next = with_part_at(c, t, v);
                                lemma_store(m, fuel, *base, next, s, q, x);
                            },
                            None => {},
                        }
                    },
                    None => {},
                },
                Err(_) => {},
            }
        },
    }
}

/// A store to a place whose index expressions have no effects and do not read the
/// variable that the place is rooted in. Where it succeeds, the place holds the value
/// behind it; every other variable keeps its value, and so does every field, part and
/// element of the variable that lies off the path to the place. Where it fails,
/// nothing changes.
pub proof fn law_store_sets_one_place(m: TModule, fuel: nat, p: TPlace, v: VVal, s: Mem, q: int)
    requires
        semantics::slot(s.env, root(p)) == Some(q),
        indices_independent(m, fuel, p, s, q),
    ensures
        ({
            let (r, s1) = semantics::store(m, fuel, p, v, s);
            match r {
                Err(_) => s1 == s,
                Ok(_) => {
                    &&& semantics::load(m, fuel, p, s1) == (Ok::<VVal, semantics::Flow>(v), s1)
                    &&& s1.out == s.out && s1.cache == s.cache
                    &&& s1.env.len() == s.env.len()
                    &&& forall|i: int|
                        0 <= i < s.env.len() ==> (#[trigger] s1.env[i]).0 == s.env[i].0
                    &&& forall|i: int|
                        0 <= i < s.env.len() && i != q ==> #[trigger] s1.env[i] == s.env[i]
                    &&& path_of(m, fuel, p, s) is Some
                    &&& at(s1.env[q].1, path_of(m, fuel, p, s)->Some_0) == Some(v)
                    &&& forall|other: Seq<Step>|
                        apart(path_of(m, fuel, p, s)->Some_0, other) ==> #[trigger] at(
                            s1.env[q].1,
                            other,
                        ) == at(s.env[q].1, other)
                },
            }
        }),
{
    crate::wires::lemma_slot_bound(s.env, root(p), s.env.len() as int);
    let x = s.env[q].1;
    assert(with_var(s, q, x) =~= s) by {
        assert(s.env.update(q, (s.env[q].0, x)) =~= s.env);
    }
    lemma_store(m, fuel, p, v, s, q, x);
    match held(m, fuel, p, s, x) {
        Some(_) => {
            let path = path_of(m, fuel, p, s)->Some_0;
            let y = with_at(x, path, v);
            lemma_read_back(x, path, v);
            lemma_load(m, fuel, p, s, q, y);
            assert forall|other: Seq<Step>| apart(path, other) implies #[trigger] at(y, other)
                == at(x, other) by {
                lemma_others(x, path, v, other);
            }
        },
        None => {},
    }
}

} // verus!
