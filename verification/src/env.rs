//! Stacks of named things: variables, innermost last.

use crate::semantics;
use crate::text::{self, str_eq, Text};
use crate::value::{self, Value};
use vstd::prelude::*;

verus! {

/// Local variables, innermost last.
pub type Env = Vec<(String, Value)>;

/// The entries of a stack, by view.
pub open spec fn locals<T: View>(env: Seq<(String, T)>) -> Seq<(Text, T::V)> {
    env.map_values(|e: (String, T)| (e.0@, e.1@))
}

pub broadcast proof fn lemma_locals_len<T: View>(env: Seq<(String, T)>)
    ensures
        #[trigger] locals(env).len() == env.len(),
{
}

pub broadcast proof fn lemma_locals_push<T: View>(env: Seq<(String, T)>, e: (String, T))
    ensures
        #[trigger] locals(env.push(e)) == locals(env).push((e.0@, e.1@)),
{
    assert(locals(env.push(e)) =~= locals(env).push((e.0@, e.1@)));
}

pub broadcast proof fn lemma_locals_add<T: View>(a: Seq<(String, T)>, b: Seq<(String, T)>)
    ensures
        #[trigger] locals(a + b) == locals(a) + locals(b),
{
    assert(locals(a + b) =~= locals(a) + locals(b));
}

pub broadcast proof fn lemma_locals_cut<T: View>(env: Seq<(String, T)>, n: int)
    requires
        0 <= n <= env.len(),
    ensures
        #[trigger] locals(env.subrange(0, n)) == locals(env).subrange(0, n),
{
    assert(locals(env.subrange(0, n)) =~= locals(env).subrange(0, n));
}

pub broadcast proof fn lemma_locals_update<T: View>(env: Seq<(String, T)>, i: int, e: (String, T))
    requires
        0 <= i < env.len(),
    ensures
        #[trigger] locals(env.update(i, e)) == locals(env).update(i, (e.0@, e.1@)),
{
    assert(locals(env.update(i, e)) =~= locals(env).update(i, (e.0@, e.1@)));
}

pub broadcast group group_locals {
    lemma_locals_len,
    lemma_locals_push,
    lemma_locals_add,
    lemma_locals_cut,
    lemma_locals_update,
    text::lemma_texts_push,
    value::group_values,
}

/// The position of the innermost entry called `name`.
pub fn find_slot<T: View>(env: &Vec<(String, T)>, name: &str) -> (r: Option<usize>)
    ensures
        match r {
            Some(p) => semantics::slot(locals(env@), name@) == Some(p as int) && p < env.len(),
            None => semantics::slot(locals(env@), name@) is None,
        },
{
    broadcast use lemma_locals_len;

    let mut i: usize = env.len();
    while i > 0
        invariant
            i <= env.len(),
            semantics::slot(locals(env@), name@) == semantics::slot_before(
                locals(env@),
                name@,
                i as int,
            ),
        decreases i,
    {
        assert(locals(env@)[i - 1] == (env[i - 1].0@, env[i - 1].1@));
        if str_eq(env[i - 1].0.as_str(), name) {
            return Some(i - 1);
        }
        i -= 1;
    }
    None
}

} // verus!
