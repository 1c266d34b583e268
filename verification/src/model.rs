//! Views of vectors: the values of a vector, each taken by its own view.

use vstd::prelude::*;

verus! {

/// A type whose values can be copied.
pub trait Duplicate: View + Sized {
    /// A copy, with the same view.
    fn duplicate(&self) -> (r: Self)
        ensures
            r@ == self@,
    ;
}

/// The views of the values of `v`, in order.
pub open spec fn views<T: View>(v: Seq<T>) -> Seq<T::V> {
    Seq::new(v.len(), |i: int| v[i]@)
}

pub broadcast proof fn lemma_views_len<T: View>(v: Seq<T>)
    ensures
        #[trigger] views(v).len() == v.len(),
{
}

pub broadcast proof fn lemma_views_index<T: View>(v: Seq<T>, i: int)
    requires
        0 <= i < v.len(),
    ensures
        #[trigger] views(v)[i] == v[i]@,
{
}

pub broadcast proof fn lemma_views_push<T: View>(v: Seq<T>, x: T)
    ensures
        #[trigger] views(v.push(x)) == views(v).push(x@),
{
    assert(views(v.push(x)) =~= views(v).push(x@));
}

pub broadcast proof fn lemma_views_cut<T: View>(v: Seq<T>, n: int)
    requires
        0 <= n <= v.len(),
    ensures
        #[trigger] views(v.subrange(0, n)) == views(v).subrange(0, n),
{
    assert(views(v.subrange(0, n)) =~= views(v).subrange(0, n));
}

pub broadcast group group_views {
    lemma_views_len,
    lemma_views_index,
    lemma_views_push,
    lemma_views_cut,
}

} // verus!
