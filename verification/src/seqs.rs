//! Views of vectors, element by element.

use vstd::prelude::*;

verus! {

/// The view of each element of `v`, in order.
pub open spec fn views<T: View>(v: Seq<T>) -> Seq<T::V> {
    v.map_values(|a: T| a@)
}

pub proof fn lemma_views_push<T: View>(v: Seq<T>, x: T)
    ensures
        views(v.push(x)) == views(v).push(x@),
{
    assert(views(v.push(x)) =~= views(v).push(x@));
}

pub proof fn lemma_views_empty<T: View>(v: Seq<T>)
    requires
        v.len() == 0,
    ensures
        views(v) == Seq::<T::V>::empty(),
{
    assert(views(v) =~= Seq::<T::V>::empty());
}

} // verus!
