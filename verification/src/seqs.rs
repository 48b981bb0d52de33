//! Helpers for reasoning about the deep views of vectors.

use vstd::prelude::*;

verus! {

/// The sequence of deep views of the elements of `s`; a `Vec`'s deep view is
/// this sequence over its own view.
pub open spec fn deep_of<T: DeepView>(s: Seq<T>) -> Seq<T::V> {
    Seq::new(s.len(), |i: int| s[i].deep_view())
}

/// A vector's deep view is the element-wise deep view of its view.
pub broadcast proof fn lemma_vec_deep_view<T: DeepView>(v: Vec<T>)
    ensures
        #[trigger] v.deep_view() == deep_of(v@),
{
    assert(v.deep_view() =~= deep_of(v@));
}

/// Pushing an element pushes its deep view.
pub broadcast proof fn lemma_deep_of_push<T: DeepView>(s: Seq<T>, x: T)
    ensures
        #[trigger] deep_of(s.push(x)) == deep_of(s).push(x.deep_view()),
{
    assert(deep_of(s.push(x)) =~= deep_of(s).push(x.deep_view()));
}

/// Inserting an element inserts its deep view.
pub broadcast proof fn lemma_deep_of_insert<T: DeepView>(s: Seq<T>, i: int, x: T)
    requires
        0 <= i <= s.len(),
    ensures
        #[trigger] deep_of(s.insert(i, x)) == deep_of(s).insert(i, x.deep_view()),
{
    assert(deep_of(s.insert(i, x)) =~= deep_of(s).insert(i, x.deep_view()));
}

/// Removing an element removes its deep view.
pub broadcast proof fn lemma_deep_of_remove<T: DeepView>(s: Seq<T>, i: int)
    requires
        0 <= i < s.len(),
    ensures
        #[trigger] deep_of(s.remove(i)) == deep_of(s).remove(i),
{
    assert(deep_of(s.remove(i)) =~= deep_of(s).remove(i));
}

} // verus!
