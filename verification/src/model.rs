//! From values to their mathematical models: the view of each element of
//! a sequence.

use vstd::prelude::*;

verus! {

/// The mathematical values of the elements of a sequence, in order.
pub open spec fn views<T: View>(items: Seq<T>) -> Seq<T::V> {
    Seq::new(items.len(), |i: int| items[i]@)
}

/// The values of a sequence with one more element.
pub proof fn lemma_views_push<T: View>(items: Seq<T>, last: T)
    ensures
        views(items.push(last)) == views(items).push(last@),
{
    assert(views(items.push(last)) =~= views(items).push(last@));
}

/// The values of a sequence without its last element.
pub proof fn lemma_views_drop_last<T: View>(items: Seq<T>)
    requires
        items.len() > 0,
    ensures
        views(items.drop_last()) == views(items).drop_last(),
        views(items).last() == items.last()@,
{
    assert(views(items.drop_last()) =~= views(items).drop_last());
}

/// What a sequence with one more element contains.
pub proof fn lemma_push_contains<T>(s: Seq<T>, last: T, x: T)
    ensures
        s.push(last).contains(x) <==> s.contains(x) || x == last,
{
    if s.contains(x) {
        let i = choose|i: int| 0 <= i < s.len() && s[i] == x;
        assert(s.push(last)[i] == x);
    }
    if x == last {
        assert(s.push(last)[s.len() as int] == x);
    }
    if s.push(last).contains(x) {
        let i = choose|i: int| 0 <= i < s.push(last).len() && s.push(last)[i] == x;
        if i < s.len() {
            assert(s[i] == x);
        }
    }
}

} // verus!
