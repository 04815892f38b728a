//! Chance: shuffling and picking.

use vstd::prelude::*;

verus! {

/// `rand`'s `SliceRandom::shuffle` with `thread_rng`: the same elements in some
/// order. Nothing is claimed of which order.
#[verifier::external_body]
pub(crate) fn shuffle<T>(v: Vec<T>) -> (r: Vec<T>)
    ensures
        r@.to_multiset() == v@.to_multiset(),
        r@.len() == v@.len(),
{
    let mut v = v;
    rand::seq::SliceRandom::shuffle(&mut v[..], &mut rand::thread_rng());
    v
}

/// `rand`'s `SliceRandom::choose` with `thread_rng`: some element, or none where
/// there are no elements. Nothing is claimed of which one.
#[verifier::external_body]
pub(crate) fn pick<T>(v: &Vec<T>) -> (r: Option<&T>)
    ensures
        r is Some == (v@.len() > 0),
        r is Some ==> v@.contains(*r->0),
{
    rand::seq::SliceRandom::choose(&v[..], &mut rand::thread_rng())
}

/// Two arrangements of the same elements: where one has no duplicates, neither
/// has the other, and they contain the same.
pub(crate) proof fn lemma_same_elements<T>(a: Seq<T>, b: Seq<T>)
    requires
        a.to_multiset() == b.to_multiset(),
        a.no_duplicates(),
    ensures
        b.no_duplicates(),
        a.len() == b.len(),
        forall|x: T| #[trigger] b.contains(x) == a.contains(x),
{
    broadcast use vstd::seq_lib::group_to_multiset_ensures;

    a.lemma_multiset_has_no_duplicates();
    b.lemma_multiset_has_no_duplicates_conv();
    assert(a.len() == a.to_multiset().len());
    assert(b.len() == b.to_multiset().len());
    assert forall|x: T| #[trigger] b.contains(x) == a.contains(x) by {
        assert(b.contains(x) == (b.to_multiset().count(x) > 0));
        assert(a.contains(x) == (a.to_multiset().count(x) > 0));
    }
}

} // verus!
