//! The ordered store: sled's tree, reached through a few trusted calls.
use vstd::prelude::*;
use std::sync::Arc;
use crate::key::KeyBound;

verus! {

/// Declares sled's tree, carried through opaquely.
#[verifier::external_type_specification]
#[verifier::external_body]
pub struct ExTree(sled::Tree);

/// Declares sled's range iterator, carried through opaquely.
#[verifier::external_type_specification]
#[verifier::external_body]
pub struct ExIter(sled::Iter);

/// Declares sled's byte buffer: the items of sled's iterator hold it, and
/// declaring the iterator needs it declared too.
#[verifier::external_type_specification]
#[verifier::external_body]
pub struct ExIVec(sled::IVec);

/// Relies on `sled::Tree::range`: an iterator over the entries whose keys lie
/// between the two bounds. What it yields depends on the store's contents.
#[verifier::external_body]
pub(crate) fn scan_range(tree: &Arc<sled::Tree>, lo: KeyBound, hi: KeyBound) -> sled::Iter {
    let lo = match lo {
        KeyBound::Included(k) => std::ops::Bound::Included(k),
        KeyBound::Excluded(k) => std::ops::Bound::Excluded(k),
    };
    let hi = match hi {
        KeyBound::Included(k) => std::ops::Bound::Included(k),
        KeyBound::Excluded(k) => std::ops::Bound::Excluded(k),
    };
    tree.range::<Vec<u8>, _>((lo, hi))
}

/// Relies on `DoubleEndedIterator::next_back` of `sled::Iter`: the next entry
/// of the range from the high end, as key and value bytes, or a store error.
#[verifier::external_body]
pub(crate) fn next_back(it: &mut sled::Iter) -> Option<Result<(Vec<u8>, Vec<u8>), sled::Error>> {
    it.next_back().map(|r| r.map(|(k, v)| (k.to_vec(), v.to_vec())))
}

/// Relies on `sled::Tree::update_and_fetch`: the value now stored under `key`
/// is what `f` returned for some value that was stored there (it may run `f`
/// more than once, until its compare-and-swap succeeds).
#[verifier::external_body]
pub(crate) fn update_and_fetch<F: Fn(Option<&[u8]>) -> Option<Vec<u8>>>(
    tree: &Arc<sled::Tree>,
    key: Vec<u8>,
    f: F,
) -> (r: Result<Option<Vec<u8>>, sled::Error>)
    requires
        forall|o: Option<&[u8]>| f.requires((o,)),
    ensures
        r matches Ok(n) ==> exists|o: Option<&[u8]>| #[trigger] f.ensures((o,), n),
{
    tree.update_and_fetch(key, f).map(|n| n.map(|v| v.to_vec()))
}

/// Relies on `sled::Tree::insert`: stores `value` under `key` and returns the
/// value that was stored there before, if any.
#[verifier::external_body]
pub(crate) fn insert(tree: &Arc<sled::Tree>, key: Vec<u8>, value: Vec<u8>) -> Result<
    Option<Vec<u8>>,
    sled::Error,
> {
    tree.insert(key, value).map(|o| o.map(|v| v.to_vec()))
}

} // verus!
