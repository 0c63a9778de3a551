//! The versioned operations: reading the newest value in a range of versions,
//! atomic counters, and writing a new version of several fields.
use vstd::prelude::*;
use std::sync::Arc;
use crate::counter::{counter_result, increment, lemma_increment_positive};
use crate::error::VersionedError;
use crate::key::{counter_key, field_prefix, key_bounds, push_bytes, version_key, version_key_of, VersionRange};
use crate::scan::{parse_gives, scan_step, Flow};
use crate::store::{insert, next_back, scan_range, update_and_fetch};
use vstd::string::StringSliceAdditionalSpecFns;

verus! {

/// Stored bytes, or their absence, as a value.
pub open spec fn bytes_view(o: Option<&[u8]>) -> Option<Seq<u8>> {
    match o {
        Some(b) => Some(b@),
        None => None,
    }
}

/// `t` is what `parse` gives for some bytes.
pub open spec fn decoded_by<T, F: Fn(&[u8]) -> Option<T>>(parse: F, t: T) -> bool {
    exists|b: Seq<u8>| #[trigger] parse_gives(parse, b, Some(t))
}

/// The newest value of field `leaf` of entity `id` in namespace `branch`
/// whose version lies in `ver`, decoded with `parse`.
///
/// The versions are scanned from the newest down. Keys whose version text
/// does not read as a `u32` in `ver` are skipped. The first version in range
/// decides: its value decoded gives `Some((version, value))`; if `parse`
/// rejects it, the result is `None`, and older versions are not tried. When
/// the scan runs out, the result is `None`. Only a store failure is an error.
pub fn get_value<T, F: Fn(&[u8]) -> Option<T>>(
    tree: &Arc<sled::Tree>,
    branch: &str,
    id: u32,
    leaf: &str,
    ver: VersionRange,
    parse: F,
) -> (r: Result<Option<(u32, T)>, VersionedError>)
    requires
        forall|b: &[u8]| parse.requires((b,)),
    ensures
        r matches Ok(Some(found)) ==> ver.spec_contains(found.0),
        r matches Ok(Some(found)) ==> decoded_by(parse, found.1),
        r matches Err(e) ==> e is Sled,
{
    let prefix = field_prefix(branch, id, leaf);
    let base_len = prefix.len();
    let (lo, hi) = key_bounds(&prefix, &ver);
    let mut it = scan_range(tree, lo, hi);
    // The scan gives up after `u64::MAX` entries, more than any store holds.
    let mut budget: u64 = u64::MAX;
    while budget > 0
        invariant
            forall|b: &[u8]| parse.requires((b,)),
        decreases budget,
    {
        budget = budget - 1;
        let item = next_back(&mut it);
        let ghost item_g = item;
        let ghost value = match item_g {
            Some(Ok((_, v))) => v@,
            _ => Seq::empty(),
        };
        match scan_step(item, base_len, &ver, &parse) {
            Flow::Continue => {},
            Flow::Done(r) => {
                let ghost r_g = r;
                proof {
                    if let Ok(Some((_, t))) = r_g {
                        assert(parse_gives(parse, value, Some(t)));
                    }
                }
                return r;
            },
        }
    }
    Ok(None)
}

/// Applies `func` atomically to the counter-style key `{branch}/{id:08X}/{leaf}`
/// and returns what is stored there afterwards (`None` when `func` removed it).
pub fn update_value<F: Fn(Option<&[u8]>) -> Option<Vec<u8>>>(
    tree: &Arc<sled::Tree>,
    branch: &str,
    id: u32,
    leaf: &str,
    func: F,
) -> (r: Result<Option<Vec<u8>>, VersionedError>)
    requires
        forall|o: Option<&[u8]>| func.requires((o,)),
    ensures
        r matches Ok(n) ==> exists|o: Option<&[u8]>| #[trigger] func.ensures((o,), n),
        r matches Err(e) ==> e is Sled,
{
    let key = counter_key(branch, id, leaf);
    match update_and_fetch(tree, key, func) {
        Ok(n) => Ok(n),
        Err(e) => Err(VersionedError::Sled(e)),
    }
}

/// Increments the counter `{branch}/{id:08X}/{leaf}` atomically (an absent
/// counter becomes 1) and returns its new value.
///
/// The store runs the increment as one atomic step, so each value is handed
/// out by one call only. Bytes that are not a counter, and a counter that
/// has been exhausted by handing out `u32::MAX`, give `CounterInvalid`.
pub fn inc_counter(tree: &Arc<sled::Tree>, branch: &str, id: u32, leaf: &str) -> (r: Result<
    u32,
    VersionedError,
>)
    ensures
        r matches Ok(v) ==> v >= 1,
        r matches Err(e) ==> e is Sled || e is CounterInvalid,
{
    let fetched = update_value(tree, branch, id, leaf, increment);
    let ghost fetched_g = fetched;
    let r = counter_result(fetched);
    proof {
        if let Ok(Some(b)) = fetched_g {
            let o = choose|o: Option<&[u8]>| #[trigger] increment.ensures((o,), Some(b));
            lemma_increment_positive(bytes_view(o));
        }
    }
    r
}

/// Stores `value` as version `ver` of field `leaf` of entity `id`, under
/// `{branch}/{id:08X}/{leaf}/{ver:08X}`, and returns the value that was
/// stored there before, if any.
pub fn set_value(
    tree: &Arc<sled::Tree>,
    branch: &str,
    id: u32,
    leaf: &str,
    ver: u32,
    value: Vec<u8>,
) -> (r: Result<Option<Vec<u8>>, VersionedError>)
    ensures
        r matches Err(e) ==> e is Sled,
{
    let key = version_key(branch, id, leaf, ver);
    match insert(tree, key, value) {
        Ok(old) => Ok(old),
        Err(e) => Err(VersionedError::Sled(e)),
    }
}

/// The writes that store each `(field, value)` pair at version `ver` of
/// entity `id`, in order: the key of that version of the field, and the value.
pub fn version_writes(branch: &str, id: u32, ver: u32, leaf_values: &Vec<(&str, Vec<u8>)>) -> (r:
    Vec<(Vec<u8>, Vec<u8>)>)
    ensures
        r@.len() == leaf_values@.len(),
        forall|i: int|
            0 <= i < r@.len() ==> (#[trigger] r@[i]).0@ == version_key_of(
                branch.spec_bytes(),
                id,
                leaf_values@[i].0.spec_bytes(),
                ver,
            ) && r@[i].1@ == leaf_values@[i].1@,
{
    let mut r: Vec<(Vec<u8>, Vec<u8>)> = Vec::with_capacity(leaf_values.len());
    let mut i: usize = 0;
    while i < leaf_values.len()
        invariant
            i <= leaf_values@.len(),
            r@.len() == i,
            forall|j: int|
                0 <= j < i ==> (#[trigger] r@[j]).0@ == version_key_of(
                    branch.spec_bytes(),
                    id,
                    leaf_values@[j].0.spec_bytes(),
                    ver,
                ) && r@[j].1@ == leaf_values@[j].1@,
        decreases leaf_values@.len() - i,
    {
        let key = version_key(branch, id, leaf_values[i].0, ver);
        let mut value: Vec<u8> = Vec::with_capacity(leaf_values[i].1.len());
        push_bytes(&mut value, leaf_values[i].1.as_slice());
        r.push((key, value));
        i = i + 1;
    }
    r
}

/// Allocates a new version from the counter `counter` of entity `id` and
/// writes each `(field, value)` pair at that version, in order, as
/// `version_writes` lays them out; returns the version.
///
/// The counter's increment is atomic; the writes that follow are not one
/// unit, so a reader may see some fields of the new version before others.
/// A value already present at the new version is overwritten.
pub fn new_version(
    tree: &Arc<sled::Tree>,
    branch: &str,
    id: u32,
    counter: &str,
    leaf_values: Vec<(&str, Vec<u8>)>,
) -> (r: Result<u32, VersionedError>)
    ensures
        r matches Ok(v) ==> v >= 1,
        r matches Err(e) ==> e is Sled || e is CounterInvalid,
{
    let ver = inc_counter(tree, branch, id, counter)?;
    let writes = version_writes(branch, id, ver, &leaf_values);
    for (key, value) in writes {
        // An earlier value at a fresh version means the counter is shared with
        // another writer; the write goes ahead regardless.
        match insert(tree, key, value) {
            Ok(_earlier) => {},
            Err(e) => {
                return Err(VersionedError::Sled(e));
            },
        }
    }
    Ok(ver)
}

} // verus!
