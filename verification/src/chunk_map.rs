//! The map from views to their chunk in the scene: a `rustc_hash::FxHashMap`
//! keyed by the view's numeric id.

use rustc_hash::{FxBuildHasher, FxHashMap};
use vstd::prelude::*;

verus! {

/// The hasher builder of `rustc_hash`, carried opaquely.
#[verifier::external_type_specification]
#[verifier::external_body]
pub struct ExFxBuildHasher(FxBuildHasher);

/// Looks up `key`.
///
/// Trusted: `HashMap::get` on a map hashed by `FxBuildHasher` returns the value
/// stored for `key`, if any. `FxHasher` is deterministic and `u64` keys compare
/// by value, so the map behaves as the mathematical map of its entries.
#[verifier::external_body]
pub(crate) fn chunk_map_get(map: &FxHashMap<u64, usize>, key: u64) -> (value: Option<usize>)
    ensures
        value == (if map@.contains_key(key) {
            Some(map@[key])
        } else {
            None
        }),
{
    map.get(&key).copied()
}

/// Stores `value` for `key`.
///
/// Trusted: `HashMap::insert` on a map hashed by `FxBuildHasher` replaces the
/// entry for `key` (or adds one) and leaves every other entry as it was.
#[verifier::external_body]
pub(crate) fn chunk_map_insert(map: &mut FxHashMap<u64, usize>, key: u64, value: usize)
    ensures
        final(map)@ == old(map)@.insert(key, value),
{
    map.insert(key, value);
}

} // verus!
