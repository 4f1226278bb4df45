//! Hash sets of pixel positions and hash maps keyed by small integers, on
//! the hasher of `rustc_hash`.
//!
//! The collection types are the standard ones; what comes from outside is
//! the hasher that they are built with. The functions here say what the
//! collections' operations do to their contents with that hasher in place.
//! None of it is proved: it rests on the hasher being a function of the bytes
//! written to it, and on the equality and hashing of integers and of pairs of
//! integers.

use rustc_hash::FxBuildHasher;
use rustc_hash::FxHashMap;
use rustc_hash::FxHashSet;
use vstd::prelude::*;

verus! {

/// `rustc_hash::FxBuildHasher`, the builder of the hasher behind every set
/// here. Nothing is said of what it holds.
#[verifier::external_type_specification]
#[verifier::external_body]
pub struct ExFxBuildHasher(FxBuildHasher);

/// A position as the pair that the sets hold.
pub type Point = (usize, usize);

/// `HashSet::insert` on a set built with `FxBuildHasher`: afterwards the set
/// holds `key` besides what it held, and the result says whether `key` was
/// new.
#[verifier::external_body]
pub(crate) fn set_insert(set: &mut FxHashSet<Point>, key: Point) -> (fresh: bool)
    ensures
        final(set)@ == old(set)@.insert(key),
        fresh == !old(set)@.contains(key),
{
    set.insert(key)
}

/// `HashSet::take` on a set built with `FxBuildHasher`: afterwards the set
/// holds what it held but `key`, and the result says whether `key` was there.
#[verifier::external_body]
pub(crate) fn set_take(set: &mut FxHashSet<Point>, key: Point) -> (found: bool)
    ensures
        final(set)@ == old(set)@.remove(key),
        found == old(set)@.contains(key),
{
    set.take(&key).is_some()
}

/// `HashSet::iter` on a set built with `FxBuildHasher`, its items copied out:
/// every item of the set once, in an order that nothing is said of.
#[verifier::external_body]
pub(crate) fn set_items(set: &FxHashSet<Point>) -> (items: Vec<Point>)
    ensures
        items@.no_duplicates(),
        items@.to_set() == set@,
{
    set.iter().copied().collect()
}

/// `HashMap::get` on a map built with `FxBuildHasher`, the value copied
/// out: what the map holds under `key`, if anything.
#[verifier::external_body]
pub(crate) fn map_get<V: Copy>(map: &FxHashMap<usize, V>, key: usize) -> (value: Option<V>)
    ensures
        value == if map@.contains_key(key) {
            Some(map@[key])
        } else {
            None
        },
{
    map.get(&key).copied()
}

/// `HashMap::insert` on a map built with `FxBuildHasher`: afterwards the map
/// holds `value` under `key` and, under every other key, what it held.
#[verifier::external_body]
pub(crate) fn map_insert<V>(map: &mut FxHashMap<usize, V>, key: usize, value: V)
    ensures
        final(map)@ == old(map)@.insert(key, value),
{
    map.insert(key, value);
}

/// `HashMap::contains_key` on a map built with `FxBuildHasher`.
#[verifier::external_body]
pub(crate) fn map_contains<V>(map: &FxHashMap<usize, V>, key: usize) -> (held: bool)
    ensures
        held == map@.contains_key(key),
{
    map.contains_key(&key)
}

} // verus!
