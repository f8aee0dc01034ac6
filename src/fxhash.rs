use std::hash::BuildHasherDefault;

use rustc_hash::{FxHashMap, FxHashSet, FxHasher};
use vstd::prelude::*;

verus! {

/// The pair (index, generation) that identifies a handle in hashed storage.
pub type HandleKey = (u32, u32);

/// A hashed set of handle keys.
pub type KeySet = FxHashSet<HandleKey>;

/// A hashed map from handle keys to positions.
pub type KeyIndex = FxHashMap<HandleKey, usize>;

#[verifier::external_type_specification]
#[verifier::external_body]
pub struct ExFxHasher(FxHasher);

#[verifier::external_type_specification]
#[verifier::external_body]
#[verifier::reject_recursive_types(H)]
pub struct ExBuildHasherDefault<H>(BuildHasherDefault<H>);

/// The handle keys that a hashed set holds.
pub uninterp spec fn fx_set_members(s: KeySet) -> Set<HandleKey>;

/// The key-to-position entries that a hashed map holds.
pub uninterp spec fn fx_map_entries(m: KeyIndex) -> Map<HandleKey, usize>;

/// Relies on `FxHashSet::default` (std's `HashSet::default`): an empty set.
#[verifier::external_body]
pub(crate) fn fx_set_new() -> (r: KeySet)
    ensures
        fx_set_members(r) == Set::<HandleKey>::empty(),
{
    FxHashSet::default()
}

/// Relies on `HashSet::insert`: the key is a member afterwards; the result
/// says whether it was missing before.
#[verifier::external_body]
pub(crate) fn fx_set_insert(s: &mut KeySet, key: HandleKey) -> (r: bool)
    ensures
        fx_set_members(*final(s)) == fx_set_members(*old(s)).insert(key),
        r == !fx_set_members(*old(s)).contains(key),
{
    s.insert(key)
}

/// Relies on `HashSet::remove`: the key is no member afterwards; the result
/// says whether it was one before.
#[verifier::external_body]
pub(crate) fn fx_set_remove(s: &mut KeySet, key: &HandleKey) -> (r: bool)
    ensures
        fx_set_members(*final(s)) == fx_set_members(*old(s)).remove(*key),
        r == fx_set_members(*old(s)).contains(*key),
{
    s.remove(key)
}

/// Relies on `HashSet::contains`.
#[verifier::external_body]
pub(crate) fn fx_set_contains(s: &KeySet, key: &HandleKey) -> (r: bool)
    ensures
        r == fx_set_members(*s).contains(*key),
{
    s.contains(key)
}

/// Relies on `HashSet::len`: the number of members.
#[verifier::external_body]
pub(crate) fn fx_set_len(s: &KeySet) -> (r: usize)
    ensures
        r as nat == fx_set_members(*s).len(),
{
    s.len()
}

/// Relies on `HashSet::clear`: no member is left.
#[verifier::external_body]
pub(crate) fn fx_set_clear(s: &mut KeySet)
    ensures
        fx_set_members(*final(s)) == Set::<HandleKey>::empty(),
{
    s.clear()
}

/// Relies on `HashSet::iter`: each member once, in an order the table
/// decides.
#[verifier::external_body]
pub(crate) fn fx_set_keys(s: &KeySet) -> (r: Vec<HandleKey>)
    ensures
        r@.no_duplicates(),
        r@.to_set() == fx_set_members(*s),
{
    s.iter().copied().collect()
}

/// Relies on `FxHashMap::default` (std's `HashMap::default`): an empty map.
#[verifier::external_body]
pub(crate) fn fx_map_new() -> (r: KeyIndex)
    ensures
        fx_map_entries(r).dom() == Set::<HandleKey>::empty(),
{
    FxHashMap::default()
}

/// Relies on `HashMap::insert`: the key maps to the value afterwards.
#[verifier::external_body]
pub(crate) fn fx_map_insert(m: &mut KeyIndex, key: HandleKey, value: usize)
    ensures
        fx_map_entries(*final(m)) == fx_map_entries(*old(m)).insert(key, value),
{
    m.insert(key, value);
}

/// Relies on `HashMap::get`: the value the key maps to, if any.
#[verifier::external_body]
pub(crate) fn fx_map_get(m: &KeyIndex, key: &HandleKey) -> (r: Option<usize>)
    ensures
        match r {
            Some(v) => fx_map_entries(*m).contains_key(*key) && fx_map_entries(*m)[*key] == v,
            None => !fx_map_entries(*m).contains_key(*key),
        },
{
    m.get(key).copied()
}

/// Relies on `HashMap::remove`: the key maps to nothing afterwards.
#[verifier::external_body]
pub(crate) fn fx_map_remove(m: &mut KeyIndex, key: &HandleKey)
    ensures
        fx_map_entries(*final(m)) == fx_map_entries(*old(m)).remove(*key),
{
    m.remove(key);
}

} // verus!
