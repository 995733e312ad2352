//! The memo of decisions, keyed by the joined form of an observed pair.

use vstd::prelude::*;

verus! {

/// A hash map from the joined bytes of an observed pair to the output slot
/// decided for it, hashed with a fast, randomly seeded XXH3 hasher.
#[verifier::external_body]
pub struct PairCache {
    map: hashbrown::HashMap<Vec<u8>, usize, twox_hash::xxh3::RandomHashBuilder64>,
}

/// The entries held by a cache.
pub uninterp spec fn cache_contents(c: PairCache) -> Map<Seq<u8>, usize>;

/// Relies on `hashbrown::HashMap::default`: a map with no entry (its
/// hasher seeded by `twox_hash::xxh3::RandomHashBuilder64::default`).
#[verifier::external_body]
pub(crate) fn cache_new() -> (r: PairCache)
    ensures
        cache_contents(r).is_empty(),
{
    PairCache { map: hashbrown::HashMap::default() }
}

/// Relies on `hashbrown::HashMap::get`: the value stored under the key, if
/// there is one.
#[verifier::external_body]
pub(crate) fn cache_get(c: &PairCache, key: &[u8]) -> (r: Option<usize>)
    ensures
        r == (if cache_contents(*c).contains_key(key@) {
            Some(cache_contents(*c)[key@])
        } else {
            None::<usize>
        }),
{
    c.map.get(key).copied()
}

/// Relies on `hashbrown::HashMap::insert`: afterwards the key maps to the
/// value and every other entry is unchanged.
#[verifier::external_body]
pub(crate) fn cache_insert(c: &mut PairCache, key: Vec<u8>, value: usize)
    ensures
        cache_contents(*final(c)) == cache_contents(*old(c)).insert(key@, value),
{
    c.map.insert(key, value);
}

/// Relies on `hashbrown::HashMap::len`: the number of entries.
#[verifier::external_body]
pub(crate) fn cache_len(c: &PairCache) -> (r: usize)
    ensures
        r as nat == cache_contents(*c).len(),
{
    c.map.len()
}

impl PairCache {
    /// The slot stored for the joined pair `key`, if it was decided.
    pub fn lookup(&self, key: &[u8]) -> (r: Option<usize>)
        ensures
            r == (if cache_contents(*self).contains_key(key@) {
                Some(cache_contents(*self)[key@])
            } else {
                None::<usize>
            }),
    {
        cache_get(self, key)
    }

    /// The number of distinct pairs decided.
    pub fn len(&self) -> (r: usize)
        ensures
            r as nat == cache_contents(*self).len(),
    {
        cache_len(self)
    }
}

} // verus!
