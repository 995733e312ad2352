//! Routing of classified records to outputs, with the memo of decisions.

use vstd::prelude::*;
use vstd::slice::slice_to_vec;
use crate::cache::{PairCache, cache_contents, cache_get, cache_insert, cache_new};
use crate::classify::{Assignment, Barcode, MatchPolicy, classify_pair, pair_assignment};
use crate::index::{in_step, opt_bytes, header_pair, joined, pair_from_header, pair_from_sidecars};
use crate::palette::{ConfigError, check_palette, palette_check, palette_valid};
use crate::record::{Record, RecordError};

verus! {

/// The output slot of an assignment for a palette of `n` rows: the row's
/// own slot for a sample, then `n` for ambiguous and `n + 1` for
/// unassigned pairs.
pub open spec fn slot_of(a: Assignment, n: int) -> int {
    match a {
        Assignment::Sample(i) => i as int,
        Assignment::Ambiguous => n,
        Assignment::Unassigned => n + 1,
    }
}

/// The output slot of the joined observed pair `k`.
pub open spec fn pair_slot(p: Seq<Barcode>, pol: MatchPolicy, k: Seq<u8>) -> int {
    slot_of(pair_assignment(p, pol, k), p.len() as int)
}

/// The output slot of a record whose observed pair is `k`; a record
/// without a readable pair is unassigned.
pub open spec fn observed_slot(p: Seq<Barcode>, pol: MatchPolicy, k: Option<Seq<u8>>) -> int {
    match k {
        Some(v) => pair_slot(p, pol, v),
        None => (p.len() + 1) as int,
    }
}

/// The output slot of a record whose observed pair is `k`.
pub open spec fn record_slot(p: Seq<Barcode>, pol: MatchPolicy, k: Option<Vec<u8>>) -> int {
    observed_slot(p, pol, opt_bytes(k))
}

/// The output slot of each record, in input order.
pub open spec fn record_slots(p: Seq<Barcode>, pol: MatchPolicy, keys: Seq<Option<Vec<u8>>>) -> Seq<int> {
    Seq::new(keys.len(), |i: int| record_slot(p, pol, keys[i]))
}

/// Positions, in increasing order, of the records sent to slot `s`, when
/// the records are sent to the slots `a`.
pub open spec fn routed(a: Seq<int>, s: int) -> Seq<int>
    decreases a.len(),
{
    if a.len() == 0 {
        Seq::<int>::empty()
    } else {
        let before = routed(a.drop_last(), s);
        if a.last() == s {
            before.push(a.len() - 1)
        } else {
            before
        }
    }
}

/// Positions of a list of record positions, as integers.
pub open spec fn positions(v: Seq<usize>) -> Seq<int> {
    v.map_values(|x: usize| x as int)
}

/// The classification stage of one pass: the palette, the policy, and the
/// memo of every pair decided so far.
pub struct Dispatcher {
    palette: Vec<Barcode>,
    policy: MatchPolicy,
    cache: PairCache,
}

impl Dispatcher {
    /// The palette the pairs are matched against.
    pub closed spec fn palette(&self) -> Seq<Barcode> {
        self.palette@
    }

    /// The matching policy.
    pub closed spec fn policy(&self) -> MatchPolicy {
        self.policy
    }

    /// The decisions memoized so far, from joined pair to output slot.
    pub closed spec fn decided(&self) -> Map<Seq<u8>, usize> {
        cache_contents(self.cache)
    }

    /// The palette is valid and every memoized decision is the one the
    /// policy gives.
    pub closed spec fn wf(&self) -> bool {
        &&& palette_valid(self.palette@)
        &&& forall|k: Seq<u8>| #[trigger]
            cache_contents(self.cache).contains_key(k) ==> cache_contents(self.cache)[k] as int
                == pair_slot(self.palette@, self.policy, k)
    }

    /// Number of outputs: one per palette row, then ambiguous, then
    /// unassigned.
    pub open spec fn slot_count(&self) -> int {
        (self.palette().len() + 2) as int
    }

    /// A dispatcher with an empty memo, or the first fault of the palette.
    pub fn new(palette: Vec<Barcode>, policy: MatchPolicy) -> (r: Result<Dispatcher, ConfigError>)
        ensures
            r is Ok <==> palette_valid(palette@),
            r matches Err(e) ==> palette_check(palette@) == Err::<(), ConfigError>(e),
            r matches Ok(d) ==> d.wf() && d.palette() == palette@ && d.policy() == policy
                && d.decided().is_empty(),
    {
        match check_palette(&palette) {
            Err(e) => Err(e),
            Ok(()) => Ok(Dispatcher { palette, policy, cache: cache_new() }),
        }
    }

    /// The memo of decisions, handed over at the end of a pass.
    pub fn into_cache(self) -> (r: PairCache)
        ensures
            cache_contents(r) == self.decided(),
    {
        self.cache
    }

    /// The slot of the ambiguous output.
    pub fn ambiguous_slot(&self) -> (r: usize)
        requires
            self.wf(),
        ensures
            r as int == self.palette().len(),
    {
        self.palette.len()
    }

    /// The slot of the unassigned output, which also takes the records
    /// whose pair could not be read.
    pub fn unassigned_slot(&self) -> (r: usize)
        requires
            self.wf(),
        ensures
            r as int == self.palette().len() + 1,
    {
        self.palette.len() + 1
    }

    /// The output slot for the joined observed pair `key`: taken from the
    /// memo when the pair was seen before, else decided and memoized. A
    /// memoized decision is never replaced.
    pub fn route(&mut self, key: &[u8]) -> (slot: usize)
        requires
            old(self).wf(),
        ensures
            final(self).wf(),
            final(self).palette() == old(self).palette(),
            final(self).policy() == old(self).policy(),
            slot as int == pair_slot(old(self).palette(), old(self).policy(), key@),
            slot < old(self).slot_count(),
            final(self).decided() == old(self).decided().insert(key@, slot),
    {
        match cache_get(&self.cache, key) {
            Some(s) => {
                proof {
                    assert(cache_contents(self.cache).insert(key@, s) =~= cache_contents(self.cache));
                    lemma_slot_in_range(self.palette@, self.policy, key@);
                }
                s
            },
            None => {
                let n = self.palette.len();
                let a = classify_pair(&self.palette, self.policy, key);
                let s = match a {
                    Assignment::Sample(i) => i,
                    Assignment::Ambiguous => n,
                    Assignment::Unassigned => n + 1,
                };
                let ghost before = cache_contents(self.cache);
                cache_insert(&mut self.cache, slice_to_vec(key), s);
                proof {
                    assert forall|k: Seq<u8>| #[trigger]
                        cache_contents(self.cache).contains_key(k) implies cache_contents(
                        self.cache,
                    )[k] as int == pair_slot(self.palette@, self.policy, k) by {
                        if k != key@ {
                            assert(before.contains_key(k));
                        }
                    }
                }
                s
            },
        }
    }

    /// The output slot of a primary record with header `header`: its pair
    /// is read from the end of the header, or, when the record's two
    /// sidecar index records are given, joined from their sequences. Index
    /// records that do not belong to the primary record are a fatal fault.
    pub fn route_record(&mut self, header: &[u8], sidecars: Option<(&Record, &Record)>) -> (r: Result<usize, RecordError>)
        requires
            old(self).wf(),
        ensures
            final(self).wf(),
            final(self).palette() == old(self).palette(),
            final(self).policy() == old(self).policy(),
            sidecars is None ==> (r matches Ok(s) && s as int == observed_slot(
                old(self).palette(),
                old(self).policy(),
                header_pair(header@),
            )),
            sidecars matches Some(x) ==> (in_step(header@, x.0.header@, x.1.header@) ==> (r matches Ok(s)
                && s as int == pair_slot(
                old(self).palette(),
                old(self).policy(),
                joined(x.0.sequence@, x.1.sequence@),
            ))),
            sidecars matches Some(x) ==> (!in_step(header@, x.0.header@, x.1.header@) ==> r
                == Err::<usize, RecordError>(RecordError::IndexDesync)),
    {
        match sidecars {
            None => match pair_from_header(header) {
                Some(k) => Ok(self.route(k.as_slice())),
                None => Ok(self.unassigned_slot()),
            },
            Some((i1, i2)) => match pair_from_sidecars(header, i1, i2) {
                Ok(k) => Ok(self.route(k.as_slice())),
                Err(e) => Err(e),
            },
        }
    }

    /// Sends each record, given by its observed pair (`None` where none
    /// could be read), to its output, and returns for each output the
    /// positions of the records it receives, in input order.
    pub fn demultiplex(&mut self, keys: &Vec<Option<Vec<u8>>>) -> (r: Vec<Vec<usize>>)
        requires
            old(self).wf(),
        ensures
            final(self).wf(),
            final(self).palette() == old(self).palette(),
            final(self).policy() == old(self).policy(),
            r@.len() == old(self).slot_count(),
            forall|s: int|
                0 <= s < r@.len() ==> positions(#[trigger] r@[s]@) == routed(
                    record_slots(old(self).palette(), old(self).policy(), keys@),
                    s,
                ),
    {
        let n = self.palette.len();
        let mut r: Vec<Vec<usize>> = Vec::new();
        let mut s: usize = 0;
        while s < n + 2
            invariant
                self.wf(),
                n == self.palette@.len(),
                s <= n + 2,
                r@.len() == s,
                forall|t: int| 0 <= t < s ==> #[trigger] r@[t]@.len() == 0,
            decreases n + 2 - s,
        {
            r.push(Vec::new());
            s += 1;
        }
        let ghost p = self.palette@;
        let ghost pol = self.policy;
        let ghost all = record_slots(p, pol, keys@);
        assert forall|t: int| 0 <= t < r@.len() implies positions(#[trigger] r@[t]@) == routed(
            all.take(0),
            t,
        ) by {
            assert(positions(r@[t]@) =~= Seq::<int>::empty());
        }
        let mut i: usize = 0;
        while i < keys.len()
            invariant
                self.wf(),
                self.palette@ == p,
                self.policy == pol,
                n == p.len(),
                all == record_slots(p, pol, keys@),
                i <= keys@.len(),
                r@.len() == n + 2,
                forall|t: int| 0 <= t < r@.len() ==> positions(#[trigger] r@[t]@) == routed(all.take(i as int), t),
            decreases keys@.len() - i,
        {
            let slot = match &keys[i] {
                Some(k) => self.route(k.as_slice()),
                None => n + 1,
            };
            assert(slot as int == all[i as int]);
            let mut v = Vec::new();
            std::mem::swap(&mut v, &mut r[slot]);
            v.push(i);
            std::mem::swap(&mut v, &mut r[slot]);
            proof {
                assert forall|t: int| 0 <= t < r@.len() implies positions(#[trigger] r@[t]@)
                    == routed(all.take(i + 1), t) by {
                    assert(all.take(i + 1).drop_last() =~= all.take(i as int));
                    if t == slot {
                        assert(positions(r@[t]@) =~= routed(all.take(i as int), t).push(i as int));
                    }
                }
            }
            i += 1;
        }
        assert(all.take(keys@.len() as int) =~= all);
        r
    }
}

/// The slot of any pair is one of the outputs.
pub proof fn lemma_slot_in_range(p: Seq<Barcode>, pol: MatchPolicy, k: Seq<u8>)
    ensures
        0 <= pair_slot(p, pol, k) < p.len() + 2,
{
    crate::classify::lemma_assignment_in_range(p, pol, k);
}

} // verus!
