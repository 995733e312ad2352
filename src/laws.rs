//! Properties of a whole pass: every record lands in exactly one output,
//! outputs keep input order, a pair always lands in the same output, the
//! order of the palette rows does not matter, the cap is inclusive, and
//! the same input gives the same outputs.

use vstd::prelude::*;
use crate::classify::{
    Assignment, Barcode, MatchPolicy, best_row, best_total, decision, first_index,
    is_best_total, is_first_separator, lemma_assignment_in_range, lemma_best_exists,
    pair_assignment, qualified_at, qualifies, row_distances, second_index, tied_at, total,
};
use crate::demux::{lemma_slot_in_range, pair_slot, record_slots, routed};
use crate::distance::MAX_INDEX_LEN;
use crate::index::opt_bytes;

verus! {

/// Number of records sent to the slots below `k`.
pub open spec fn routed_total(a: Seq<int>, k: int) -> int
    decreases k,
{
    if k <= 0 {
        0
    } else {
        routed_total(a, k - 1) + routed(a, k - 1).len()
    }
}

proof fn lemma_routed_total_step(a: Seq<int>, k: int)
    requires
        a.len() > 0,
    ensures
        routed_total(a, k) == routed_total(a.drop_last(), k) + (if 0 <= a.last() < k {
            1int
        } else {
            0int
        }),
    decreases k,
{
    if k > 0 {
        lemma_routed_total_step(a, k - 1);
    }
}

proof fn lemma_routed_total(a: Seq<int>, n: int)
    requires
        forall|i: int| 0 <= i < a.len() ==> 0 <= #[trigger] a[i] < n,
    ensures
        routed_total(a, n) == a.len(),
    decreases a.len(),
{
    if a.len() > 0 {
        let b = a.drop_last();
        assert forall|i: int| 0 <= i < b.len() implies 0 <= #[trigger] b[i] < n by {
            assert(b[i] == a[i]);
        }
        lemma_routed_total(b, n);
        lemma_routed_total_step(a, n);
        assert(0 <= a[a.len() - 1] < n);
    } else {
        lemma_routed_total_empty(a, n);
    }
}

proof fn lemma_routed_total_empty(a: Seq<int>, k: int)
    requires
        a.len() == 0,
    ensures
        routed_total(a, k) == 0,
    decreases k,
{
    if k > 0 {
        lemma_routed_total_empty(a, k - 1);
    }
}

/// Positions sent to slot `s` increase strictly, lie in the input, and are
/// exactly the positions whose slot is `s`.
pub proof fn lemma_routed(a: Seq<int>, s: int)
    ensures
        forall|t1: int, t2: int|
            0 <= t1 < t2 < routed(a, s).len() ==> #[trigger] routed(a, s)[t1] < #[trigger] routed(
                a,
                s,
            )[t2],
        forall|t: int| 0 <= t < routed(a, s).len() ==> 0 <= #[trigger] routed(a, s)[t] < a.len(),
        forall|i: int| #[trigger] routed(a, s).contains(i) <==> 0 <= i < a.len() && a[i] == s,
    decreases a.len(),
{
    if a.len() > 0 {
        let b = a.drop_last();
        lemma_routed(b, s);
        assert forall|i: int| #[trigger] routed(a, s).contains(i) <==> 0 <= i < a.len() && a[i] == s by {
            if routed(a, s).contains(i) {
                if i != a.len() - 1 {
                    let t = choose|t: int| 0 <= t < routed(a, s).len() && routed(a, s)[t] == i;
                    assert(routed(b, s).contains(i));
                    assert(b[i] == a[i]);
                }
            }
            if 0 <= i < a.len() && a[i] == s {
                if i == a.len() - 1 {
                    assert(routed(a, s)[routed(a, s).len() - 1] == i);
                } else {
                    assert(b[i] == a[i]);
                    assert(routed(b, s).contains(i));
                    let t = choose|t: int| 0 <= t < routed(b, s).len() && routed(b, s)[t] == i;
                    assert(routed(a, s)[t] == i);
                }
            }
        }
    }
}

/// Every record of a pass is sent to exactly one output: summed over the
/// outputs, the number of records received is the number of records read.
pub proof fn lemma_conservation(p: Seq<Barcode>, pol: MatchPolicy, keys: Seq<Option<Vec<u8>>>)
    ensures
        routed_total(record_slots(p, pol, keys), (p.len() + 2) as int) == keys.len(),
        forall|i: int, s: int|
            0 <= i < keys.len() ==> (#[trigger] routed(record_slots(p, pol, keys), s).contains(i)
                <==> s == record_slots(p, pol, keys)[i]),
{
    let a = record_slots(p, pol, keys);
    assert forall|i: int| 0 <= i < a.len() implies 0 <= #[trigger] a[i] < p.len() + 2 by {
        match keys[i] {
            Some(v) => lemma_slot_in_range(p, pol, v@),
            None => {},
        }
    }
    lemma_routed_total(a, (p.len() + 2) as int);
    assert forall|i: int, s: int|
        0 <= i < keys.len() implies (#[trigger] routed(a, s).contains(i) <==> s == a[i]) by {
        lemma_routed(a, s);
    }
}

/// Each output receives its records in the order of the input.
pub proof fn lemma_order_preserved(
    p: Seq<Barcode>,
    pol: MatchPolicy,
    keys: Seq<Option<Vec<u8>>>,
    s: int,
)
    ensures
        forall|t1: int, t2: int|
            0 <= t1 < t2 < routed(record_slots(p, pol, keys), s).len() ==> #[trigger] routed(
                record_slots(p, pol, keys),
                s,
            )[t1] < #[trigger] routed(record_slots(p, pol, keys), s)[t2],
        forall|t: int|
            0 <= t < routed(record_slots(p, pol, keys), s).len() ==> 0 <= #[trigger] routed(
                record_slots(p, pol, keys),
                s,
            )[t] < keys.len(),
{
    lemma_routed(record_slots(p, pol, keys), s);
}

/// Two records with the same observed pair land in the same output.
pub proof fn lemma_same_pair_same_output(
    p: Seq<Barcode>,
    pol: MatchPolicy,
    keys: Seq<Option<Vec<u8>>>,
    i: int,
    j: int,
)
    requires
        0 <= i < keys.len(),
        0 <= j < keys.len(),
        opt_bytes(keys[i]) == opt_bytes(keys[j]),
    ensures
        forall|s: int|
            #[trigger] routed(record_slots(p, pol, keys), s).contains(i) <==> routed(
                record_slots(p, pol, keys),
                s,
            ).contains(j),
{
    let a = record_slots(p, pol, keys);
    assert(a[i] == a[j]);
    assert forall|s: int| #[trigger] routed(a, s).contains(i) <==> routed(a, s).contains(j) by {
        lemma_routed(a, s);
    }
}

/// A pass is deterministic: inputs with the same observed pairs, byte for
/// byte, send the same records to each output, whatever the memo held.
pub proof fn lemma_same_input_same_outputs(
    p: Seq<Barcode>,
    pol: MatchPolicy,
    keys: Seq<Option<Vec<u8>>>,
    again: Seq<Option<Vec<u8>>>,
)
    requires
        keys.len() == again.len(),
        forall|i: int| 0 <= i < keys.len() ==> opt_bytes(#[trigger] keys[i]) == opt_bytes(again[i]),
    ensures
        forall|s: int| #[trigger] routed(record_slots(p, pol, keys), s) == routed(record_slots(p, pol, again), s),
{
    assert forall|i: int| 0 <= i < keys.len() implies #[trigger] record_slots(p, pol, keys)[i]
        == record_slots(p, pol, again)[i] by {
        assert(opt_bytes(keys[i]) == opt_bytes(again[i]));
    }
    assert(record_slots(p, pol, keys) =~= record_slots(p, pol, again));
}

/// Some position of `perm` holds `k`.
pub open spec fn takes(perm: Seq<int>, k: int) -> bool {
    exists|i: int| 0 <= i < perm.len() && #[trigger] perm[i] == k
}

/// `perm` reorders `pa` into `pb`: row `i` of `pb` is row `perm[i]` of
/// `pa`, and every row of `pa` is taken exactly once.
pub open spec fn is_reordering(pa: Seq<Barcode>, pb: Seq<Barcode>, perm: Seq<int>) -> bool {
    &&& pa.len() == pb.len()
    &&& perm.len() == pa.len()
    &&& forall|i: int| 0 <= i < perm.len() ==> 0 <= #[trigger] perm[i] < pa.len()
    &&& forall|i: int, j: int| 0 <= i < j < perm.len() ==> #[trigger] perm[i] != #[trigger] perm[j]
    &&& forall|k: int| 0 <= k < pa.len() ==> #[trigger] takes(perm, k)
    &&& forall|i: int| 0 <= i < perm.len() ==> #[trigger] pb[i] == pa[perm[i]]
}

proof fn lemma_decision_reordered(
    d1: Seq<(u32, u32)>,
    d2: Seq<(u32, u32)>,
    perm: Seq<int>,
    pol: MatchPolicy,
)
    requires
        d1.len() == d2.len(),
        d1.len() <= usize::MAX,
        perm.len() == d1.len(),
        forall|i: int| 0 <= i < perm.len() ==> 0 <= #[trigger] perm[i] < d1.len(),
        forall|i: int, j: int| 0 <= i < j < perm.len() ==> #[trigger] perm[i] != #[trigger] perm[j],
        forall|k: int| 0 <= k < d1.len() ==> #[trigger] takes(perm, k),
        forall|i: int| 0 <= i < perm.len() ==> #[trigger] d2[i] == d1[perm[i]],
    ensures
        decision(d1, pol) is Ambiguous <==> decision(d2, pol) is Ambiguous,
        decision(d1, pol) is Unassigned <==> decision(d2, pol) is Unassigned,
        decision(d2, pol) matches Assignment::Sample(i2) ==> (decision(d1, pol) matches Assignment::Sample(i1)
            && 0 <= i2 < perm.len() && perm[i2 as int] == i1),
{
    if d1.len() > 0 {
        lemma_best_exists(d1);
        lemma_best_exists(d2);
        let m1 = best_total(d1);
        let m2 = best_total(d2);
        assert forall|i: int| 0 <= i < d2.len() implies #[trigger] total(d2, i) == total(d1, perm[i]) by {
            assert(d2[i] == d1[perm[i]]);
        }
        let w1 = choose|i: int| 0 <= i < d1.len() && #[trigger] total(d1, i) == m1;
        assert(takes(perm, w1));
        let v1 = choose|i: int| 0 <= i < perm.len() && #[trigger] perm[i] == w1;
        assert(total(d2, v1) == m1);
        let w2 = choose|i: int| 0 <= i < d2.len() && #[trigger] total(d2, i) == m2;
        assert(total(d1, perm[w2]) == m2);
        assert(m1 == m2);
        assert forall|i: int| 0 <= i < d2.len() implies #[trigger] qualifies(d2, i, pol) == qualifies(
            d1,
            perm[i],
            pol,
        ) by {
            assert(d2[i] == d1[perm[i]]);
        }
        if qualified_at(d1, m1, pol) {
            let q = choose|i: int| 0 <= i < d1.len() && total(d1, i) == m1 && #[trigger] qualifies(d1, i, pol);
            assert(takes(perm, q));
            let v = choose|i: int| 0 <= i < perm.len() && #[trigger] perm[i] == q;
            assert(qualifies(d2, v, pol) && total(d2, v) == m2);
            assert(qualified_at(d2, m2, pol));
        }
        if qualified_at(d2, m2, pol) {
            let q = choose|i: int| 0 <= i < d2.len() && total(d2, i) == m2 && #[trigger] qualifies(d2, i, pol);
            assert(qualifies(d1, perm[q], pol) && total(d1, perm[q]) == m1);
            assert(qualified_at(d1, m1, pol));
        }
        if tied_at(d1, m1) {
            let (a, b) = choose|a: int, b: int|
                0 <= a < d1.len() && 0 <= b < d1.len() && a != b && #[trigger] total(d1, a) == m1
                    && #[trigger] total(d1, b) == m1;
            assert(takes(perm, a) && takes(perm, b));
            let ia = choose|i: int| 0 <= i < perm.len() && #[trigger] perm[i] == a;
            let ib = choose|i: int| 0 <= i < perm.len() && #[trigger] perm[i] == b;
            assert(total(d2, ia) == m1 && total(d2, ib) == m1);
            assert(tied_at(d2, m2));
        }
        if tied_at(d2, m2) {
            let (a, b) = choose|a: int, b: int|
                0 <= a < d2.len() && 0 <= b < d2.len() && a != b && #[trigger] total(d2, a) == m2
                    && #[trigger] total(d2, b) == m2;
            if a < b {
                assert(perm[a] != perm[b]);
            } else {
                assert(perm[b] != perm[a]);
            }
            assert(total(d1, perm[a]) == m1 && total(d1, perm[b]) == m1);
            assert(tied_at(d1, m1));
        }
        if !tied_at(d1, m1) {
            let b1 = best_row(d1);
            let b2 = best_row(d2);
            assert(total(d1, perm[b2]) == m1);
            assert(perm[b2] == b1);
            assert(d2[b2] == d1[b1]);
        }
    }
}

/// The order of the palette rows does not change where a pair goes:
/// ambiguous and unassigned pairs stay so, and a pair assigned to a row
/// goes to the same row wherever the reordering moved it.
pub proof fn lemma_palette_order_irrelevant(
    pa: Seq<Barcode>,
    pb: Seq<Barcode>,
    perm: Seq<int>,
    pol: MatchPolicy,
    k: Seq<u8>,
)
    requires
        is_reordering(pa, pb, perm),
        pa.len() <= usize::MAX,
    ensures
        pair_assignment(pa, pol, k) is Ambiguous <==> pair_assignment(pb, pol, k) is Ambiguous,
        pair_assignment(pa, pol, k) is Unassigned <==> pair_assignment(pb, pol, k) is Unassigned,
        pair_assignment(pb, pol, k) matches Assignment::Sample(i2) ==> (pair_assignment(pa, pol, k) matches Assignment::Sample(i1)
            && 0 <= i2 < perm.len() && perm[i2 as int] == i1 && pb[i2 as int] == pa[i1 as int]),
{
    let d1 = row_distances(pa, first_index(k), second_index(k));
    let d2 = row_distances(pb, first_index(k), second_index(k));
    assert forall|i: int| 0 <= i < perm.len() implies #[trigger] d2[i] == d1[perm[i]] by {
        assert(pb[i] == pa[perm[i]]);
    }
    lemma_decision_reordered(d1, d2, perm, pol);
}

/// The cap is inclusive. When row `i` has the least summed distance: if
/// that sum is at most the cap (the cap itself included) and the row is
/// within both per-index bounds, the pair is not unassigned, and it goes
/// to row `i` when no other row reaches that sum; if the sum is one over
/// the cap, the pair is unassigned.
pub proof fn lemma_cap_inclusive(d: Seq<(u32, u32)>, pol: MatchPolicy, i: int)
    requires
        0 <= i < d.len(),
        forall|j: int| 0 <= j < d.len() ==> total(d, i) <= #[trigger] total(d, j),
    ensures
        total(d, i) <= pol.cap && qualifies(d, i, pol) ==> !(decision(d, pol) is Unassigned),
        total(d, i) <= pol.cap && qualifies(d, i, pol) && (forall|j: int|
            0 <= j < d.len() && j != i ==> total(d, i) < #[trigger] total(d, j)) ==> decision(d, pol)
            == Assignment::Sample(i as usize),
        total(d, i) == pol.cap + 1 ==> decision(d, pol) == Assignment::Unassigned,
{
    assert(is_best_total(d, total(d, i)));
    let m = best_total(d);
    assert(is_best_total(d, m));
    let w = choose|w: int| 0 <= w < d.len() && #[trigger] total(d, w) == m;
    assert(m <= total(d, i));
    assert(total(d, i) <= total(d, w));
    assert(m == total(d, i));
    if qualifies(d, i, pol) {
        assert(qualified_at(d, m, pol));
    }
    if forall|j: int| 0 <= j < d.len() && j != i ==> total(d, i) < #[trigger] total(d, j) {
        assert(!tied_at(d, m));
        assert(best_row(d) == i);
    }
}

/// The cap is inclusive for an observed pair: when palette row `i` is
/// nearest to the pair in summed distance, a sum at most the cap, with
/// the row within both per-index bounds, never sends the pair to the
/// unassigned output; a sum one over the cap always does.
pub proof fn lemma_pair_cap_inclusive(p: Seq<Barcode>, pol: MatchPolicy, k: Seq<u8>, i: int)
    requires
        exists|j: int| is_first_separator(k, j),
        first_index(k).len() <= MAX_INDEX_LEN,
        second_index(k).len() <= MAX_INDEX_LEN,
        0 <= i < p.len(),
        forall|j: int|
            0 <= j < p.len() ==> total(row_distances(p, first_index(k), second_index(k)), i)
                <= #[trigger] total(row_distances(p, first_index(k), second_index(k)), j),
    ensures
        ({
            let d = row_distances(p, first_index(k), second_index(k));
            &&& total(d, i) <= pol.cap && qualifies(d, i, pol) ==> pair_slot(p, pol, k) != p.len() + 1
            &&& total(d, i) == pol.cap + 1 ==> pair_slot(p, pol, k) == p.len() + 1
        }),
{
    let d = row_distances(p, first_index(k), second_index(k));
    lemma_cap_inclusive(d, pol, i);
    lemma_assignment_in_range(p, pol, k);
}

} // verus!
