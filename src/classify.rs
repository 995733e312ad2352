//! Classification of an observed index pair against the palette of
//! expected barcode pairs.

use vstd::prelude::*;
use vstd::utf8::encode_utf8;
use vstd::slice::slice_subrange;
use crate::distance::{edit_distance, levenshtein, MAX_INDEX_LEN};

verus! {

/// One row of the palette: expected first index, expected second index,
/// sample identifier, and two hints that are carried along for the caller.
pub type Barcode = (String, String, String, String, String);

/// The byte `+` that joins the two indexes of an observed pair.
pub const PAIR_SEPARATOR: u8 = 43;

/// Tolerances of the matching policy: a mismatch bound for each index and
/// a cap on their sum. A pair qualifies only when the best summed
/// distance is within `cap` and some row reaching it has each of its two
/// distances within its own bound; otherwise it is unassigned. With `mm1` and `mm2` at least `cap`, the per-index
/// bounds add nothing to the cap.
#[derive(Clone, Copy, Debug, PartialEq, Eq, Structural)]
pub struct MatchPolicy {
    pub mm1: u32,
    pub mm2: u32,
    pub cap: u32,
}

/// Where an observed pair goes: to the sample of a palette row (by its
/// position in the palette), to the ambiguous output, or to the unassigned
/// output.
#[derive(Clone, Copy, Debug, PartialEq, Eq, Structural)]
pub enum Assignment {
    Sample(usize),
    Ambiguous,
    Unassigned,
}

/// The bytes of a palette text, as they are compared.
pub open spec fn text_bytes(s: String) -> Seq<u8> {
    encode_utf8(s@)
}

/// Every expected index of the palette can be measured.
pub open spec fn palette_measurable(p: Seq<Barcode>) -> bool {
    forall|i: int|
        0 <= i < p.len() ==> #[trigger] text_bytes(p[i].0).len() <= MAX_INDEX_LEN
            && text_bytes(p[i].1).len() <= MAX_INDEX_LEN
}

/// Summed distance of row `i`.
pub open spec fn total(d: Seq<(u32, u32)>, i: int) -> int {
    d[i].0 + d[i].1
}

/// `m` is the least summed distance over the rows.
pub open spec fn is_best_total(d: Seq<(u32, u32)>, m: int) -> bool {
    &&& exists|i: int| 0 <= i < d.len() && #[trigger] total(d, i) == m
    &&& forall|j: int| 0 <= j < d.len() ==> m <= #[trigger] total(d, j)
}

/// The least summed distance over the rows.
pub open spec fn best_total(d: Seq<(u32, u32)>) -> int {
    choose|m: int| is_best_total(d, m)
}

/// Two different rows reach the summed distance `m`.
pub open spec fn tied_at(d: Seq<(u32, u32)>, m: int) -> bool {
    exists|i: int, j: int|
        0 <= i < d.len() && 0 <= j < d.len() && i != j && #[trigger] total(d, i) == m
            && #[trigger] total(d, j) == m
}

/// A row that reaches the least summed distance.
pub open spec fn best_row(d: Seq<(u32, u32)>) -> int {
    choose|i: int| 0 <= i < d.len() && total(d, i) == best_total(d)
}

/// Row `i` is within the bound of each index.
pub open spec fn qualifies(d: Seq<(u32, u32)>, i: int, pol: MatchPolicy) -> bool {
    d[i].0 <= pol.mm1 && d[i].1 <= pol.mm2
}

/// Some row reaching the summed distance `m` is within both per-index
/// bounds.
pub open spec fn qualified_at(d: Seq<(u32, u32)>, m: int, pol: MatchPolicy) -> bool {
    exists|i: int| 0 <= i < d.len() && total(d, i) == m && #[trigger] qualifies(d, i, pol)
}

/// The decision for the per-row distance pairs `d` (first index, second
/// index). A pair qualifies only through a row at the best sum that is
/// within the cap and within both per-index bounds; without one it is
/// unassigned. A qualified pair is ambiguous when two rows share the best
/// sum, even when one of them breaks a per-index bound (the two are
/// equally near); otherwise it goes to its one best row.
pub open spec fn decision(d: Seq<(u32, u32)>, pol: MatchPolicy) -> Assignment {
    if d.len() == 0 {
        Assignment::Unassigned
    } else if best_total(d) > pol.cap {
        Assignment::Unassigned
    } else if !qualified_at(d, best_total(d), pol) {
        Assignment::Unassigned
    } else if tied_at(d, best_total(d)) {
        Assignment::Ambiguous
    } else {
        Assignment::Sample(best_row(d) as usize)
    }
}

/// Distances of the observed indexes `o1`, `o2` to each palette row.
pub open spec fn row_distances(p: Seq<Barcode>, o1: Seq<u8>, o2: Seq<u8>) -> Seq<(u32, u32)> {
    Seq::new(
        p.len(),
        |i: int| (edit_distance(o1, text_bytes(p[i].0)), edit_distance(o2, text_bytes(p[i].1))),
    )
}

/// Decides an assignment from the distances of an observed pair to every
/// palette row. The outcome does not depend on the order of the rows: a
/// tie for the best sum is ambiguous whichever row comes first, and the
/// per-index bounds are checked on every row at the best sum.
pub fn decide(d: &Vec<(u32, u32)>, policy: MatchPolicy) -> (r: Assignment)
    ensures
        r == decision(d@, policy),
        r matches Assignment::Sample(i) ==> i < d@.len(),
{
    if d.len() == 0 {
        return Assignment::Unassigned;
    }
    let mut best: u64 = d[0].0 as u64 + d[0].1 as u64;
    let mut best_i: usize = 0;
    let mut tied: bool = false;
    let mut ok: bool = d[0].0 <= policy.mm1 && d[0].1 <= policy.mm2;
    let mut i: usize = 1;
    assert(ok == qualifies(d@, 0, policy) && total(d@, 0) == best);
    while i < d.len()
        invariant
            1 <= i <= d@.len(),
            best_i < i,
            best == total(d@, best_i as int),
            forall|k: int| 0 <= k < i ==> best <= #[trigger] total(d@, k),
            tied ==> exists|k: int| 0 <= k < i && k != best_i && #[trigger] total(d@, k) == best,
            !tied ==> forall|k: int| 0 <= k < i && k != best_i ==> #[trigger] total(d@, k) > best,
            ok <==> exists|k: int| 0 <= k < i && total(d@, k) == best && #[trigger] qualifies(d@, k, policy),
        decreases d@.len() - i,
    {
        let s: u64 = d[i].0 as u64 + d[i].1 as u64;
        let q: bool = d[i].0 <= policy.mm1 && d[i].1 <= policy.mm2;
        assert(s == total(d@, i as int));
        assert(q == qualifies(d@, i as int, policy));
        if s < best {
            best = s;
            best_i = i;
            tied = false;
            ok = q;
            proof {
                if ok {
                    assert(total(d@, i as int) == best && qualifies(d@, i as int, policy));
                }
            }
        } else if s == best {
            tied = true;
            ok = ok || q;
        }
        i += 1;
    }
    let ghost dv = d@;
    proof {
        assert(is_best_total(dv, best as int));
        let m = best_total(dv);
        assert(is_best_total(dv, m));
        let w = choose|w: int| 0 <= w < dv.len() && #[trigger] total(dv, w) == m;
        assert(m <= total(dv, best_i as int));
        assert(best <= total(dv, w));
        assert(m == best);
    }
    if best > policy.cap as u64 {
        return Assignment::Unassigned;
    }
    if !ok {
        assert(!qualified_at(dv, best_total(dv), policy));
        return Assignment::Unassigned;
    }
    assert(qualified_at(dv, best_total(dv), policy));
    if tied {
        proof {
            let k = choose|k: int| 0 <= k < i && k != best_i && #[trigger] total(dv, k) == best;
            assert(total(dv, best_i as int) == best);
            assert(tied_at(dv, best_total(dv)));
        }
        return Assignment::Ambiguous;
    }
    proof {
        assert(!tied_at(dv, best_total(dv)));
        let b = best_row(dv);
        assert(0 <= best_i < dv.len() && total(dv, best_i as int) == best_total(dv));
        assert(b == best_i);
    }
    Assignment::Sample(best_i)
}

/// The distances of the observed indexes to every palette row, in palette
/// order.
pub fn distances(palette: &Vec<Barcode>, o1: &[u8], o2: &[u8]) -> (r: Vec<(u32, u32)>)
    requires
        palette_measurable(palette@),
        o1@.len() <= MAX_INDEX_LEN,
        o2@.len() <= MAX_INDEX_LEN,
    ensures
        r@ == row_distances(palette@, o1@, o2@),
{
    let mut r: Vec<(u32, u32)> = Vec::new();
    let mut i: usize = 0;
    while i < palette.len()
        invariant
            i <= palette@.len(),
            palette_measurable(palette@),
            o1@.len() <= MAX_INDEX_LEN,
            o2@.len() <= MAX_INDEX_LEN,
            r@ =~= row_distances(palette@, o1@, o2@).take(i as int),
        decreases palette@.len() - i,
    {
        let row = &palette[i];
        assert(text_bytes(palette@[i as int].0).len() <= MAX_INDEX_LEN);
        let d1 = levenshtein(o1, row.0.as_str().as_bytes());
        let d2 = levenshtein(o2, row.1.as_str().as_bytes());
        r.push((d1, d2));
        i += 1;
    }
    r
}


/// `i` is the position of the first separator in the joined pair `k`.
pub open spec fn is_first_separator(k: Seq<u8>, i: int) -> bool {
    &&& 0 <= i < k.len()
    &&& k[i] == PAIR_SEPARATOR
    &&& forall|j: int| 0 <= j < i ==> k[j] != PAIR_SEPARATOR
}

/// Position of the first separator of the joined pair `k`.
pub open spec fn separator_pos(k: Seq<u8>) -> int {
    choose|i: int| is_first_separator(k, i)
}

/// The first index of a joined pair: what precedes its first separator.
/// An index never holds `+`, so this recovers it.
pub open spec fn first_index(k: Seq<u8>) -> Seq<u8> {
    k.take(separator_pos(k))
}

/// The second index of a joined pair: what follows its first separator.
pub open spec fn second_index(k: Seq<u8>) -> Seq<u8> {
    k.skip(separator_pos(k) + 1)
}

/// The decision for the joined pair `k`: unassigned when it has no
/// separator or an index too long to measure, else the decision on its
/// distances to the palette.
pub open spec fn pair_assignment(p: Seq<Barcode>, pol: MatchPolicy, k: Seq<u8>) -> Assignment {
    if !(exists|i: int| is_first_separator(k, i)) {
        Assignment::Unassigned
    } else if first_index(k).len() > MAX_INDEX_LEN || second_index(k).len() > MAX_INDEX_LEN {
        Assignment::Unassigned
    } else {
        decision(row_distances(p, first_index(k), second_index(k)), pol)
    }
}

/// Classifies the joined observed pair `key` (`idx1 + "+" + idx2`) against
/// the palette.
pub fn classify_pair(palette: &Vec<Barcode>, policy: MatchPolicy, key: &[u8]) -> (r: Assignment)
    requires
        palette_measurable(palette@),
    ensures
        r == pair_assignment(palette@, policy, key@),
        r matches Assignment::Sample(i) ==> i < palette@.len(),
{
    let mut i: usize = 0;
    while i < key.len()
        invariant
            i <= key@.len(),
            forall|j: int| 0 <= j < i ==> key@[j] != PAIR_SEPARATOR,
        ensures
            i <= key@.len(),
            forall|j: int| 0 <= j < i ==> key@[j] != PAIR_SEPARATOR,
            i < key@.len() ==> key@[i as int] == PAIR_SEPARATOR,
        decreases key@.len() - i,
    {
        if key[i] == PAIR_SEPARATOR {
            break;
        }
        i += 1;
    }
    if i == key.len() {
        assert(!(exists|j: int| is_first_separator(key@, j)));
        return Assignment::Unassigned;
    }
    proof {
        assert(is_first_separator(key@, i as int));
        let s = separator_pos(key@);
        assert(is_first_separator(key@, s));
        if s < i {
            assert(key@[s] != PAIR_SEPARATOR);
        }
        if s > i {
            assert(key@[i as int] != PAIR_SEPARATOR);
        }
        assert(s == i);
    }
    let o1 = slice_subrange(key, 0, i);
    let o2 = slice_subrange(key, i + 1, key.len());
    assert(o1@ =~= first_index(key@));
    assert(o2@ =~= second_index(key@));
    if o1.len() > MAX_INDEX_LEN || o2.len() > MAX_INDEX_LEN {
        return Assignment::Unassigned;
    }
    let d = distances(palette, o1, o2);
    decide(&d, policy)
}


/// A nonempty list of rows has a least summed distance.
pub proof fn lemma_best_exists(d: Seq<(u32, u32)>)
    requires
        d.len() > 0,
    ensures
        is_best_total(d, best_total(d)),
    decreases d.len(),
{
    if d.len() == 1 {
        assert(is_best_total(d, total(d, 0)));
    } else {
        let e = d.drop_last();
        lemma_best_exists(e);
        let m = best_total(e);
        let l = total(d, d.len() - 1);
        assert forall|j: int| 0 <= j < e.len() implies total(e, j) == #[trigger] total(d, j) by {}
        let wi = choose|i: int| 0 <= i < e.len() && #[trigger] total(e, i) == m;
        assert(total(d, wi) == m);
        if l < m {
            assert(is_best_total(d, l));
        } else {
            assert forall|j: int| 0 <= j < d.len() implies m <= #[trigger] total(d, j) by {
                if j < e.len() {
                    assert(total(e, j) == total(d, j));
                }
            }
            assert(is_best_total(d, m));
        }
    }
}

/// A decided sample is a row of the palette.
pub proof fn lemma_assignment_in_range(p: Seq<Barcode>, pol: MatchPolicy, k: Seq<u8>)
    ensures
        pair_assignment(p, pol, k) matches Assignment::Sample(i) ==> i < p.len(),
{
    if exists|i: int| is_first_separator(k, i) {
        let d = row_distances(p, first_index(k), second_index(k));
        if d.len() > 0 {
            lemma_best_exists(d);
            let m = best_total(d);
            let wi = choose|i: int| 0 <= i < d.len() && #[trigger] total(d, i) == m;
            assert(0 <= best_row(d) < d.len());
        }
    }
}

} // verus!
