//! The observed index pair of a record: read from the end of its header,
//! or joined from the two sidecar index records.

use vstd::prelude::*;
use crate::classify::PAIR_SEPARATOR;
use crate::record::{Record, RecordError};

verus! {

/// Length of the pair field at the end of a header: eight bases, `+`,
/// eight bases.
pub const HEADER_PAIR_LEN: usize = 17;

/// Distance of the `+` of the pair field from the end of the header.
pub const HEADER_SEPARATOR_FROM_END: usize = 9;

/// The view of an optional byte vector.
pub open spec fn opt_bytes(o: Option<Vec<u8>>) -> Option<Seq<u8>> {
    match o {
        Some(v) => Some(v@),
        None => None,
    }
}

/// The joined pair at the end of header `h`: its last seventeen bytes,
/// provided the header is that long and the `+` stands where the field
/// puts it; nothing otherwise.
pub open spec fn header_pair(h: Seq<u8>) -> Option<Seq<u8>> {
    if h.len() >= HEADER_PAIR_LEN && h[h.len() - HEADER_SEPARATOR_FROM_END] == PAIR_SEPARATOR {
        Some(h.skip(h.len() - HEADER_PAIR_LEN))
    } else {
        None
    }
}

/// The joined pair read from the end of a header, or `None` when the
/// header does not end in a pair field; such a record is unassigned.
pub fn pair_from_header(header: &[u8]) -> (r: Option<Vec<u8>>)
    ensures
        opt_bytes(r) == header_pair(header@),
{
    let n = header.len();
    if n < HEADER_PAIR_LEN || header[n - HEADER_SEPARATOR_FROM_END] != PAIR_SEPARATOR {
        return None;
    }
    let v = vstd::slice::slice_to_vec(vstd::slice::slice_subrange(header, n - HEADER_PAIR_LEN, n));
    assert(v@ =~= header@.skip(n - HEADER_PAIR_LEN));
    Some(v)
}

/// ASCII white space, which ends the read name of a header.
pub open spec fn is_space(b: u8) -> bool {
    b == 32 || (9 <= b && b <= 13)
}

/// The read name of a header: what precedes its first white space.
pub open spec fn read_name(h: Seq<u8>) -> Seq<u8>
    decreases h.len(),
{
    if h.len() == 0 {
        h
    } else if is_space(h[0]) {
        Seq::<u8>::empty()
    } else {
        seq![h[0]] + read_name(h.skip(1))
    }
}

/// The pair `i1 + "+" + i2`.
pub open spec fn joined(i1: Seq<u8>, i2: Seq<u8>) -> Seq<u8> {
    i1 + seq![PAIR_SEPARATOR] + i2
}

/// Length of the read name of `h`.
fn read_name_len(h: &[u8]) -> (r: usize)
    ensures
        r <= h@.len(),
        read_name(h@) == h@.take(r as int),
{
    let mut i: usize = 0;
    assert(h@.skip(0) =~= h@);
    assert(h@.take(0) + read_name(h@) =~= read_name(h@));
    while i < h.len()
        invariant
            i <= h@.len(),
            read_name(h@) == h@.take(i as int) + read_name(h@.skip(i as int)),
        ensures
            i <= h@.len(),
            read_name(h@) == h@.take(i as int),
        decreases h@.len() - i,
    {
        if h[i] == 32 || (9 <= h[i] && h[i] <= 13) {
            assert(read_name(h@.skip(i as int)) =~= Seq::<u8>::empty());
            assert(h@.take(i as int) + Seq::<u8>::empty() =~= h@.take(i as int));
            break;
        }
        let ghost t = h@.skip(i as int);
        assert(t.skip(1) =~= h@.skip(i + 1));
        assert(h@.take(i + 1) =~= h@.take(i as int) + seq![h@[i as int]]);
        assert(read_name(t) == seq![t[0]] + read_name(t.skip(1)));
        assert(h@.take(i as int) + (seq![h@[i as int]] + read_name(h@.skip(i + 1))) =~= h@.take(i + 1)
            + read_name(h@.skip(i + 1)));
        i += 1;
    }
    if i == h.len() {
        assert(h@.skip(i as int) =~= Seq::<u8>::empty());
        assert(h@.take(i as int) + Seq::<u8>::empty() =~= h@.take(i as int));
    }
    i
}

/// The two byte strings are equal.
fn same_bytes(a: &[u8], b: &[u8]) -> (r: bool)
    ensures
        r == (a@ == b@),
{
    if a.len() != b.len() {
        return false;
    }
    let mut i: usize = 0;
    while i < a.len()
        invariant
            i <= a@.len(),
            a@.len() == b@.len(),
            forall|k: int| 0 <= k < i ==> a@[k] == b@[k],
        decreases a@.len() - i,
    {
        if a[i] != b[i] {
            return false;
        }
        i += 1;
    }
    assert(a@ =~= b@);
    true
}

/// The primary header and the two sidecar headers share their read name.
pub open spec fn in_step(h: Seq<u8>, h1: Seq<u8>, h2: Seq<u8>) -> bool {
    read_name(h) == read_name(h1) && read_name(h) == read_name(h2)
}

/// The joined pair of a primary record from its two sidecar index
/// records: their sequences joined by `+`. The three headers must share
/// their read name, else the streams are out of step.
pub fn pair_from_sidecars(primary_header: &[u8], index1: &Record, index2: &Record) -> (r: Result<Vec<u8>, RecordError>)
    ensures
        in_step(primary_header@, index1.header@, index2.header@) ==> (r matches Ok(v) && v@
            == joined(index1.sequence@, index2.sequence@)),
        !in_step(primary_header@, index1.header@, index2.header@) ==> r == Err::<
            Vec<u8>,
            RecordError,
        >(RecordError::IndexDesync),
{
    let np = read_name_len(primary_header);
    let n1 = read_name_len(index1.header.as_slice());
    let n2 = read_name_len(index2.header.as_slice());
    let name = vstd::slice::slice_subrange(primary_header, 0, np);
    let name1 = vstd::slice::slice_subrange(index1.header.as_slice(), 0, n1);
    let name2 = vstd::slice::slice_subrange(index2.header.as_slice(), 0, n2);
    if !same_bytes(name, name1) || !same_bytes(name, name2) {
        return Err(RecordError::IndexDesync);
    }
    let mut v: Vec<u8> = vstd::slice::slice_to_vec(index1.sequence.as_slice());
    v.push(PAIR_SEPARATOR);
    let mut i: usize = 0;
    while i < index2.sequence.len()
        invariant
            i <= index2.sequence@.len(),
            v@ == index1.sequence@ + seq![PAIR_SEPARATOR] + index2.sequence@.take(i as int),
        decreases index2.sequence@.len() - i,
    {
        v.push(index2.sequence[i]);
        assert(index2.sequence@.take(i + 1) =~= index2.sequence@.take(i as int).push(
            index2.sequence@[i as int],
        ));
        i += 1;
    }
    assert(index2.sequence@.take(i as int) =~= index2.sequence@);
    Ok(v)
}

} // verus!
