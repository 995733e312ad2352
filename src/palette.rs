//! Checks on the palette of expected barcodes before any record is read.

use vstd::prelude::*;
use crate::classify::{Barcode, palette_measurable, text_bytes};
use crate::distance::MAX_INDEX_LEN;

verus! {

/// Identifier of the output for pairs that match two samples equally well.
pub const AMBIGUOUS_ID: &'static str = "AMBIGUOUS";

/// Identifier of the output for pairs that match no sample.
pub const UNASSIGNED_ID: &'static str = "UNASSIGNED";

/// A fatal configuration error, found before any record is read.
#[derive(Clone, Copy, Debug, PartialEq, Eq, Structural)]
pub enum ConfigError {
    /// An expected index is too long to be measured.
    BarcodeTooLong,
    /// A sample identifier is one of the two reserved ones.
    ReservedSample,
    /// Two rows share a sample identifier.
    DuplicateSample,
    /// The palette has too many rows to number its outputs.
    TooManySamples,
    /// A sample sheet row is not `sample,idx1+idx2,hint1,hint2`.
    MalformedSheet,
    /// The input prefix matched neither two nor four files.
    InputCount,
    /// No input file name carries one of the tags `_R1`, `_R2`, `_I1`, `_I2`
    /// that the mode needs.
    MissingInput,
}

/// `id` is one of the two reserved output identifiers.
pub open spec fn is_reserved(id: Seq<char>) -> bool {
    id == AMBIGUOUS_ID@ || id == UNASSIGNED_ID@
}

/// Some row of the palette carries a reserved identifier.
pub open spec fn has_reserved(p: Seq<Barcode>) -> bool {
    exists|i: int| 0 <= i < p.len() && #[trigger] is_reserved(p[i].2@)
}

/// Two rows of the palette share a sample identifier.
pub open spec fn has_duplicate(p: Seq<Barcode>) -> bool {
    exists|i: int, j: int| 0 <= i < j < p.len() && #[trigger] p[i].2@ == #[trigger] p[j].2@
}

/// The palette can be used for a pass: its indexes can be measured, its
/// identifiers are distinct and none is reserved, and its outputs (one per
/// row plus the two reserved ones) can be numbered.
pub open spec fn palette_valid(p: Seq<Barcode>) -> bool {
    &&& palette_measurable(p)
    &&& !has_reserved(p)
    &&& !has_duplicate(p)
    &&& p.len() + 2 <= usize::MAX
}

/// The outcome of checking the palette: the first kind of fault found, in
/// the order overlong index, reserved identifier, duplicate identifier,
/// size; `Ok` when there is none.
pub open spec fn palette_check(p: Seq<Barcode>) -> Result<(), ConfigError> {
    if !palette_measurable(p) {
        Err(ConfigError::BarcodeTooLong)
    } else if has_reserved(p) {
        Err(ConfigError::ReservedSample)
    } else if has_duplicate(p) {
        Err(ConfigError::DuplicateSample)
    } else if p.len() + 2 > usize::MAX {
        Err(ConfigError::TooManySamples)
    } else {
        Ok(())
    }
}

/// Checks the palette before a pass.
pub fn check_palette(p: &Vec<Barcode>) -> (r: Result<(), ConfigError>)
    ensures
        r == palette_check(p@),
        r is Ok <==> palette_valid(p@),
{
    let mut i: usize = 0;
    while i < p.len()
        invariant
            i <= p@.len(),
            forall|k: int|
                0 <= k < i ==> #[trigger] text_bytes(p@[k].0).len() <= MAX_INDEX_LEN
                    && text_bytes(p@[k].1).len() <= MAX_INDEX_LEN,
        decreases p@.len() - i,
    {
        let l1 = p[i].0.as_str().as_bytes().len();
        let l2 = p[i].1.as_str().as_bytes().len();
        assert(l1 == text_bytes(p@[i as int].0).len() && l2 == text_bytes(p@[i as int].1).len());
        if l1 > MAX_INDEX_LEN || l2 > MAX_INDEX_LEN {
            assert(!palette_measurable(p@)) by {
                assert(!(text_bytes(p@[i as int].0).len() <= MAX_INDEX_LEN
                    && text_bytes(p@[i as int].1).len() <= MAX_INDEX_LEN));
            }
            return Err(ConfigError::BarcodeTooLong);
        }
        assert(forall|k: int|
            0 <= k < i + 1 ==> #[trigger] text_bytes(p@[k].0).len() <= MAX_INDEX_LEN
                && text_bytes(p@[k].1).len() <= MAX_INDEX_LEN) by {
            assert(text_bytes(p@[i as int].0).len() <= MAX_INDEX_LEN);
        }
        i += 1;
    }
    assert(palette_measurable(p@));
    let ambiguous = String::from_str(AMBIGUOUS_ID);
    let unassigned = String::from_str(UNASSIGNED_ID);
    let mut i: usize = 0;
    while i < p.len()
        invariant
            i <= p@.len(),
            palette_measurable(p@),
            ambiguous@ == AMBIGUOUS_ID@,
            unassigned@ == UNASSIGNED_ID@,
            forall|k: int| 0 <= k < i ==> !#[trigger] is_reserved(p@[k].2@),
        decreases p@.len() - i,
    {
        if p[i].2 == ambiguous || p[i].2 == unassigned {
            assert(is_reserved(p@[i as int].2@));
            return Err(ConfigError::ReservedSample);
        }
        i += 1;
    }
    let mut i: usize = 0;
    while i < p.len()
        invariant
            i <= p@.len(),
            palette_measurable(p@),
            !has_reserved(p@),
            forall|a: int, b: int| 0 <= a < i && a < b < p@.len() ==> p@[a].2@ != p@[b].2@,
        decreases p@.len() - i,
    {
        let mut j: usize = i + 1;
        while j < p.len()
            invariant
                i < p@.len(),
                i + 1 <= j <= p@.len(),
                palette_measurable(p@),
                !has_reserved(p@),
                forall|a: int, b: int| 0 <= a < i && a < b < p@.len() ==> p@[a].2@ != p@[b].2@,
                forall|b: int| i < b < j ==> p@[i as int].2@ != p@[b].2@,
            decreases p@.len() - j,
        {
            if p[i].2 == p[j].2 {
                assert(has_duplicate(p@)) by {
                    assert(p@[i as int].2@ == p@[j as int].2@);
                }
                return Err(ConfigError::DuplicateSample);
            }
            j += 1;
        }
        i += 1;
    }
    if p.len() > usize::MAX - 2 {
        return Err(ConfigError::TooManySamples);
    }
    Ok(())
}

} // verus!
