//! The edit-distance primitive used to compare barcodes.

use vstd::prelude::*;

verus! {

/// The longest barcode, in bytes, that is ever measured. Longer ones are
/// never handed to the edit-distance primitive, whose length arithmetic is
/// done in 32 bits.
pub const MAX_INDEX_LEN: usize = 4096;

/// The Levenshtein distance between two byte strings: the least number of
/// single-byte insertions, deletions and substitutions that turn one into
/// the other. Each byte only matches itself, so an `N` base read where an
/// `A`, `C`, `G` or `T` is expected counts as one edit.
pub uninterp spec fn edit_distance(a: Seq<u8>, b: Seq<u8>) -> u32;

/// Relies on `triple_accel::levenshtein`, the SIMD Levenshtein distance of
/// two byte slices, which depends on the two slices alone.
#[verifier::external_body]
pub(crate) fn levenshtein(a: &[u8], b: &[u8]) -> (r: u32)
    requires
        a@.len() <= MAX_INDEX_LEN,
        b@.len() <= MAX_INDEX_LEN,
    ensures
        r == edit_distance(a@, b@),
{
    triple_accel::levenshtein(a, b)
}

} // verus!
