//! The configuration of a demultiplexing pass and its outputs.

use vstd::prelude::*;
use vstd::string::StringExecFns;
use crate::cache::{PairCache, cache_contents};
use crate::classify::{Barcode, MatchPolicy};
use crate::demux::{Dispatcher, pair_slot};
use crate::index::{header_pair, pair_from_header};
use crate::palette::{AMBIGUOUS_ID, ConfigError, UNASSIGNED_ID, palette_check, palette_valid};

verus! {

/// Default bound on the distance of each index.
pub const DEFAULT_MISMATCHES: u32 = 2;

/// Default cap on the summed distance of the two indexes.
pub const DEFAULT_CAP: u32 = 4;

/// The palette of expected barcodes and the matching policy of a pass.
pub struct FastqSplitter {
    mm1: u32,
    mm2: u32,
    cap: u32,
    barcodes: Vec<Barcode>,
}

/// A copy of each row of the palette.
fn copy_palette(p: &Vec<Barcode>) -> (r: Vec<Barcode>)
    ensures
        r@ == p@,
{
    let mut r: Vec<Barcode> = Vec::new();
    let mut i: usize = 0;
    while i < p.len()
        invariant
            i <= p@.len(),
            r@ == p@.take(i as int),
        decreases p@.len() - i,
    {
        let row = &p[i];
        r.push((row.0.clone(), row.1.clone(), row.2.clone(), row.3.clone(), row.4.clone()));
        assert(p@.take(i + 1) =~= p@.take(i as int).push(p@[i as int]));
        i += 1;
    }
    assert(p@.take(p@.len() as int) =~= p@);
    r
}

/// The identifier of each output, in slot order: the samples of the
/// palette, then the ambiguous and the unassigned output.
pub open spec fn output_ids_of(p: Seq<Barcode>) -> Seq<Seq<char>> {
    Seq::new(p.len(), |i: int| p[i].2@) + seq![AMBIGUOUS_ID@, UNASSIGNED_ID@]
}

/// The path of an output file: `{dir}/{id}_{suffix}.fq.gz`.
pub open spec fn output_path_of(dir: Seq<char>, id: Seq<char>, suffix: Seq<char>) -> Seq<char> {
    dir + "/"@ + id + "_"@ + suffix + ".fq.gz"@
}

/// The path of the output file of sample `id` for the read file tagged
/// `suffix`, under `dir`.
pub fn output_path(dir: &str, id: &str, suffix: &str) -> (r: String)
    ensures
        r@ == output_path_of(dir@, id@, suffix@),
{
    let r = String::from_str(dir).concat("/").concat(id).concat("_").concat(suffix).concat(".fq.gz");
    r
}

impl FastqSplitter {
    /// Bound on the distance of the first index.
    pub closed spec fn mm1(&self) -> u32 {
        self.mm1
    }

    /// Bound on the distance of the second index.
    pub closed spec fn mm2(&self) -> u32 {
        self.mm2
    }

    /// Cap on the summed distance.
    pub closed spec fn cap(&self) -> u32 {
        self.cap
    }

    /// The palette.
    pub closed spec fn barcodes(&self) -> Seq<Barcode> {
        self.barcodes@
    }

    /// The policy formed by the three bounds.
    pub open spec fn policy_of(&self) -> MatchPolicy {
        MatchPolicy { mm1: self.mm1(), mm2: self.mm2(), cap: self.cap() }
    }

    /// An empty palette, each index bound at two and the sum capped at four.
    pub fn new() -> (r: FastqSplitter)
        ensures
            r.mm1() == DEFAULT_MISMATCHES,
            r.mm2() == DEFAULT_MISMATCHES,
            r.cap() == DEFAULT_CAP,
            r.barcodes().len() == 0,
    {
        FastqSplitter {
            mm1: DEFAULT_MISMATCHES,
            mm2: DEFAULT_MISMATCHES,
            cap: DEFAULT_CAP,
            barcodes: Vec::new(),
        }
    }

    /// Sets the bound on each index's distance.
    pub fn with_mm(self, mm1: u32, mm2: u32) -> (r: FastqSplitter)
        ensures
            r.mm1() == mm1,
            r.mm2() == mm2,
            r.cap() == self.cap(),
            r.barcodes() == self.barcodes(),
    {
        FastqSplitter { mm1, mm2, ..self }
    }

    /// Sets the cap on the summed distance.
    pub fn with_cap(self, cap: u32) -> (r: FastqSplitter)
        ensures
            r.mm1() == self.mm1(),
            r.mm2() == self.mm2(),
            r.cap() == cap,
            r.barcodes() == self.barcodes(),
    {
        FastqSplitter { cap, ..self }
    }

    /// Sets the palette.
    pub fn with_barcodes(self, barcodes: Vec<Barcode>) -> (r: FastqSplitter)
        ensures
            r.mm1() == self.mm1(),
            r.mm2() == self.mm2(),
            r.cap() == self.cap(),
            r.barcodes() == barcodes@,
    {
        FastqSplitter { barcodes, ..self }
    }

    /// The matching policy.
    pub fn policy(&self) -> (r: MatchPolicy)
        ensures
            r == self.policy_of(),
    {
        MatchPolicy { mm1: self.mm1, mm2: self.mm2, cap: self.cap }
    }

    /// The identifier of each output, in slot order.
    pub fn output_ids(&self) -> (r: Vec<String>)
        ensures
            r@.map_values(|s: String| s@) == output_ids_of(self.barcodes()),
    {
        let mut r: Vec<String> = Vec::new();
        let mut i: usize = 0;
        while i < self.barcodes.len()
            invariant
                i <= self.barcodes@.len(),
                r@.len() == i,
                forall|k: int| 0 <= k < i ==> #[trigger] r@[k]@ == self.barcodes@[k].2@,
            decreases self.barcodes@.len() - i,
        {
            r.push(self.barcodes[i].2.clone());
            i += 1;
        }
        r.push(String::from_str(AMBIGUOUS_ID));
        r.push(String::from_str(UNASSIGNED_ID));
        assert(r@.map_values(|s: String| s@) =~= output_ids_of(self.barcodes()));
        r
    }

    /// The path of each output file, in slot order, under `dir` for the
    /// read file tagged `suffix`.
    pub fn output_paths(&self, dir: &str, suffix: &str) -> (r: Vec<String>)
        ensures
            r@.len() == self.barcodes().len() + 2,
            forall|i: int|
                0 <= i < r@.len() ==> #[trigger] r@[i]@ == output_path_of(
                    dir@,
                    output_ids_of(self.barcodes())[i],
                    suffix@,
                ),
    {
        let ids = self.output_ids();
        let ghost iv = ids@.map_values(|s: String| s@);
        let mut r: Vec<String> = Vec::new();
        let mut i: usize = 0;
        while i < ids.len()
            invariant
                i <= ids@.len(),
                iv == ids@.map_values(|s: String| s@),
                iv == output_ids_of(self.barcodes()),
                r@.len() == i,
                forall|k: int|
                    0 <= k < i ==> #[trigger] r@[k]@ == output_path_of(dir@, iv[k], suffix@),
            decreases ids@.len() - i,
        {
            r.push(output_path(dir, ids[i].as_str(), suffix));
            i += 1;
        }
        assert(iv.len() == ids@.len());
        assert(output_ids_of(self.barcodes()).len() == self.barcodes().len() + 2);
        r
    }

    /// A dispatcher for one pass over this palette and policy, or the
    /// first fault of the palette.
    pub fn dispatcher(&self) -> (r: Result<Dispatcher, ConfigError>)
        ensures
            r is Ok <==> palette_valid(self.barcodes()),
            r matches Err(e) ==> palette_check(self.barcodes()) == Err::<(), ConfigError>(e),
            r matches Ok(d) ==> d.wf() && d.palette() == self.barcodes() && d.policy()
                == self.policy_of() && d.decided().is_empty(),
    {
        Dispatcher::new(copy_palette(&self.barcodes), self.policy())
    }

    /// Decides every distinct pair found at the end of the headers, and
    /// returns the decisions, from joined pair to output slot. A header
    /// without a pair field contributes nothing.
    pub fn match_barcodes(&self, headers: &Vec<Vec<u8>>) -> (r: Result<PairCache, ConfigError>)
        ensures
            r is Ok <==> palette_valid(self.barcodes()),
            r matches Err(e) ==> palette_check(self.barcodes()) == Err::<(), ConfigError>(e),
            r matches Ok(c) ==> {
                &&& forall|i: int|
                    0 <= i < headers@.len() && (#[trigger] header_pair(headers@[i]@)) is Some
                        ==> cache_contents(c).contains_key(header_pair(headers@[i]@)->0)
                && cache_contents(c)[header_pair(headers@[i]@)->0] as int == pair_slot(
                        self.barcodes(),
                        self.policy_of(),
                        header_pair(headers@[i]@)->0,
                    )
                &&& forall|k: Seq<u8>| #[trigger]
                    cache_contents(c).contains_key(k) ==> exists|i: int|
                        0 <= i < headers@.len() && #[trigger] header_pair(headers@[i]@)
                            == Some(k)
            },
    {
        let mut d = match self.dispatcher() {
            Err(e) => return Err(e),
            Ok(d) => d,
        };
        let mut i: usize = 0;
        while i < headers.len()
            invariant
                i <= headers@.len(),
                d.wf(),
                d.palette() == self.barcodes(),
                d.policy() == self.policy_of(),
                forall|j: int|
                    0 <= j < i && (#[trigger] header_pair(headers@[j]@)) is Some
                        ==> d.decided().contains_key(header_pair(headers@[j]@)->0)
                && d.decided()[header_pair(headers@[j]@)->0] as int == pair_slot(
                        self.barcodes(),
                        self.policy_of(),
                        header_pair(headers@[j]@)->0,
                    ),
                forall|k: Seq<u8>| #[trigger]
                    d.decided().contains_key(k) ==> exists|j: int|
                        0 <= j < i && #[trigger] header_pair(headers@[j]@) == Some(k),
            decreases headers@.len() - i,
        {
            match pair_from_header(headers[i].as_slice()) {
                Some(k) => {
                    let ghost before = d.decided();
                    d.route(k.as_slice());
                    proof {
                        assert forall|k2: Seq<u8>| #[trigger]
                            d.decided().contains_key(k2) implies exists|j: int|
                                0 <= j < i + 1 && #[trigger] header_pair(headers@[j]@) == Some(k2) by {
                            if k2 == k@ {
                                assert(header_pair(headers@[i as int]@) == Some(k2));
                            } else {
                                assert(before.contains_key(k2));
                            }
                        }
                    }
                },
                None => {},
            }
            i += 1;
        }
        Ok(d.into_cache())
    }
}

} // verus!
