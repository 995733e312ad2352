//! FASTQ records, their framing from lines, and their serialization.

use vstd::prelude::*;
use vstd::utf8::valid_utf8;

verus! {

/// The line feed that ends each line.
pub const LINE_FEED: u8 = 10;

/// A carriage return, dropped from the end of a line.
pub const CARRIAGE_RETURN: u8 = 13;

/// One FASTQ record: header, sequence, separator and quality lines,
/// without their line ends.
#[derive(Debug, PartialEq, Eq)]
pub struct Record {
    pub header: Vec<u8>,
    pub sequence: Vec<u8>,
    pub separator: Vec<u8>,
    pub quality: Vec<u8>,
}

/// A fatal fault in an input stream.
#[derive(Clone, Copy, Debug, PartialEq, Eq, Structural)]
pub enum RecordError {
    /// The stream ended inside a record, or a header is not UTF-8; the
    /// value is the byte offset of the record's first line.
    MalformedRecord(u64),
    /// A sidecar index record does not belong to the primary record.
    IndexDesync,
}

/// Relies on `simdutf8::basic::from_utf8`, which returns `Ok` exactly when
/// the bytes are valid UTF-8.
#[verifier::external_body]
pub(crate) fn is_utf8(b: &[u8]) -> (r: bool)
    ensures
        r == valid_utf8(b@),
{
    simdutf8::basic::from_utf8(b).is_ok()
}

/// A line as read, without its line feed and then without a carriage
/// return before it.
pub open spec fn strip_line(raw: Seq<u8>) -> Seq<u8> {
    let a = if raw.len() > 0 && raw.last() == LINE_FEED {
        raw.drop_last()
    } else {
        raw
    };
    if a.len() > 0 && a.last() == CARRIAGE_RETURN {
        a.drop_last()
    } else {
        a
    }
}

/// The bytes of a record as written: its four lines, each ended by a line
/// feed.
pub open spec fn record_bytes(r: Record) -> Seq<u8> {
    r.header@ + seq![LINE_FEED] + r.sequence@ + seq![LINE_FEED] + r.separator@ + seq![LINE_FEED]
        + r.quality@ + seq![LINE_FEED]
}

/// Appends `b` to `out`.
fn append_bytes(out: &mut Vec<u8>, b: &[u8])
    ensures
        final(out)@ == old(out)@ + b@,
{
    let mut i: usize = 0;
    while i < b.len()
        invariant
            i <= b@.len(),
            out@ == old(out)@ + b@.take(i as int),
        decreases b@.len() - i,
    {
        out.push(b[i]);
        assert(b@.take(i + 1) =~= b@.take(i as int).push(b@[i as int]));
        i += 1;
    }
    assert(b@.take(b@.len() as int) =~= b@);
}

/// Copies a line without its line end.
pub fn strip(raw: &[u8]) -> (r: Vec<u8>)
    ensures
        r@ == strip_line(raw@),
{
    let mut n: usize = raw.len();
    if n > 0 && raw[n - 1] == LINE_FEED {
        n -= 1;
    }
    if n > 0 && raw[n - 1] == CARRIAGE_RETURN {
        n -= 1;
    }
    let mut r: Vec<u8> = Vec::new();
    append_bytes(&mut r, vstd::slice::slice_subrange(raw, 0, n));
    assert(r@ =~= strip_line(raw@));
    r
}

impl Record {
    /// The record as four lines, each ended by a line feed; the separator
    /// line is kept byte for byte.
    pub fn to_bytes(&self) -> (r: Vec<u8>)
        ensures
            r@ == record_bytes(*self),
    {
        let mut r: Vec<u8> = Vec::new();
        append_bytes(&mut r, self.header.as_slice());
        r.push(LINE_FEED);
        append_bytes(&mut r, self.sequence.as_slice());
        r.push(LINE_FEED);
        append_bytes(&mut r, self.separator.as_slice());
        r.push(LINE_FEED);
        append_bytes(&mut r, self.quality.as_slice());
        r.push(LINE_FEED);
        assert(r@ =~= record_bytes(*self));
        r
    }
}

/// Groups the lines of one stream into records of four lines.
pub struct RecordFramer {
    pending: Vec<Vec<u8>>,
    consumed: u64,
    start: u64,
}

impl RecordFramer {
    /// Lines of the record being assembled, without their line ends.
    pub closed spec fn pending(&self) -> Seq<Seq<u8>> {
        self.pending@.map_values(|l: Vec<u8>| l@)
    }

    /// Bytes of the stream consumed so far.
    pub closed spec fn consumed(&self) -> u64 {
        self.consumed
    }

    /// Byte offset of the first line of the record being assembled.
    pub closed spec fn start(&self) -> u64 {
        self.start
    }

    /// At most three lines wait for the rest of their record.
    pub closed spec fn wf(&self) -> bool {
        self.pending@.len() < 4
    }

    /// A framer at the start of a stream.
    pub fn new() -> (r: RecordFramer)
        ensures
            r.wf(),
            r.pending().len() == 0,
            r.consumed() == 0,
            r.start() == 0,
    {
        RecordFramer { pending: Vec::new(), consumed: 0, start: 0 }
    }

    /// Takes the next line of the stream, as read, with its line feed if it
    /// has one. The fourth line of a record completes it and hands it out.
    /// A header line that is not UTF-8 is a fatal fault at the offset where
    /// it starts, and leaves the framer as it was.
    pub fn push_line(&mut self, raw: &[u8]) -> (r: Result<Option<Record>, RecordError>)
        requires
            old(self).wf(),
            old(self).consumed() + raw@.len() <= u64::MAX,
        ensures
            final(self).wf(),
            old(self).pending().len() == 0 && !valid_utf8(strip_line(raw@)) ==> {
                &&& r == Err::<Option<Record>, RecordError>(
                    RecordError::MalformedRecord(old(self).consumed()),
                )
                &&& *final(self) == *old(self)
            },
            !(old(self).pending().len() == 0 && !valid_utf8(strip_line(raw@))) ==> {
                &&& final(self).consumed() == old(self).consumed() + raw@.len()
                &&& final(self).start() == (if old(self).pending().len() == 0 {
                    old(self).consumed()
                } else {
                    old(self).start()
                })
                &&& old(self).pending().len() < 3 ==> {
                    &&& r == Ok::<Option<Record>, RecordError>(None)
                    &&& final(self).pending() == old(self).pending().push(strip_line(raw@))
                }
                &&& old(self).pending().len() == 3 ==> {
                    &&& r matches Ok(Some(rec)) && rec.header@ == old(self).pending()[0]
                        && rec.sequence@ == old(self).pending()[1] && rec.separator@ == old(
                        self,
                    ).pending()[2] && rec.quality@ == strip_line(raw@)
                    &&& final(self).pending().len() == 0
                }
            },
    {
        let line = strip(raw);
        if self.pending.len() == 0 {
            if !is_utf8(line.as_slice()) {
                return Err(RecordError::MalformedRecord(self.consumed));
            }
            self.start = self.consumed;
        }
        self.consumed = self.consumed + raw.len() as u64;
        if self.pending.len() < 3 {
            self.pending.push(line);
            assert(self.pending() =~= old(self).pending().push(strip_line(raw@)));
            return Ok(None);
        }
        let mut lines: Vec<Vec<u8>> = Vec::new();
        std::mem::swap(&mut lines, &mut self.pending);
        assert(lines@.len() == 3);
        let quality = line;
        let separator = lines.pop().unwrap();
        let sequence = lines.pop().unwrap();
        let header = lines.pop().unwrap();
        proof {
            assert(self.pending() =~= Seq::<Seq<u8>>::empty());
        }
        Ok(Some(Record { header, sequence, separator, quality }))
    }

    /// Ends the stream: clean at a record boundary, else a fatal fault at
    /// the offset of the incomplete record's first line.
    pub fn finish(&self) -> (r: Result<(), RecordError>)
        ensures
            r == (if self.pending().len() == 0 {
                Ok::<(), RecordError>(())
            } else {
                Err(RecordError::MalformedRecord(self.start()))
            }),
    {
        if self.pending.len() == 0 {
            Ok(())
        } else {
            Err(RecordError::MalformedRecord(self.start))
        }
    }
}

} // verus!
