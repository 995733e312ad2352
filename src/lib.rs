//! Demultiplexing of paired-end FASTQ reads by dual index barcodes.
//!
//! The library holds the logic of one demultiplexing pass: framing lines
//! into records, reading the observed index pair of each record, matching
//! it against a palette of expected pairs under an edit-distance policy,
//! memoizing each decision, and routing every record to one output.
//! Reading, decompressing, compressing and writing files is left to the
//! program around it.

pub mod distance;
pub mod classify;
pub mod cache;
pub mod palette;
pub mod demux;
pub mod record;
pub mod index;
pub mod splitter;
pub mod laws;
pub mod sheet;
