//! The error taxonomy of the pipeline. Catalog and topic-validation errors
//! abort a run before any decoding begins; per-message codec or decoder
//! errors abort the whole run immediately; `Interrupted` is kept distinct so
//! a caller can report "stopped by user" rather than "job failed".

use vstd::prelude::*;

verus! {

#[derive(Debug, Clone, PartialEq, Eq)]
pub enum Error {
    /// An input file's summary section could not be read; carries the file name.
    NoSummary(String),
    /// An input file's summary lacks the statistics sub-section; carries the file name.
    NoStatistics(String),
    /// A requested topic is absent from the catalog; carries the topic name.
    InvalidTopic(String),
    /// A requested topic's schema is not one of the supported set; carries the schema name.
    UnsupportedTopicFormat(String),
    /// Streaming decompression of a message payload failed; carries the reported reason.
    Decompress(String),
    /// A message payload is not a well-formed record: shorter than the
    /// required prefix, a declared length past the end, or invalid text bytes.
    Codec,
    /// A point field carries a datatype code outside the known table.
    InvalidDatatype(u8),
    /// A point cloud lacks one of the columns this decoder requires; carries the column name.
    MissingField(String),
    /// The container-format library could not read a file; carries its report.
    Container(String),
    /// The external picture decoder could not be brought up; carries its report.
    H264(String),
    /// Cancellation was observed.
    Interrupted,
    /// A decoded video frame has no aligned timestamp left to name it by.
    Timestamp,
    /// A record's declared geometry does not cover its payload
    /// (for example an image whose data is shorter than `step * height`).
    Geometry,
}

} // verus!
