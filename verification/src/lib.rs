//! Verified core of an extraction pipeline for robotics sensor-log container
//! files: a topic catalog aggregator, a codec layer (decompression and
//! fixed-layout record deserialization), a point-cloud field decoder, per-topic
//! decoders, a single-pass message dispatcher with time-window filtering and
//! cooperative cancellation, and a trimmer that copies a time slice of
//! messages verbatim.

pub mod cancel;
pub mod catalog;
pub mod clock;
pub mod codec;
pub mod container;
pub mod errors;
pub mod extract;
pub mod msg;
pub mod points;
pub mod run;
pub mod vehicle;
pub mod video;
pub mod window;
pub mod wire;
