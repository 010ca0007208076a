//! Encoder for a little-endian, zlib-compressed matrix-container file that
//! holds an ordered series of (speed, slope) track samples, together with the
//! row parser that extracts such samples from delimited-text rows.

pub mod encode;
pub mod le;
pub mod parse;
pub mod sample;

pub use sample::TrackSample;
