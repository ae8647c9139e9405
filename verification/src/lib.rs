//! Indexed, random-access reading and real-time replay of chunked MCAP logs.
//!
//! The library models a log as raw bytes plus a parsed summary (channel
//! table, schema table, chunk indexes).  Chunk and record decoding is
//! delegated to the `mcap` crate behind a small set of trusted wrappers;
//! everything above those wrappers - the merge iterator, the indexed
//! query engine and the replay scheduler - is verified.
//!
//! The codec is built without its decompressors, because a compressed
//! chunk's contents cannot be validated before decoding (see
//! [`framing`]): chunks carrying a non-empty compression string are
//! reported as decode failures, never decompressed.  Logs written with
//! uncompressed chunks - and everything outside chunk payloads - are fully
//! supported.

pub mod codec;
pub mod framing;
pub mod indexes;
pub mod iterator;
pub mod laws;
pub mod model;
pub mod reader;
pub mod replay;
pub mod sort;
pub mod types;
