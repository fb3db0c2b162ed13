//! A reader for MCAP files that yields one record at a time.
//!
//! The reader never touches a file or a socket itself. It is a state machine: it asks for the next
//! read, is told how that read went, and answers with the next request or with a record. The host
//! that owns the input performs the reads, in whatever way suits it, and puts the decompressors in
//! place when a chunk is opened.

pub mod chunk_header;
pub mod codec;
pub mod cursor;
pub mod decode;
pub mod encode;
pub mod error;
pub mod laws;
mod lemmas;
pub mod parse;
pub mod read;
pub mod records;
pub mod stream;
pub mod values;
pub mod views;

pub use error::{McapError, McapResult};
pub use parse::parse_record;

use vstd::prelude::*;

verus! {

/// The bytes that stand at the start and at the end of every MCAP file.
pub const MAGIC: [u8; 8] = [0x89, 0x4D, 0x43, 0x41, 0x50, 0x30, 0x0D, 0x0A];

} // verus!
