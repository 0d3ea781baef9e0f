//! Codec for a chunked, checksummed binary container format.
//!
//! A container is a fixed eight-byte signature followed by a sequence of
//! framed records ("chunks"). Each chunk carries a big-endian length, a
//! four-letter type tag, a payload, and a CRC-32 trailer computed over the
//! tag and payload. The library parses, builds, mutates and re-serializes
//! such containers, and proves that serialization and parsing are exact
//! inverses of one another.

pub mod byte_order;
pub mod checksum;
pub mod chunk;
pub mod chunk_type;
pub mod png;
pub mod text;

use vstd::prelude::*;

verus! {

} // verus!
