//! Decoders for three families of chunked binary game-data files.
//!
//! Every file starts with a fixed header and then holds fixed-stride records
//! whose string fields are references into a pool that begins sixteen bytes
//! after the start of the file. The decoders work on bytes that are already in
//! memory and return plain values; reading directories and writing documents
//! is left to the caller.

pub mod error;
pub mod utils;
pub mod pool;
pub mod strmap;
pub mod parsers;
pub mod stl;
pub mod family;
pub mod listing;
