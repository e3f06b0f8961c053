//! A verified model of the PNG chunk container format: validated 4-byte chunk
//! type codes, length-prefixed and checksummed chunks, and an ordered chunk
//! container that parses from and serializes to the exact byte layout.

pub mod be_bytes;
pub mod checksum;
pub mod chunk;
pub mod chunk_type;
pub mod encrypt;
pub mod errors;
pub mod png;
pub mod text;

pub use chunk::Chunk;
pub use chunk_type::ChunkType;
pub use encrypt::{decrypt, encrypt};
pub use errors::PngError;
pub use png::Png;
