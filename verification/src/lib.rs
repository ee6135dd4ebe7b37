//! Content-addressed object storage: the codec, hashing and compression
//! pipeline of a version-control object database.
//!
//! An object is a typed payload framed as `"<kind> <size>\0<payload>"`,
//! identified by the hex-encoded SHA-1 digest of those framed bytes, and
//! stored zlib-compressed under a path derived from the identifier.

pub mod error;
pub mod kind;
pub mod numerals;
pub mod utf8;
pub mod codec;
pub mod digest;
pub mod zlib;
pub mod ids;
pub mod store;
