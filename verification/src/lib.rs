//! An in-memory static asset server core: it turns a ZIP snapshot into an
//! immutable table from URL path to served entry, and answers conditional
//! GET/HEAD requests against that table. Entry payloads are decoded from the
//! archive, optionally re-encoded with a general-purpose compressor, tagged
//! with CRC32-based validators, and served with per-type headers.

pub mod builder;
pub mod compression;
pub mod digits;
pub mod errors;
pub mod github;
pub mod handler;
pub mod http;
pub mod path;
pub mod text;
pub mod types;
pub mod zip;
