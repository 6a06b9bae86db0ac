//! The build-time error taxonomy. Serving a request never fails: every
//! request maps to an ordinary response.

use vstd::prelude::*;

verus! {

/// Why building a route table fails. Either condition aborts the whole
/// build: a partial table is never produced.
#[derive(Clone, Copy, PartialEq, Eq, Structural, Debug)]
pub enum Error {
    /// The end-of-central-directory record, a central-directory record or a
    /// local file header cannot be parsed, an entry name is not UTF-8, or a
    /// payload does not decode to its declared length.
    CorruptArchive,
    /// An entry uses a compression method other than stored or deflate.
    UnsupportedCompression,
}

impl Error {
    /// A short description of the error.
    pub fn message(&self) -> &'static str {
        match self {
            Error::CorruptArchive => "corrupt archive",
            Error::UnsupportedCompression => "unsupported compression",
        }
    }
}

} // verus!
