//! The failures of the store and of the codecs, as the scheduler is told of them.

use vstd::prelude::*;

verus! {

/// What went wrong, with the message of the component that failed.
#[derive(Debug, Clone, PartialEq, Eq)]
pub enum E {
    /// The store could not be read or written.
    RocksError(String),
    /// What the store holds could not be decoded.
    DecodeError(String),
    /// A record could not be encoded for the store.
    EncodeError(String),
    /// The store has no data under the key that is named.
    MissingData(String),
    /// An image could not be decoded or encoded.
    ImageError(String),
}

} // verus!
