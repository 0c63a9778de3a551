//! Errors of the versioned layer.
use vstd::prelude::*;

verus! {

/// Declares the store's error type so that it can be carried through.
#[verifier::external_type_specification]
#[verifier::external_body]
pub struct ExSledError(sled::Error);

/// What can go wrong in a call of the versioned layer.
#[derive(Debug)]
pub enum VersionedError {
    /// The store failed; the call is aborted.
    Sled(sled::Error),
    /// A scanned key is shorter than the field prefix.
    VersionEmpty,
    /// A scanned key's version text is not UTF-8.
    VersionUtf,
    /// A scanned key's version text is not a base-16 `u32`.
    VersionParse,
    /// The caller's decode function rejected the stored bytes.
    ValueParse,
    /// Access to the value was refused.
    AccessDenied,
    /// The stored counter bytes are not a usable counter.
    CounterInvalid,
    /// A value was already stored at a freshly allocated version.
    UnexpectedOldValue,
}

impl VersionedError {
    /// A short description of the error.
    pub fn describe(&self) -> (r: &'static str) {
        match self {
            VersionedError::Sled(_) => "store failure",
            VersionedError::VersionEmpty => "key shorter than its prefix",
            VersionedError::VersionUtf => "version text is not UTF-8",
            VersionedError::VersionParse => "version text is not hex",
            VersionedError::ValueParse => "value could not be decoded",
            VersionedError::AccessDenied => "access denied",
            VersionedError::CounterInvalid => "counter is invalid",
            VersionedError::UnexpectedOldValue => "unexpected old value",
        }
    }
}

} // verus!
