use vstd::prelude::*;

verus! {

/// Typed failures of the object store. Every operation reports one of these;
/// nothing is swallowed, and each condition is distinguishable by the caller.
#[derive(Clone, Copy, Debug, PartialEq, Eq, Structural)]
pub enum StoreError {
    /// The repository skeleton is missing where an object operation expected it.
    RepositoryNotFound,
    /// Initialization was attempted on a repository that already exists.
    AlreadyInitialized,
    /// No object is stored under the given identifier.
    ObjectNotFound,
    /// The identifier is not a 40-character lowercase hexadecimal string.
    InvalidIdentifier,
    /// The object header has no NUL terminator, is not valid UTF-8 text,
    /// or lacks the space separating kind from size.
    MalformedHeader,
    /// The kind token of the header names no kind in the registry.
    UnknownKind,
    /// The size token is not a representable decimal number, or the declared
    /// size exceeds the payload bytes actually present.
    InvalidSize,
    /// Bytes remain after the declared payload size was consumed.
    TrailingData,
    /// The compressed stream ended before its trailer.
    TruncatedStream,
    /// The compressed stream is malformed.
    CorruptStream,
    /// The object decoded cleanly but its kind is not implemented here.
    UnsupportedKind,
    /// An underlying filesystem operation failed.
    Io,
}

impl StoreError {
    /// A human-readable description of the failure.
    pub open spec fn spec_message(self) -> Seq<char> {
        match self {
            StoreError::RepositoryNotFound => "repository not found"@,
            StoreError::AlreadyInitialized => "repository already initialized"@,
            StoreError::ObjectNotFound => "object not found"@,
            StoreError::InvalidIdentifier => "invalid object identifier"@,
            StoreError::MalformedHeader => "malformed object header"@,
            StoreError::UnknownKind => "unknown object kind"@,
            StoreError::InvalidSize => "invalid object size"@,
            StoreError::TrailingData => "trailing data after object payload"@,
            StoreError::TruncatedStream => "truncated compressed stream"@,
            StoreError::CorruptStream => "corrupt compressed stream"@,
            StoreError::UnsupportedKind => "unsupported object kind"@,
            StoreError::Io => "input/output failure"@,
        }
    }

    /// The description as a string slice, for callers that report errors.
    pub fn message(self) -> (m: &'static str)
        ensures
            m@ == self.spec_message(),
    {
        match self {
            StoreError::RepositoryNotFound => "repository not found",
            StoreError::AlreadyInitialized => "repository already initialized",
            StoreError::ObjectNotFound => "object not found",
            StoreError::InvalidIdentifier => "invalid object identifier",
            StoreError::MalformedHeader => "malformed object header",
            StoreError::UnknownKind => "unknown object kind",
            StoreError::InvalidSize => "invalid object size",
            StoreError::TrailingData => "trailing data after object payload",
            StoreError::TruncatedStream => "truncated compressed stream",
            StoreError::CorruptStream => "corrupt compressed stream",
            StoreError::UnsupportedKind => "unsupported object kind",
            StoreError::Io => "input/output failure",
        }
    }
}

} // verus!
