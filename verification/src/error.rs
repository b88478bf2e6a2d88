//! The error type shared by every fallible operation of the crate.

use vstd::prelude::*;

verus! {

/// The kind of a transport failure, as far as the core needs to tell
/// them apart: `fetch_inrelease_or_release` falls back from `InRelease`
/// to `Release` exactly when the failure kind is `NotFound`.
#[derive(Clone, Copy, Debug, PartialEq, Eq, Structural)]
pub enum IoErrorKind {
    /// The backend has no blob under the requested key.
    NotFound,
    /// Any other backend failure.
    Other,
}

/// Errors surfaced at the crate boundary.
#[derive(Clone, Debug)]
pub enum DebianError {
    /// I/O failure not tied to a repository path.
    Io(String),
    /// Transport failure on a repository-relative path.
    IoPath(String, IoErrorKind),
    /// A string could not be parsed as a URL.
    Url(String),
    /// Malformed OpenPGP cleartext envelope.
    Pgp(String),
    /// A date field could not be parsed.
    DateParse(String),
    /// Malformed control paragraph; carries the offending line.
    ControlParseError(String),
    /// A required control field is absent; carries the field name.
    ControlRequiredFieldMissing(String),
    /// A control field could not be parsed as an integer; carries the field name.
    ControlFieldIntParse(String),
    /// A digest string is not valid hex; carries the string.
    BadHex(String),
    /// An index table row names a path containing spaces; carries the row.
    PathWithSpaces(String),
    /// An index table row lacks the size column.
    ReleaseMissingSize,
    /// An index table row lacks the path column.
    ReleaseMissingPath,
    /// The Release file advertises no known checksum table.
    NoKnownChecksum,
    /// No `Packages` index entry satisfies the query.
    PackagesIndicesEntryNotFound,
    /// No `Sources` index entry satisfies the query.
    SourcesIndicesEntryNotFound,
    /// No `Contents` index entry satisfies the query.
    ContentsIndicesEntryNotFound,
    /// A package paragraph carries no known digest field.
    CouldNotDeterminePackageDigest,
    /// Fetched content does not match its advertised size or digest.
    /// `expected` and `actual` are decimal byte counts or hex digests.
    IntegrityMismatch { path: String, expected: String, actual: String },
    /// No reader backend is known for the URL.
    ReaderUnrecognizedUrl(String),
    /// No writer backend is known for the URL.
    WriterUnrecognizedUrl(String),
    /// The host of a `null://` writer URL names no verify behavior.
    SinkWriterVerifyBehaviorUnknown(String),
}

} // verus!
