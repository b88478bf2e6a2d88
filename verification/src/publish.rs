//! Writing to a repository: path verification, the writer capability,
//! publish events, and verified copy with a no-op fast path.

use vstd::prelude::*;
use vstd::string::*;
use crate::checksum::{bytes_eq, clone_bytes, compute_digest, digest_of, ChecksumType, ContentDigest};
use crate::error::DebianError;
use crate::io::{get_path_with_digest_verification, lookup_bytes, DataResolver, MemoryEntry};
use crate::strutil::{dec_str, str_eq, u64_to_dec, usize_to_dec};

verus! {

// ---------------------------------------------------------------------------
// Path verification results
// ---------------------------------------------------------------------------

/// The outcome of checking a destination path.
#[derive(Clone, Copy, Debug, PartialEq, Eq, Structural)]
pub enum RepositoryPathVerificationState {
    /// The path exists but its integrity was not verified.
    ExistsNoIntegrityCheck,
    /// The path exists and both size and digest matched.
    ExistsIntegrityVerified,
    /// The path exists and its content does not match expectations.
    ExistsIntegrityMismatch,
    /// The path is missing.
    Missing,
}

/// The result of verifying one repository path.
#[derive(Clone, Debug)]
pub struct RepositoryPathVerification {
    /// The path that was tested.
    pub path: String,
    /// The state of the path.
    pub state: RepositoryPathVerificationState,
}

impl RepositoryPathVerification {
    /// A one-line rendering of the verification result.
    pub fn describe(&self) -> (r: String)
        ensures
            self.state == RepositoryPathVerificationState::ExistsNoIntegrityCheck ==> r@
                == self.path@ + " exists (no integrity check performed)"@,
            self.state == RepositoryPathVerificationState::ExistsIntegrityVerified ==> r@
                == self.path@ + " exists (integrity verified)"@,
            self.state == RepositoryPathVerificationState::ExistsIntegrityMismatch ==> r@
                == self.path@ + " exists (integrity mismatch!)"@,
            self.state == RepositoryPathVerificationState::Missing ==> r@ == self.path@
                + " missing"@,
    {
        match self.state {
            RepositoryPathVerificationState::ExistsNoIntegrityCheck => self.path.clone().concat(
                " exists (no integrity check performed)",
            ),
            RepositoryPathVerificationState::ExistsIntegrityVerified => self.path.clone().concat(
                " exists (integrity verified)",
            ),
            RepositoryPathVerificationState::ExistsIntegrityMismatch => self.path.clone().concat(
                " exists (integrity mismatch!)",
            ),
            RepositoryPathVerificationState::Missing => self.path.clone().concat(" missing"),
        }
    }
}

// ---------------------------------------------------------------------------
// Write results
// ---------------------------------------------------------------------------

/// A completed write: the path and the number of bytes written.
#[derive(Clone, Debug)]
pub struct RepositoryWrite {
    pub path: String,
    pub bytes_written: u64,
}

/// The result of a copy operation.
#[derive(Clone, Debug)]
pub enum RepositoryWriteOperation {
    /// A path was written.
    PathWritten(RepositoryWrite),
    /// The destination already held the content; nothing was written.
    Noop(String, u64),
}

impl RepositoryWriteOperation {
    /// The written byte count, or the expected size of a no-op.
    pub fn bytes_written(&self) -> (r: u64)
        ensures
            self matches RepositoryWriteOperation::PathWritten(w) ==> r == w.bytes_written,
            self matches RepositoryWriteOperation::Noop(_, size) ==> r == size,
    {
        match self {
            RepositoryWriteOperation::PathWritten(w) => w.bytes_written,
            RepositoryWriteOperation::Noop(_, size) => *size,
        }
    }
}

// ---------------------------------------------------------------------------
// Copy phases and publish events
// ---------------------------------------------------------------------------

/// A phase of a repository copy operation.
#[derive(Clone, Copy, Debug, PartialEq, Eq, Structural)]
pub enum CopyPhase {
    BinaryPackages,
    InstallerBinaryPackages,
    Sources,
    Installers,
    ReleaseIndices,
    ReleaseFiles,
}

impl CopyPhase {
    /// The phase's name in log messages.
    pub fn describe(&self) -> (r: &'static str)
        ensures
            *self == CopyPhase::BinaryPackages ==> r@ == "binary packages"@,
            *self == CopyPhase::InstallerBinaryPackages ==> r@ == "installer binary packages"@,
            *self == CopyPhase::Sources ==> r@ == "sources"@,
            *self == CopyPhase::Installers ==> r@ == "installers"@,
            *self == CopyPhase::ReleaseIndices ==> r@ == "release indices"@,
            *self == CopyPhase::ReleaseFiles ==> r@ == "release files"@,
    {
        match self {
            CopyPhase::BinaryPackages => "binary packages",
            CopyPhase::InstallerBinaryPackages => "installer binary packages",
            CopyPhase::Sources => "sources",
            CopyPhase::Installers => "installers",
            CopyPhase::ReleaseIndices => "release indices",
            CopyPhase::ReleaseFiles => "release files",
        }
    }
}

/// A progress notification surfaced while publishing.
#[derive(Clone, Debug)]
pub enum PublishEvent {
    /// The number of needed pool artifacts was resolved.
    ResolvedPoolArtifacts(usize),
    /// A pool artifact is current and was not updated.
    PoolArtifactCurrent(String),
    /// A pool artifact is missing and will be created.
    PoolArtifactMissing(String),
    /// Total number of pool artifacts to publish.
    PoolArtifactsToPublish(usize),
    /// A pool artifact was created with the given path and size.
    PoolArtifactCreated(String, u64),
    /// The path of an index file to write.
    IndexFileToWrite(String),
    /// An index file was written with the given path and size.
    IndexFileWritten(String, u64),
    /// A destination path is being verified.
    VerifyingDestinationPath(String),
    /// A copy phase has begun.
    CopyPhaseBegin(CopyPhase),
    /// A copy phase has finished.
    CopyPhaseEnd(CopyPhase),
    /// A path is being copied from a source to a destination.
    CopyingPath(String, String),
    /// An indices file could not be copied because it was not found.
    CopyIndicesPathNotFound(String),
    /// A path was copied with the given size.
    PathCopied(String, u64),
    /// A path copy was a no-op.
    PathCopyNoop(String),
    /// A write sequence of the given total byte count begins.
    WriteSequenceBeginWithTotalBytes(u64),
    /// Bytes written so far in the current write sequence.
    WriteSequenceProgressBytes(u64),
    /// The current write sequence finished.
    WriteSequenceFinished,
}

impl PublishEvent {
    /// Whether this is a progress update: exactly the write-sequence
    /// family of events.
    pub fn is_progress(&self) -> (r: bool)
        ensures
            r == (self matches PublishEvent::WriteSequenceBeginWithTotalBytes(_) || self
                matches PublishEvent::WriteSequenceProgressBytes(_) || self
                matches PublishEvent::WriteSequenceFinished),
    {
        match self {
            PublishEvent::WriteSequenceBeginWithTotalBytes(_) => true,
            PublishEvent::WriteSequenceProgressBytes(_) => true,
            PublishEvent::WriteSequenceFinished => true,
            _ => false,
        }
    }

    /// Whether this event carries a meaningful log message: the negation
    /// of [`Self::is_progress`].
    pub fn is_loggable(&self) -> (r: bool)
        ensures
            r == !(self matches PublishEvent::WriteSequenceBeginWithTotalBytes(_) || self
                matches PublishEvent::WriteSequenceProgressBytes(_) || self
                matches PublishEvent::WriteSequenceFinished),
    {
        !self.is_progress()
    }

    /// The log message for this event; empty for progress updates.
    pub fn describe(&self) -> (r: String)
        ensures
            r@ == describe_event_spec(self),
    {
        match self {
            PublishEvent::ResolvedPoolArtifacts(count) => String::from_str("resolved ").concat(
                usize_to_dec(*count).as_str(),
            ).concat(" needed pool artifacts"),
            PublishEvent::PoolArtifactCurrent(path) => String::from_str("pool path ").concat(
                path.as_str(),
            ).concat(" is present"),
            PublishEvent::PoolArtifactMissing(path) => String::from_str("pool path ").concat(
                path.as_str(),
            ).concat(" will be written"),
            PublishEvent::PoolArtifactsToPublish(count) => usize_to_dec(*count).concat(
                " pool artifacts will be written",
            ),
            PublishEvent::PoolArtifactCreated(path, size) => String::from_str("wrote ").concat(
                u64_to_dec(*size).as_str(),
            ).concat(" bytes to ").concat(path.as_str()),
            PublishEvent::IndexFileToWrite(path) => String::from_str("index file ").concat(
                path.as_str(),
            ).concat(" will be written"),
            PublishEvent::IndexFileWritten(path, size) => String::from_str("wrote ").concat(
                u64_to_dec(*size).as_str(),
            ).concat(" bytes to ").concat(path.as_str()),
            PublishEvent::VerifyingDestinationPath(path) => String::from_str(
                "verifying destination path ",
            ).concat(path.as_str()),
            PublishEvent::CopyPhaseBegin(phase) => String::from_str("beginning copying of ")
                .concat(phase.describe()),
            PublishEvent::CopyPhaseEnd(phase) => String::from_str("finished copying of ").concat(
                phase.describe(),
            ),
            PublishEvent::CopyingPath(source, dest) => String::from_str("copying ").concat(
                source.as_str(),
            ).concat(" to ").concat(dest.as_str()),
            PublishEvent::CopyIndicesPathNotFound(path) => String::from_str(
                "copying indices file ",
            ).concat(path.as_str()).concat(" failed because it wasn't found"),
            PublishEvent::PathCopied(path, size) => String::from_str("copied ").concat(
                u64_to_dec(*size).as_str(),
            ).concat(" bytes to ").concat(path.as_str()),
            PublishEvent::PathCopyNoop(path) => String::from_str("copy of ").concat(
                path.as_str(),
            ).concat(" was a no-op"),
            PublishEvent::WriteSequenceBeginWithTotalBytes(_) => String::new(),
            PublishEvent::WriteSequenceProgressBytes(_) => String::new(),
            PublishEvent::WriteSequenceFinished => String::new(),
        }
    }
}

/// The log message of each event.
pub open spec fn describe_event_spec(e: &PublishEvent) -> Seq<char> {
    match e {
        PublishEvent::ResolvedPoolArtifacts(count) => "resolved "@ + dec_str(*count as int)
            + " needed pool artifacts"@,
        PublishEvent::PoolArtifactCurrent(path) => "pool path "@ + path@ + " is present"@,
        PublishEvent::PoolArtifactMissing(path) => "pool path "@ + path@ + " will be written"@,
        PublishEvent::PoolArtifactsToPublish(count) => dec_str(*count as int)
            + " pool artifacts will be written"@,
        PublishEvent::PoolArtifactCreated(path, size) => "wrote "@ + dec_str(*size as int)
            + " bytes to "@ + path@,
        PublishEvent::IndexFileToWrite(path) => "index file "@ + path@ + " will be written"@,
        PublishEvent::IndexFileWritten(path, size) => "wrote "@ + dec_str(*size as int)
            + " bytes to "@ + path@,
        PublishEvent::VerifyingDestinationPath(path) => "verifying destination path "@ + path@,
        PublishEvent::CopyPhaseBegin(phase) => "beginning copying of "@ + describe_phase_spec(
            *phase,
        ),
        PublishEvent::CopyPhaseEnd(phase) => "finished copying of "@ + describe_phase_spec(*phase),
        PublishEvent::CopyingPath(source, dest) => "copying "@ + source@ + " to "@ + dest@,
        PublishEvent::CopyIndicesPathNotFound(path) => "copying indices file "@ + path@
            + " failed because it wasn't found"@,
        PublishEvent::PathCopied(path, size) => "copied "@ + dec_str(*size as int) + " bytes to "@
            + path@,
        PublishEvent::PathCopyNoop(path) => "copy of "@ + path@ + " was a no-op"@,
        PublishEvent::WriteSequenceBeginWithTotalBytes(_) => Seq::empty(),
        PublishEvent::WriteSequenceProgressBytes(_) => Seq::empty(),
        PublishEvent::WriteSequenceFinished => Seq::empty(),
    }
}

pub open spec fn describe_phase_spec(p: CopyPhase) -> Seq<char> {
    match p {
        CopyPhase::BinaryPackages => "binary packages"@,
        CopyPhase::InstallerBinaryPackages => "installer binary packages"@,
        CopyPhase::Sources => "sources"@,
        CopyPhase::Installers => "installers"@,
        CopyPhase::ReleaseIndices => "release indices"@,
        CopyPhase::ReleaseFiles => "release files"@,
    }
}

// ---------------------------------------------------------------------------
// The writer capability
// ---------------------------------------------------------------------------

/// The model of an expected-content pair: size plus digest algorithm
/// and bytes.
pub open spec fn expected_model(e: &Option<(u64, ContentDigest)>) -> Option<
    (u64, (ChecksumType, Seq<u8>)),
> {
    match e {
        Some(p) => Some((p.0, (p.1.algorithm, p.1.digest@))),
        None => None,
    }
}

/// Writing to a repository: testing a path, and storing bytes under a
/// path. Backends plug in by implementing this; each impl says through
/// `verify_state_spec` what its verification reports.
///
/// An implementation may decline to check content integrity, but must
/// then report `ExistsNoIntegrityCheck` rather than claim verification.
pub trait RepositoryWriter: core::marker::Sized {
    /// What `verify_path` reports for a path and expectation. An
    /// implementation that verifies overrides this with its model; the
    /// default models a backend that reports every path missing.
    open spec fn verify_state_spec(
        &self,
        path: Seq<char>,
        expected: Option<(u64, (ChecksumType, Seq<u8>))>,
    ) -> RepositoryPathVerificationState {
        RepositoryPathVerificationState::Missing
    }

    /// Test the existence, and optionally the integrity, of a path.
    fn verify_path(&self, path: &str, expected_content: &Option<(u64, ContentDigest)>) -> (r:
        Result<RepositoryPathVerification, DebianError>)
        ensures
            r matches Ok(v) ==> v.path@ == path@ && v.state == self.verify_state_spec(
                path@,
                expected_model(expected_content),
            ),
    ;

    /// How a completed write relates the writer's old and new states.
    /// The default claims nothing; an implementation that retains
    /// content overrides this with its storage model.
    open spec fn wrote(pre: Self, post: Self, path: Seq<char>, data: Seq<u8>) -> bool {
        true
    }

    /// Store bytes under a path. A completed write reports the full
    /// byte count of the data it was handed and relates the writer's
    /// states by [`Self::wrote`].
    fn write_path(&mut self, path: &str, data: Vec<u8>) -> (r: Result<
        RepositoryWrite,
        DebianError,
    >)
        ensures
            r matches Ok(w) ==> w.path@ == path@ && w.bytes_written == data@.len(),
            r is Ok ==> Self::wrote(*old(self), *final(self), path@, data@),
    ;
}

// ---------------------------------------------------------------------------
// Verified copy
// ---------------------------------------------------------------------------

pub open spec fn is_verifying_event(e: PublishEvent, path: Seq<char>) -> bool {
    e matches PublishEvent::VerifyingDestinationPath(p) && p@ == path
}

pub open spec fn is_copying_event(e: PublishEvent, source: Seq<char>, dest: Seq<char>) -> bool {
    e matches PublishEvent::CopyingPath(s, d) && s@ == source && d@ == dest
}

/// Copy a path from a reader to a writer, verifying the destination
/// first and skipping the write when it already holds the content.
///
/// The destination is verified before any byte moves; when the writer
/// reports `ExistsIntegrityVerified` the copy is a no-op that touches
/// neither the reader nor the writer. Otherwise the source is fetched —
/// with end-to-end digest verification when an expectation is given —
/// and written to the destination. Events record the steps in causal
/// order.
pub fn copy_from<R: DataResolver, W: RepositoryWriter>(
    writer: &mut W,
    reader: &R,
    source_path: &str,
    expected_content: &Option<(u64, ContentDigest)>,
    dest_path: &str,
    events: &mut Vec<PublishEvent>,
) -> (r: Result<RepositoryWriteOperation, DebianError>)
    ensures
        r matches Ok(RepositoryWriteOperation::Noop(p, n)) ==> {
            &&& old(writer).verify_state_spec(dest_path@, expected_model(expected_content))
                == RepositoryPathVerificationState::ExistsIntegrityVerified
            &&& p@ == dest_path@
            &&& n == (match expected_content {
                Some(pair) => pair.0,
                None => 0u64,
            })
            &&& *final(writer) == *old(writer)
            &&& final(events)@.len() == old(events)@.len() + 1
            &&& final(events)@.subrange(0, old(events)@.len() as int) == old(events)@
            &&& is_verifying_event(final(events)@.last(), dest_path@)
        },
        r matches Ok(RepositoryWriteOperation::PathWritten(w)) ==> {
            &&& old(writer).verify_state_spec(dest_path@, expected_model(expected_content))
                != RepositoryPathVerificationState::ExistsIntegrityVerified
            &&& w.path@ == dest_path@
            &&& exists|data: Seq<u8>|
                {
                    &&& #[trigger] W::wrote(*old(writer), *final(writer), dest_path@, data)
                    &&& w.bytes_written == data.len()
                    &&& (expected_model(expected_content) matches Some(pair) ==> data.len()
                        == pair.0 && digest_of(pair.1.0, data) == pair.1.1)
                }
            &&& final(events)@.len() == old(events)@.len() + 2
            &&& final(events)@.subrange(0, old(events)@.len() as int) == old(events)@
            &&& is_verifying_event(final(events)@[old(events)@.len() as int], dest_path@)
            &&& is_copying_event(final(events)@.last(), source_path@, dest_path@)
        },
        r is Err ==> {
            &&& old(events)@.len() + 1 <= final(events)@.len() <= old(events)@.len() + 2
            &&& final(events)@.subrange(0, old(events)@.len() as int) == old(events)@
            &&& is_verifying_event(final(events)@[old(events)@.len() as int], dest_path@)
        },
{
    let ghost n0 = events@.len();
    events.push(PublishEvent::VerifyingDestinationPath(String::from_str(dest_path)));
    proof {
        assert(events@.subrange(0, n0 as int) =~= old(events)@);
    }
    let verification = writer.verify_path(dest_path, expected_content)?;
    if matches!(verification.state, RepositoryPathVerificationState::ExistsIntegrityVerified) {
        let size = match expected_content {
            Some(pair) => pair.0,
            None => 0u64,
        };
        return Ok(RepositoryWriteOperation::Noop(String::from_str(dest_path), size));
    }
    events.push(
        PublishEvent::CopyingPath(String::from_str(source_path), String::from_str(dest_path)),
    );
    proof {
        assert(events@.subrange(0, n0 as int) =~= old(events)@);
        assert(events@[n0 as int] == events@.subrange(n0 as int, events@.len() as int)[0]);
    }
    let data = match expected_content {
        Some(pair) => get_path_with_digest_verification(
            reader,
            source_path,
            pair.0,
            &pair.1,
        )?,
        None => reader.get_path(source_path)?,
    };
    let ghost dv = data@;
    let w = writer.write_path(dest_path, data)?;
    proof {
        assert(W::wrote(*old(writer), *writer, dest_path@, dv));
    }
    Ok(RepositoryWriteOperation::PathWritten(w))
}

// ---------------------------------------------------------------------------
// The sink writer
// ---------------------------------------------------------------------------

/// What a [`SinkWriter`] reports from `verify_path`.
#[derive(Clone, Copy, Debug, PartialEq, Eq, Structural)]
pub enum SinkWriterVerifyBehavior {
    Missing,
    ExistsNoIntegrityCheck,
    ExistsIntegrityVerified,
    ExistsIntegrityMismatch,
}

pub open spec fn behavior_state(b: SinkWriterVerifyBehavior) -> RepositoryPathVerificationState {
    match b {
        SinkWriterVerifyBehavior::Missing => RepositoryPathVerificationState::Missing,
        SinkWriterVerifyBehavior::ExistsNoIntegrityCheck
            => RepositoryPathVerificationState::ExistsNoIntegrityCheck,
        SinkWriterVerifyBehavior::ExistsIntegrityVerified
            => RepositoryPathVerificationState::ExistsIntegrityVerified,
        SinkWriterVerifyBehavior::ExistsIntegrityMismatch
            => RepositoryPathVerificationState::ExistsIntegrityMismatch,
    }
}

/// Parse the verify behavior named by the host of a `null://` URL.
pub fn parse_sink_verify_behavior(s: &str) -> (r: Result<SinkWriterVerifyBehavior, DebianError>)
    ensures
        r is Ok <==> (s@ == "missing"@ || s@ == "exists-no-integrity-check"@ || s@
            == "exists-integrity-verified"@ || s@ == "exists-integrity-mismatch"@),
        r matches Ok(b) ==> {
            &&& (s@ == "missing"@ <==> b == SinkWriterVerifyBehavior::Missing)
            &&& (s@ == "exists-no-integrity-check"@ <==> b
                == SinkWriterVerifyBehavior::ExistsNoIntegrityCheck)
            &&& (s@ == "exists-integrity-verified"@ <==> b
                == SinkWriterVerifyBehavior::ExistsIntegrityVerified)
            &&& (s@ == "exists-integrity-mismatch"@ <==> b
                == SinkWriterVerifyBehavior::ExistsIntegrityMismatch)
        },
        r matches Err(e) ==> e matches DebianError::SinkWriterVerifyBehaviorUnknown(m) && m@ == s@,
{
    proof {
        reveal_strlit("missing");
        reveal_strlit("exists-no-integrity-check");
        reveal_strlit("exists-integrity-verified");
        reveal_strlit("exists-integrity-mismatch");
        assert("exists-no-integrity-check"@[7] != "exists-integrity-verified"@[7]);
        assert("exists-no-integrity-check"@[7] != "exists-integrity-mismatch"@[7]);
        assert("exists-integrity-verified"@[17] != "exists-integrity-mismatch"@[17]);
        assert("missing"@.len() != "exists-no-integrity-check"@.len());
        assert("missing"@.len() != "exists-integrity-verified"@.len());
        assert("missing"@.len() != "exists-integrity-mismatch"@.len());
        assert("exists-no-integrity-check"@ != "exists-integrity-verified"@);
        assert("exists-no-integrity-check"@ != "exists-integrity-mismatch"@);
        assert("exists-integrity-verified"@ != "exists-integrity-mismatch"@);
    }
    if str_eq(s, "missing") {
        Ok(SinkWriterVerifyBehavior::Missing)
    } else if str_eq(s, "exists-no-integrity-check") {
        Ok(SinkWriterVerifyBehavior::ExistsNoIntegrityCheck)
    } else if str_eq(s, "exists-integrity-verified") {
        Ok(SinkWriterVerifyBehavior::ExistsIntegrityVerified)
    } else if str_eq(s, "exists-integrity-mismatch") {
        Ok(SinkWriterVerifyBehavior::ExistsIntegrityMismatch)
    } else {
        Err(DebianError::SinkWriterVerifyBehaviorUnknown(String::from_str(s)))
    }
}

/// A writer that discards all content: verification reports a fixed,
/// configurable state, and writes count their bytes into a black hole.
#[derive(Clone, Debug)]
pub struct SinkWriter {
    pub verify_behavior: SinkWriterVerifyBehavior,
}

impl SinkWriter {
    /// A sink whose verification reports `Missing`.
    pub fn new() -> (r: SinkWriter)
        ensures
            r.verify_behavior == SinkWriterVerifyBehavior::Missing,
    {
        SinkWriter { verify_behavior: SinkWriterVerifyBehavior::Missing }
    }

    /// Set what verification reports.
    pub fn set_verify_behavior(&mut self, behavior: SinkWriterVerifyBehavior)
        ensures
            final(self).verify_behavior == behavior,
    {
        self.verify_behavior = behavior;
    }
}

impl RepositoryWriter for SinkWriter {
    open spec fn verify_state_spec(
        &self,
        path: Seq<char>,
        expected: Option<(u64, (ChecksumType, Seq<u8>))>,
    ) -> RepositoryPathVerificationState {
        behavior_state(self.verify_behavior)
    }

    fn verify_path(&self, path: &str, expected_content: &Option<(u64, ContentDigest)>) -> (r:
        Result<RepositoryPathVerification, DebianError>) {
        let state = match self.verify_behavior {
            SinkWriterVerifyBehavior::Missing => RepositoryPathVerificationState::Missing,
            SinkWriterVerifyBehavior::ExistsNoIntegrityCheck
                => RepositoryPathVerificationState::ExistsNoIntegrityCheck,
            SinkWriterVerifyBehavior::ExistsIntegrityVerified
                => RepositoryPathVerificationState::ExistsIntegrityVerified,
            SinkWriterVerifyBehavior::ExistsIntegrityMismatch
                => RepositoryPathVerificationState::ExistsIntegrityMismatch,
        };
        Ok(RepositoryPathVerification { path: String::from_str(path), state })
    }

    fn write_path(&mut self, path: &str, data: Vec<u8>) -> (r: Result<
        RepositoryWrite,
        DebianError,
    >) {
        Ok(RepositoryWrite { path: String::from_str(path), bytes_written: data.len() as u64 })
    }
}

// ---------------------------------------------------------------------------
// The in-memory writer
// ---------------------------------------------------------------------------

/// A writer that stores blobs in memory and honestly verifies content:
/// `ExistsIntegrityVerified` is reported only when both size and digest
/// of the stored bytes match the expectation.
#[derive(Clone, Debug)]
pub struct MemoryRepositoryWriter {
    pub entries: Vec<MemoryEntry>,
}

/// What an honest verification of stored bytes reports.
pub open spec fn memory_verify_state(
    entries: Seq<MemoryEntry>,
    path: Seq<char>,
    expected: Option<(u64, (ChecksumType, Seq<u8>))>,
) -> RepositoryPathVerificationState {
    match lookup_bytes(entries, path) {
        None => RepositoryPathVerificationState::Missing,
        Some(data) => match expected {
            None => RepositoryPathVerificationState::ExistsNoIntegrityCheck,
            Some(pair) => if data.len() == pair.0 && digest_of(pair.1.0, data) == pair.1.1 {
                RepositoryPathVerificationState::ExistsIntegrityVerified
            } else {
                RepositoryPathVerificationState::ExistsIntegrityMismatch
            },
        },
    }
}

impl MemoryRepositoryWriter {
    pub fn new() -> (r: MemoryRepositoryWriter)
        ensures
            r.entries@.len() == 0,
    {
        MemoryRepositoryWriter { entries: Vec::new() }
    }
}

impl RepositoryWriter for MemoryRepositoryWriter {
    open spec fn verify_state_spec(
        &self,
        path: Seq<char>,
        expected: Option<(u64, (ChecksumType, Seq<u8>))>,
    ) -> RepositoryPathVerificationState {
        memory_verify_state(self.entries@, path, expected)
    }

    /// The written bytes are stored under the path; every other path
    /// keeps its content.
    open spec fn wrote(
        pre: MemoryRepositoryWriter,
        post: MemoryRepositoryWriter,
        path: Seq<char>,
        data: Seq<u8>,
    ) -> bool {
        &&& lookup_bytes(post.entries@, path) == Some(data)
        &&& forall|q: Seq<char>| q != path ==> #[trigger] lookup_bytes(post.entries@, q)
            == lookup_bytes(pre.entries@, q)
    }

    fn verify_path(&self, path: &str, expected_content: &Option<(u64, ContentDigest)>) -> (r:
        Result<RepositoryPathVerification, DebianError>) {
        let ghost s = self.entries@;
        let n = self.entries.len();
        let mut i: usize = 0;
        proof {
            assert(s.subrange(0, n as int) =~= s);
        }
        while i < n
            invariant
                n == self.entries@.len(),
                s == self.entries@,
                0 <= i <= n,
                lookup_bytes(s.subrange(i as int, n as int), path@) == lookup_bytes(s, path@),
            decreases n - i,
        {
            let ghost rem = s.subrange(i as int, n as int);
            proof {
                assert(rem[0] == s[i as int]);
                assert(rem.subrange(1, rem.len() as int) =~= s.subrange(i + 1, n as int));
            }
            if str_eq(self.entries[i].path.as_str(), path) {
                let data = &self.entries[i].data;
                let state = match expected_content {
                    None => RepositoryPathVerificationState::ExistsNoIntegrityCheck,
                    Some(pair) => {
                        let size_ok = data.len() as u64 == pair.0;
                        let actual = compute_digest(pair.1.algorithm, data);
                        let digest_ok = bytes_eq(&actual, &pair.1.digest);
                        if size_ok && digest_ok {
                            RepositoryPathVerificationState::ExistsIntegrityVerified
                        } else {
                            RepositoryPathVerificationState::ExistsIntegrityMismatch
                        }
                    },
                };
                return Ok(RepositoryPathVerification { path: String::from_str(path), state });
            }
            i += 1;
        }
        proof {
            assert(s.subrange(n as int, n as int) =~= Seq::<MemoryEntry>::empty());
        }
        Ok(
            RepositoryPathVerification {
                path: String::from_str(path),
                state: RepositoryPathVerificationState::Missing,
            },
        )
    }

    /// Store the bytes, replacing every previous blob under the path.
    fn write_path(&mut self, path: &str, data: Vec<u8>) -> (r: Result<
        RepositoryWrite,
        DebianError,
    >)
        ensures
            r is Ok,
            lookup_bytes(final(self).entries@, path@) == Some(data@),
            forall|q: Seq<char>| q != path@ ==> #[trigger] lookup_bytes(final(self).entries@, q)
                == lookup_bytes(old(self).entries@, q),
            r matches Ok(w) ==> w.bytes_written == data@.len(),
    {
        let ghost s0 = self.entries@;
        let mut kept: Vec<MemoryEntry> = Vec::new();
        let n = self.entries.len();
        let mut i: usize = 0;
        proof {
            assert(s0.subrange(0, 0) =~= Seq::<MemoryEntry>::empty());
        }
        while i < n
            invariant
                n == self.entries@.len(),
                s0 == self.entries@,
                0 <= i <= n,
                forall|j: int| 0 <= j < kept@.len() ==> (#[trigger] kept@[j]).path@ != path@,
                forall|q: Seq<char>| q != path@ ==> #[trigger] lookup_bytes(kept@, q)
                    == lookup_bytes(s0.subrange(0, i as int), q),
            decreases n - i,
        {
            let ghost pre = s0.subrange(0, i as int);
            let ghost pre1 = s0.subrange(0, i + 1);
            let keep = !str_eq(self.entries[i].path.as_str(), path);
            let ghost kept0 = kept@;
            if keep {
                kept.push(
                    MemoryEntry {
                        path: self.entries[i].path.clone(),
                        data: clone_bytes(&self.entries[i].data),
                    },
                );
            }
            proof {
                assert forall|q: Seq<char>| q != path@ implies #[trigger] lookup_bytes(kept@, q)
                    == lookup_bytes(pre1, q) by {
                    assert(pre1 =~= pre.push(s0[i as int]));
                    lemma_lookup_push(pre, s0[i as int], q);
                    if keep {
                        assert(kept@ =~= kept0.push(kept@.last()));
                        lemma_lookup_push(kept0, kept@.last(), q);
                        assert(kept@.last().path@ == s0[i as int].path@);
                        assert(kept@.last().data@ == s0[i as int].data@);
                    } else {
                        assert(s0[i as int].path@ == path@);
                    }
                }
            }
            i += 1;
        }
        proof {
            assert(s0.subrange(0, n as int) =~= s0);
        }
        let bytes_written = data.len() as u64;
        let ghost keptf = kept@;
        kept.push(MemoryEntry { path: String::from_str(path), data });
        self.entries = kept;
        proof {
            let fin = self.entries@;
            assert(fin =~= keptf.push(fin.last()));
            assert forall|q: Seq<char>| q != path@ implies #[trigger] lookup_bytes(fin, q)
                == lookup_bytes(s0, q) by {
                lemma_lookup_push(keptf, fin.last(), q);
            }
            lemma_lookup_append_hit(keptf, fin.last());
        }
        Ok(RepositoryWrite { path: String::from_str(path), bytes_written })
    }
}

/// What looking up `q` after appending `e` yields: the earlier hit when
/// there is one, else `e`'s bytes when its path is `q`, else nothing.
proof fn lemma_lookup_push(entries: Seq<MemoryEntry>, e: MemoryEntry, q: Seq<char>)
    ensures
        lookup_bytes(entries.push(e), q) == (if lookup_bytes(entries, q) is Some {
            lookup_bytes(entries, q)
        } else if e.path@ == q {
            Some(e.data@)
        } else {
            None
        }),
    decreases entries.len(),
{
    if entries.len() == 0 {
        assert(entries.push(e).len() == 1);
        assert(entries.push(e)[0] == e);
        assert(entries.push(e).subrange(1, 1) =~= Seq::<MemoryEntry>::empty());
        if e.path@ == q {
            assert(lookup_bytes(entries.push(e), q) == Some(e.data@));
        } else {
            assert(lookup_bytes(entries.push(e), q) == lookup_bytes(
                entries.push(e).subrange(1, entries.push(e).len() as int),
                q,
            ));
            assert(entries.push(e).subrange(1, entries.push(e).len() as int) =~= Seq::<
                MemoryEntry,
            >::empty());
            assert(lookup_bytes(Seq::<MemoryEntry>::empty(), q) is None);
        }
        assert(lookup_bytes(entries, q) is None);
    } else {
        let p2 = entries.push(e);
        assert(p2[0] == entries[0]);
        let t = entries.subrange(1, entries.len() as int);
        lemma_lookup_push(t, e, q);
        assert(p2.subrange(1, p2.len() as int) =~= t.push(e));
        if entries[0].path@ == q {
            assert(lookup_bytes(p2, q) == Some(entries[0].data@));
            assert(lookup_bytes(entries, q) == Some(entries[0].data@));
        } else {
            assert(lookup_bytes(p2, q) == lookup_bytes(t.push(e), q));
            assert(lookup_bytes(entries, q) == lookup_bytes(t, q));
        }
    }
}

/// Appending an entry makes its own path resolve to its bytes, when no
/// earlier entry holds that path.
proof fn lemma_lookup_append_hit(entries: Seq<MemoryEntry>, e: MemoryEntry)
    requires
        forall|j: int| 0 <= j < entries.len() ==> (#[trigger] entries[j]).path@ != e.path@,
    ensures
        lookup_bytes(entries.push(e), e.path@) == Some(e.data@),
    decreases entries.len(),
{
    if entries.len() == 0 {
        assert(entries.push(e)[0] == e);
    } else {
        let t = entries.subrange(1, entries.len() as int);
        assert forall|j: int| 0 <= j < t.len() implies (#[trigger] t[j]).path@ != e.path@ by {
            assert(t[j] == entries[j + 1]);
        }
        lemma_lookup_append_hit(t, e);
        assert(entries.push(e).subrange(1, entries.push(e).len() as int) =~= t.push(e));
        assert(entries.push(e)[0] == entries[0]);
    }
}

/// A copy that wrote content with an expected size and digest leaves
/// the honest writer reporting `ExistsIntegrityVerified` for that
/// expectation — so by `copy_from`'s contract, a repeated copy of the
/// same content is a no-op.
pub proof fn lemma_copy_idempotent(
    pre: MemoryRepositoryWriter,
    post: MemoryRepositoryWriter,
    path: Seq<char>,
    data: Seq<u8>,
    t: ChecksumType,
)
    requires
        <MemoryRepositoryWriter as RepositoryWriter>::wrote(pre, post, path, data),
        data.len() <= u64::MAX,
    ensures
        post.verify_state_spec(path, Some((data.len() as u64, (t, digest_of(t, data)))))
            == RepositoryPathVerificationState::ExistsIntegrityVerified,
{
}

/// After storing bytes under a path, an honest verification of that
/// path against the bytes' own size and digest reports
/// `ExistsIntegrityVerified` — so a repeated copy of the same content
/// is a no-op.
pub proof fn lemma_write_then_verify(
    entries: Seq<MemoryEntry>,
    path: Seq<char>,
    data: Seq<u8>,
    t: ChecksumType,
)
    requires
        lookup_bytes(entries, path) == Some(data),
        data.len() <= u64::MAX,
    ensures
        memory_verify_state(entries, path, Some((data.len() as u64, (t, digest_of(t, data)))))
            == RepositoryPathVerificationState::ExistsIntegrityVerified,
{
}

} // verus!