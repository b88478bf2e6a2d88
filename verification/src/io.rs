//! Blob access: the resolver capability, and the verified wrapper that
//! checks size and digest end to end before releasing any bytes.

use vstd::prelude::*;
use vstd::string::*;
use vstd::utf8::valid_utf8;
use crate::checksum::{
    bytes_eq, clone_bytes, compute_digest, digest_of, hex_encode, hex_encode_spec, ContentDigest,
};
use crate::compression::{decompress, decompress_spec, Compression};
use crate::error::{DebianError, IoErrorKind};
use crate::strutil::{dec_str, str_eq, u64_to_dec};

verus! {

// ---------------------------------------------------------------------------
// Bytes to text
// ---------------------------------------------------------------------------

#[verifier::external_type_specification]
#[verifier::external_body]
pub struct ExFromUtf8Error(std::string::FromUtf8Error);

/// Relies on String::from_utf8: succeeds exactly on valid UTF-8, and the
/// returned string is the decoding of the bytes.
pub assume_specification[ String::from_utf8 ](v: Vec<u8>) -> (r: Result<
    String,
    std::string::FromUtf8Error,
>)
    ensures
        r is Ok <==> valid_utf8(v@),
        r matches Ok(s) ==> vstd::utf8::encode_utf8(s@) == v@ && s@ == vstd::utf8::decode_utf8(v@),
;

/// Decode fetched bytes as UTF-8 text, or report a parse failure.
pub fn bytes_to_string(data: Vec<u8>) -> (r: Result<String, DebianError>)
    ensures
        r is Ok <==> valid_utf8(data@),
        r matches Ok(s) ==> s@ == vstd::utf8::decode_utf8(data@),
        r matches Err(e) ==> e matches DebianError::ControlParseError(_),
{
    match String::from_utf8(data) {
        Ok(s) => Ok(s),
        Err(_) => Err(DebianError::ControlParseError(String::from_str("invalid utf-8"))),
    }
}

// ---------------------------------------------------------------------------
// The resolver capability
// ---------------------------------------------------------------------------

/// Path-keyed blob access. A backend returns the bytes stored under a
/// repository-relative path, or `IoPath(path, NotFound)` when the key is
/// absent, or `IoPath(path, _)` on any other transport failure.
pub trait DataResolver {
    fn get_path(&self, path: &str) -> Result<Vec<u8>, DebianError>;
}

// ---------------------------------------------------------------------------
// Digest verification
// ---------------------------------------------------------------------------

/// Accumulates a stream of chunks and, at the end, checks the byte count
/// and digest against the expectation before releasing the bytes.
///
/// The terminal check is the only way to obtain the bytes, so no caller
/// can read "verified" content for which the check did not run.
pub struct DigestVerifier {
    expected_size: u64,
    expected: ContentDigest,
    observed: Vec<u8>,
}

impl DigestVerifier {
    pub closed spec fn fed(&self) -> Seq<u8> {
        self.observed@
    }

    pub closed spec fn expected_size_spec(&self) -> u64 {
        self.expected_size
    }

    pub closed spec fn expected_spec(&self) -> &ContentDigest {
        &self.expected
    }

    pub fn new(size: u64, digest: ContentDigest) -> (r: DigestVerifier)
        ensures
            r.fed().len() == 0,
            r.expected_size_spec() == size,
            r.expected_spec().algorithm == digest.algorithm,
            r.expected_spec().digest@ == digest.digest@,
    {
        DigestVerifier { expected_size: size, expected: digest, observed: Vec::new() }
    }

    /// Feed the next chunk of the stream.
    pub fn update(&mut self, chunk: &Vec<u8>)
        ensures
            final(self).fed() == old(self).fed() + chunk@,
            final(self).expected_size_spec() == old(self).expected_size_spec(),
            final(self).expected_spec() == old(self).expected_spec(),
    {
        let n = chunk.len();
        let mut i: usize = 0;
        while i < n
            invariant
                n == chunk@.len(),
                0 <= i <= n,
                self.observed@ == old(self).observed@ + chunk@.subrange(0, i as int),
                self.expected_size == old(self).expected_size,
                self.expected == old(self).expected,
            decreases n - i,
        {
            self.observed.push(chunk[i]);
            proof {
                assert(old(self).observed@ + chunk@.subrange(0, i + 1) =~= (old(self).observed@
                    + chunk@.subrange(0, i as int)).push(chunk@[i as int]));
            }
            i += 1;
        }
        proof {
            assert(chunk@.subrange(0, n as int) =~= chunk@);
        }
    }

    /// Run the terminal check: the bytes come back exactly when their
    /// count equals the expected size and their digest matches.
    pub fn finish(self, path: &str) -> (r: Result<Vec<u8>, DebianError>)
        ensures
            r is Ok <==> (self.fed().len() == self.expected_size_spec() && digest_of(
                self.expected_spec().algorithm,
                self.fed(),
            ) == self.expected_spec().digest@),
            r matches Ok(b) ==> b@ == self.fed(),
            r matches Err(e) ==> (e matches DebianError::IntegrityMismatch {
                path: p,
                expected,
                actual,
            } && p@ == path@ && (if self.fed().len() != self.expected_size_spec() {
                expected@ == dec_str(self.expected_size_spec() as int) && actual@ == dec_str(
                    self.fed().len() as int,
                )
            } else {
                expected@ == hex_encode_spec(self.expected_spec().digest@) && actual@
                    == hex_encode_spec(digest_of(self.expected_spec().algorithm, self.fed()))
            })),
    {
        let count = self.observed.len() as u64;
        if count != self.expected_size {
            return Err(DebianError::IntegrityMismatch {
                path: String::from_str(path),
                expected: u64_to_dec(self.expected_size),
                actual: u64_to_dec(count),
            });
        }
        let actual_digest = compute_digest(self.expected.algorithm, &self.observed);
        if !bytes_eq(&actual_digest, &self.expected.digest) {
            return Err(DebianError::IntegrityMismatch {
                path: String::from_str(path),
                expected: hex_encode(&self.expected.digest),
                actual: hex_encode(&actual_digest),
            });
        }
        Ok(self.observed)
    }
}

/// Check `data` against an expected size and digest; the bytes come back
/// exactly when both match.
pub fn verify_content(data: Vec<u8>, path: &str, size: u64, digest: &ContentDigest) -> (r: Result<
    Vec<u8>,
    DebianError,
>)
    ensures
        r is Ok <==> (data@.len() == size && digest_of(digest.algorithm, data@) == digest.digest@),
        r matches Ok(b) ==> b@ == data@,
        r matches Err(e) ==> (e matches DebianError::IntegrityMismatch {
            path: p,
            expected,
            actual,
        } && p@ == path@ && (if data@.len() != size {
            expected@ == dec_str(size as int) && actual@ == dec_str(data@.len() as int)
        } else {
            expected@ == hex_encode_spec(digest.digest@) && actual@ == hex_encode_spec(
                digest_of(digest.algorithm, data@),
            )
        })),
{
    let mut verifier = DigestVerifier::new(size, digest.duplicate());
    verifier.update(&data);
    proof {
        assert(Seq::<u8>::empty() + data@ =~= data@);
    }
    verifier.finish(path)
}

// ---------------------------------------------------------------------------
// Verified fetches
// ---------------------------------------------------------------------------

/// Fetch a blob and verify its size and digest end to end: bytes come
/// back only when they match the expectation.
pub fn get_path_with_digest_verification<R: DataResolver + ?Sized>(
    resolver: &R,
    path: &str,
    size: u64,
    digest: &ContentDigest,
) -> (r: Result<Vec<u8>, DebianError>)
    ensures
        r matches Ok(b) ==> b@.len() == size && digest_of(digest.algorithm, b@) == digest.digest@,
{
    let data = resolver.get_path(path)?;
    verify_content(data, path, size, digest)
}

/// Fetch a blob, verify size and digest over the wire bytes, then decode
/// it under the given compression format.
pub fn get_path_decoded_with_digest_verification<R: DataResolver + ?Sized>(
    resolver: &R,
    path: &str,
    compression: Compression,
    size: u64,
    digest: &ContentDigest,
) -> (r: Result<Vec<u8>, DebianError>)
    ensures
        r matches Ok(b) ==> exists|raw: Seq<u8>|
            #![auto]
            raw.len() == size && digest_of(digest.algorithm, raw) == digest.digest@
                && decompress_spec(compression, raw) == Some(b@),
{
    let raw = get_path_with_digest_verification(resolver, path, size, digest)?;
    match decompress(compression, &raw) {
        Some(out) => {
            proof {
                let w = raw@;
                assert(w.len() == size && digest_of(digest.algorithm, w) == digest.digest@
                    && decompress_spec(compression, w) == Some(out@));
            }
            Ok(out)
        },
        None => Err(DebianError::IoPath(String::from_str(path), IoErrorKind::Other)),
    }
}

// ---------------------------------------------------------------------------
// An in-memory backend
// ---------------------------------------------------------------------------

/// One blob of an in-memory repository.
#[derive(Clone, Debug)]
pub struct MemoryEntry {
    pub path: String,
    pub data: Vec<u8>,
}

/// The bytes stored under `path`, scanning from the front.
pub open spec fn lookup_bytes(entries: Seq<MemoryEntry>, path: Seq<char>) -> Option<Seq<u8>>
    decreases entries.len(),
{
    if entries.len() == 0 {
        None
    } else if entries[0].path@ == path {
        Some(entries[0].data@)
    } else {
        lookup_bytes(entries.subrange(1, entries.len() as int), path)
    }
}

/// A repository held in memory: a list of path-keyed blobs.
#[derive(Clone, Debug)]
pub struct MemoryRepositoryReader {
    pub entries: Vec<MemoryEntry>,
}

impl MemoryRepositoryReader {
    pub fn new() -> (r: MemoryRepositoryReader)
        ensures
            r.entries@.len() == 0,
    {
        MemoryRepositoryReader { entries: Vec::new() }
    }

    /// Store a blob under a path.
    pub fn add(&mut self, path: String, data: Vec<u8>)
        ensures
            final(self).entries@ == old(self).entries@.push(
                MemoryEntry { path: path, data: data },
            ),
    {
        self.entries.push(MemoryEntry { path, data });
    }
}

/// A resolver that prefixes every path with a directory before handing
/// it to an inner resolver: how a release reader, whose index paths are
/// relative to `dists/{distribution}`, resolves through a repository
/// root backend.
pub struct PrefixedResolver<'a, R: DataResolver> {
    inner: &'a R,
    prefix: String,
}

impl<'a, R: DataResolver> PrefixedResolver<'a, R> {
    /// Resolve paths under `prefix` (given without a trailing slash)
    /// through `inner`.
    pub fn new(inner: &'a R, prefix: String) -> PrefixedResolver<'a, R> {
        PrefixedResolver { inner, prefix }
    }
}

impl<'a, R: DataResolver> DataResolver for PrefixedResolver<'a, R> {
    fn get_path(&self, path: &str) -> Result<Vec<u8>, DebianError> {
        let full = self.prefix.clone().concat("/").concat(path);
        self.inner.get_path(full.as_str())
    }
}

impl DataResolver for MemoryRepositoryReader {
    /// The stored bytes, or `IoPath(path, NotFound)` when absent.
    fn get_path(&self, path: &str) -> (r: Result<Vec<u8>, DebianError>)
        ensures
            r is Ok <==> lookup_bytes(self.entries@, path@) is Some,
            r matches Ok(b) ==> b@ == lookup_bytes(self.entries@, path@).unwrap(),
            r matches Err(e) ==> (e matches DebianError::IoPath(p, k) && p@ == path@ && k
                == IoErrorKind::NotFound),
    {
        let ghost s = self.entries@;
        let n = self.entries.len();
        let mut i: usize = 0;
        proof {
            assert(s.subrange(0, n as int) =~= s);
        }
        while i < n
            invariant
                n == self.entries@.len(),
                s == self.entries@,
                0 <= i <= n,
                lookup_bytes(s.subrange(i as int, n as int), path@) == lookup_bytes(s, path@),
            decreases n - i,
        {
            let ghost rem = s.subrange(i as int, n as int);
            proof {
                assert(rem[0] == s[i as int]);
                assert(rem.subrange(1, rem.len() as int) =~= s.subrange(i + 1, n as int));
            }
            if str_eq(self.entries[i].path.as_str(), path) {
                return Ok(clone_bytes(&self.entries[i].data));
            }
            i += 1;
        }
        proof {
            assert(s.subrange(n as int, n as int) =~= Seq::<MemoryEntry>::empty());
        }
        Err(DebianError::IoPath(String::from_str(path), IoErrorKind::NotFound))
    }
}

} // verus!
