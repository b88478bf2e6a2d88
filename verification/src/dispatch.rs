//! Turning a user-supplied string into the matching reader or writer
//! backend.

use vstd::prelude::*;
use vstd::string::*;
use crate::error::DebianError;
use crate::publish::{parse_sink_verify_behavior, SinkWriterVerifyBehavior};
use crate::strutil::{
    contains_spec, contains_substr, find_char, first_index_or, str_eq, substr_copy, trim_char,
    trim_char_spec,
};

verus! {

// ---------------------------------------------------------------------------
// URL parsing (relies on the url crate)
// ---------------------------------------------------------------------------

/// The parts of a parsed URL that dispatching reads.
#[derive(Clone, Debug)]
pub struct UrlParts {
    /// The normalized (lowercase) scheme.
    pub scheme: String,
    pub host: Option<String>,
    pub path: String,
}

pub uninterp spec fn url_parts_spec(s: Seq<char>) -> Option<
    (Seq<char>, Option<Seq<char>>, Seq<char>),
>;

/// Relies on url::Url::parse and its scheme, host_str and path
/// accessors: parsing succeeds or fails as a function of the string
/// alone, and yields its normalized scheme, host and path.
#[verifier::external_body]
fn parse_url(s: &str) -> (r: Option<UrlParts>)
    ensures
        r is Some <==> url_parts_spec(s@) is Some,
        r matches Some(u) ==> {
            let m = url_parts_spec(s@).unwrap();
            &&& u.scheme@ == m.0
            &&& (u.host is Some <==> m.1 is Some)
            &&& (u.host matches Some(h) ==> h@ == m.1.unwrap())
            &&& u.path@ == m.2
        },
{
    match url::Url::parse(s) {
        Ok(u) => Some(
            UrlParts {
                scheme: u.scheme().to_string(),
                host: u.host_str().map(|h| h.to_string()),
                path: u.path().to_string(),
            },
        ),
        Err(_) => None,
    }
}

// ---------------------------------------------------------------------------
// Reader dispatch
// ---------------------------------------------------------------------------

/// The reader backend a string names.
#[derive(Clone, Debug)]
pub enum ReaderBackend {
    /// A filesystem reader rooted at a local path. For a `file://` URL
    /// this is the URL's path component.
    Filesystem { root: String },
    /// An HTTP(S) reader for the URL as given.
    Http { url: String },
}

/// Pick the reader backend for a string.
///
/// A string without `://` names a filesystem root as it stands. A URL
/// is dispatched on its scheme: `file` to the filesystem, `http` and
/// `https` to HTTP; any other scheme is rejected.
pub fn reader_from_str(s: &str) -> (r: Result<ReaderBackend, DebianError>)
    ensures
        !contains_spec(s@, "://"@) ==> (r matches Ok(ReaderBackend::Filesystem { root }) && root@
            == s@),
        contains_spec(s@, "://"@) ==> match url_parts_spec(s@) {
            None => r matches Err(DebianError::Url(m)) && m@ == s@,
            Some(m) => {
                if m.0 == "file"@ {
                    r matches Ok(ReaderBackend::Filesystem { root }) && root@ == m.2
                } else if m.0 == "http"@ || m.0 == "https"@ {
                    r matches Ok(ReaderBackend::Http { url }) && url@ == s@
                } else {
                    r matches Err(DebianError::ReaderUnrecognizedUrl(u)) && u@ == s@
                }
            },
        },
{
    proof {
        reveal_strlit("://");
        reveal_strlit("file");
        reveal_strlit("http");
        reveal_strlit("https");
    }
    if !contains_substr(s, "://") {
        return Ok(ReaderBackend::Filesystem { root: String::from_str(s) });
    }
    match parse_url(s) {
        None => Err(DebianError::Url(String::from_str(s))),
        Some(u) => {
            if str_eq(u.scheme.as_str(), "file") {
                Ok(ReaderBackend::Filesystem { root: u.path })
            } else if str_eq(u.scheme.as_str(), "http") || str_eq(u.scheme.as_str(), "https") {
                Ok(ReaderBackend::Http { url: String::from_str(s) })
            } else {
                Err(DebianError::ReaderUnrecognizedUrl(String::from_str(s)))
            }
        },
    }
}

// ---------------------------------------------------------------------------
// Writer dispatch
// ---------------------------------------------------------------------------

/// The writer backend a string names.
#[derive(Clone, Debug)]
pub enum WriterBackend {
    /// A filesystem writer rooted at a local path.
    Filesystem { root: String },
    /// A discarding writer whose verify behavior the URL host encodes.
    Null { behavior: SinkWriterVerifyBehavior },
    /// An S3 writer for a bucket, optionally under a key prefix.
    S3 { bucket: String, prefix: Option<String> },
}

/// Pick the writer backend for a string.
///
/// A string without `://` names a filesystem root. A URL is dispatched
/// on its scheme: `file` to the filesystem; `null` to the sink writer,
/// whose verify behavior the host names (`missing` when absent); `s3`
/// splits the surrounding-slash-trimmed path on its first `/` into
/// bucket and prefix, and a path with no inner `/` is the bucket as
/// given. Any other scheme is rejected.
pub fn writer_from_str(s: &str) -> (r: Result<WriterBackend, DebianError>)
    ensures
        !contains_spec(s@, "://"@) ==> (r matches Ok(WriterBackend::Filesystem { root }) && root@
            == s@),
        contains_spec(s@, "://"@) ==> match url_parts_spec(s@) {
            None => r matches Err(DebianError::Url(m)) && m@ == s@,
            Some(m) => {
                if m.0 == "file"@ {
                    r matches Ok(WriterBackend::Filesystem { root }) && root@ == m.2
                } else if m.0 == "null"@ {
                    match m.1 {
                        None => r matches Ok(WriterBackend::Null { behavior }) && behavior
                            == SinkWriterVerifyBehavior::Missing,
                        Some(h) => {
                            if h == "missing"@ || h == "exists-no-integrity-check"@ || h
                                == "exists-integrity-verified"@ || h
                                == "exists-integrity-mismatch"@ {
                                r matches Ok(WriterBackend::Null { behavior })
                                    && behavior_name_spec(behavior) == h
                            } else {
                                r matches Err(DebianError::SinkWriterVerifyBehaviorUnknown(b))
                                    && b@ == h
                            }
                        },
                    }
                } else if m.0 == "s3"@ {
                    let trimmed = trim_char_spec(m.2, '/');
                    let cut = first_index_or(trimmed, '/');
                    if cut < trimmed.len() {
                        r matches Ok(WriterBackend::S3 { bucket, prefix }) && bucket@
                            == trimmed.subrange(0, cut) && (prefix matches Some(p) && p@
                            == trimmed.subrange(cut + 1, trimmed.len() as int))
                    } else {
                        r matches Ok(WriterBackend::S3 { bucket, prefix }) && bucket@ == m.2
                            && prefix is None
                    }
                } else {
                    r matches Err(DebianError::WriterUnrecognizedUrl(u)) && u@ == s@
                }
            },
        },
{
    proof {
        reveal_strlit("://");
        reveal_strlit("file");
        reveal_strlit("null");
        reveal_strlit("s3");
    }
    if !contains_substr(s, "://") {
        return Ok(WriterBackend::Filesystem { root: String::from_str(s) });
    }
    match parse_url(s) {
        None => Err(DebianError::Url(String::from_str(s))),
        Some(u) => {
            if str_eq(u.scheme.as_str(), "file") {
                Ok(WriterBackend::Filesystem { root: u.path })
            } else if str_eq(u.scheme.as_str(), "null") {
                match &u.host {
                    None => Ok(WriterBackend::Null {
                        behavior: SinkWriterVerifyBehavior::Missing,
                    }),
                    Some(h) => {
                        let behavior = parse_sink_verify_behavior(h.as_str())?;
                        Ok(WriterBackend::Null { behavior })
                    },
                }
            } else if str_eq(u.scheme.as_str(), "s3") {
                let trimmed = trim_char(u.path.as_str(), '/');
                let tn = trimmed.as_str().unicode_len();
                let cut = find_char(trimmed.as_str(), '/');
                if cut < tn {
                    let bucket = substr_copy(trimmed.as_str(), 0, cut);
                    let prefix = substr_copy(trimmed.as_str(), cut + 1, tn);
                    Ok(WriterBackend::S3 { bucket, prefix: Some(prefix) })
                } else {
                    Ok(WriterBackend::S3 { bucket: u.path, prefix: None })
                }
            } else {
                Err(DebianError::WriterUnrecognizedUrl(String::from_str(s)))
            }
        },
    }
}

/// The URL host naming each sink verify behavior.
pub open spec fn behavior_name_spec(b: SinkWriterVerifyBehavior) -> Seq<char> {
    match b {
        SinkWriterVerifyBehavior::Missing => "missing"@,
        SinkWriterVerifyBehavior::ExistsNoIntegrityCheck => "exists-no-integrity-check"@,
        SinkWriterVerifyBehavior::ExistsIntegrityVerified => "exists-integrity-verified"@,
        SinkWriterVerifyBehavior::ExistsIntegrityMismatch => "exists-integrity-mismatch"@,
    }
}

} // verus!
