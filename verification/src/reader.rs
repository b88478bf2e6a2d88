//! Reading a repository: the root reader bound to the repository root,
//! and the release reader bound to one distribution's parsed Release.

use vstd::prelude::*;
use vstd::string::*;
use crate::checksum::{digest_len_spec, hex_decode_spec, ChecksumType, ContentDigest};
use crate::compression::Compression;
use crate::control::{lookup_field, parse_control_spec, ControlField, ControlParagraph};
use crate::error::{DebianError, IoErrorKind};
use crate::io::{
    bytes_to_string, get_path_decoded_with_digest_verification, get_path_with_digest_verification,
    DataResolver,
};
use crate::release::{
    by_hash_path_spec, classify_entry, packages_class_spec,
    sources_class_spec, table_spec, ClassifiedReleaseFileEntry, ContentsFileEntry,
    PackagesFileEntry, ReleaseFile, ReleaseFileEntry, SourcesFileEntry,
};
use crate::strutil::{
    all_dec_digits, dec_val, split_char, split_spec, str_eq, tokenize_ws, tokens_spec, trim_char,
    trim_char_spec,
};

verus! {

// ---------------------------------------------------------------------------
// Package control files and fetch descriptors
// ---------------------------------------------------------------------------

/// A binary package paragraph from a `Packages` index.
#[derive(Clone, Debug)]
pub struct BinaryPackageControlFile {
    pub paragraph: ControlParagraph,
}

impl View for BinaryPackageControlFile {
    type V = Seq<(Seq<char>, Seq<char>)>;

    open spec fn view(&self) -> Seq<(Seq<char>, Seq<char>)> {
        self.paragraph@
    }
}

/// A source package paragraph from a `Sources` index.
#[derive(Clone, Debug)]
pub struct DebianSourceControlFile {
    pub paragraph: ControlParagraph,
}

impl View for DebianSourceControlFile {
    type V = Seq<(Seq<char>, Seq<char>)>;

    open spec fn view(&self) -> Seq<(Seq<char>, Seq<char>)> {
        self.paragraph@
    }
}

/// How to fetch a binary package from the pool: the path, and the size
/// and digest that must verify end to end.
#[derive(Clone, Debug)]
pub struct BinaryPackageFetch {
    /// The binary package control paragraph from which this fetch came.
    pub control_file: BinaryPackageControlFile,
    /// Pool-relative path, from the `Filename` field.
    pub path: String,
    /// Expected byte count, from the `Size` field.
    pub size: u64,
    /// Expected digest, from the strongest digest field present.
    pub digest: ContentDigest,
}

/// One file of a source package, as named by its checksums table.
#[derive(Clone, Debug)]
pub struct DebianSourceControlFileFetch {
    /// Pool-relative path: the package's `Directory` plus the file name.
    pub path: String,
    pub size: u64,
    pub digest: ContentDigest,
}

/// How to fetch one file of a source package.
#[derive(Clone, Debug)]
pub struct SourcePackageFetch {
    /// The source package paragraph from which this fetch came.
    pub control_file: DebianSourceControlFile,
    /// Fetch instruction for one file of the package.
    pub fetch: DebianSourceControlFileFetch,
}

/// The strongest digest field present in a package paragraph, walking
/// `SHA256`, `SHA1`, `MD5sum` in that order.
pub open spec fn pkg_digest_choice(p: Seq<(Seq<char>, Seq<char>)>) -> Option<
    (ChecksumType, Seq<char>),
> {
    if lookup_field(p, "SHA256"@) is Some {
        Some((ChecksumType::Sha256, lookup_field(p, "SHA256"@).unwrap()))
    } else if lookup_field(p, "SHA1"@) is Some {
        Some((ChecksumType::Sha1, lookup_field(p, "SHA1"@).unwrap()))
    } else if lookup_field(p, "MD5sum"@) is Some {
        Some((ChecksumType::Md5, lookup_field(p, "MD5sum"@).unwrap()))
    } else {
        None
    }
}

/// Turn a binary package paragraph into its fetch descriptor.
///
/// Requires `Filename`, a decimal `Size`, and at least one digest field
/// whose value is well-formed hex of the right width; each failure is
/// reported by its own error.
pub fn binary_package_fetch(cf: BinaryPackageControlFile) -> (r: Result<
    BinaryPackageFetch,
    DebianError,
>)
    ensures
        r is Ok <==> {
            &&& lookup_field(cf@, "Filename"@) is Some
            &&& lookup_field(cf@, "Size"@) matches Some(sv) && sv.len() >= 1 && all_dec_digits(sv)
                && dec_val(sv) <= u64::MAX
            &&& pkg_digest_choice(cf@) matches Some(ch) && hex_decode_spec(ch.1) is Some
                && hex_decode_spec(ch.1).unwrap().len() == digest_len_spec(ch.0)
        },
        r matches Ok(f) ==> {
            &&& f.control_file@ == cf@
            &&& f.path@ == lookup_field(cf@, "Filename"@).unwrap()
            &&& f.size as int == dec_val(lookup_field(cf@, "Size"@).unwrap())
            &&& f.digest.algorithm == pkg_digest_choice(cf@).unwrap().0
            &&& f.digest.digest@ == hex_decode_spec(pkg_digest_choice(cf@).unwrap().1).unwrap()
            &&& f.digest.wf()
        },
        r matches Err(e) ==> {
            if lookup_field(cf@, "Filename"@) is None {
                e matches DebianError::ControlRequiredFieldMissing(n) && n@ == "Filename"@
            } else if lookup_field(cf@, "Size"@) is None {
                e matches DebianError::ControlRequiredFieldMissing(n) && n@ == "Size"@
            } else if !(lookup_field(cf@, "Size"@) matches Some(sv) && sv.len() >= 1
                && all_dec_digits(sv) && dec_val(sv) <= u64::MAX) {
                e matches DebianError::ControlFieldIntParse(n) && n@ == "Size"@
            } else if pkg_digest_choice(cf@) is None {
                e matches DebianError::CouldNotDeterminePackageDigest
            } else {
                e matches DebianError::BadHex(_)
            }
        },
{
    proof {
        reveal_strlit("Filename");
        reveal_strlit("Size");
        reveal_strlit("SHA256");
        reveal_strlit("SHA1");
        reveal_strlit("MD5sum");
    }
    let path = cf.paragraph.required_field("Filename")?;
    let size = match cf.paragraph.field_u64("Size") {
        Some(inner) => inner?,
        None => {
            return Err(DebianError::ControlRequiredFieldMissing(String::from_str("Size")));
        },
    };
    let choice: (ChecksumType, String) = if let Some(v) = cf.paragraph.field("SHA256") {
        (ChecksumType::Sha256, v)
    } else if let Some(v) = cf.paragraph.field("SHA1") {
        (ChecksumType::Sha1, v)
    } else if let Some(v) = cf.paragraph.field("MD5sum") {
        (ChecksumType::Md5, v)
    } else {
        return Err(DebianError::CouldNotDeterminePackageDigest);
    };
    let digest = ContentDigest::from_hex_digest(choice.0, choice.1.as_str())?;
    Ok(BinaryPackageFetch { control_file: cf, path, size, digest })
}

// ---------------------------------------------------------------------------
// The root reader
// ---------------------------------------------------------------------------

/// `rf` is the parse of the UTF-8 bytes `raw` as an unsigned `Release`
/// file: one control paragraph, no signature retained.
pub open spec fn plain_release_of(rf: &ReleaseFile, raw: Seq<u8>) -> bool {
    let text = vstd::utf8::decode_utf8(raw);
    &&& vstd::utf8::valid_utf8(raw)
    &&& parse_control_spec(text) is Some
    &&& parse_control_spec(text).unwrap().len() == 1
    &&& rf.paragraph@ == parse_control_spec(text).unwrap()[0]
}

/// `rf` is the parse of the UTF-8 bytes `raw` as a cleartext-signed
/// `InRelease` file: one paragraph from the armored message, with the
/// signature block retained.
pub open spec fn armored_release_of(rf: &ReleaseFile, raw: Seq<u8>) -> bool {
    let payload = crate::release::armored_payload(vstd::utf8::decode_utf8(raw));
    &&& vstd::utf8::valid_utf8(raw)
    &&& payload is Some
    &&& parse_control_spec(payload.unwrap().0) is Some
    &&& parse_control_spec(payload.unwrap().0).unwrap().len() == 1
    &&& rf.paragraph@ == parse_control_spec(payload.unwrap().0).unwrap()[0]
    &&& rf.signature matches Some(sig) && sig@ == payload.unwrap().1
}

/// A reader bound to the root of a repository. It fetches and parses
/// `[In]Release` files and executes pool fetches with digest
/// verification, all through a pluggable [`DataResolver`] backend.
pub struct RepositoryRootReader<R: DataResolver> {
    resolver: R,
}

impl<R: DataResolver> RepositoryRootReader<R> {
    pub fn new(resolver: R) -> RepositoryRootReader<R> {
        RepositoryRootReader { resolver }
    }

    /// The underlying blob backend.
    pub fn resolver(&self) -> &R {
        &self.resolver
    }

    /// Fetch and parse an unsigned `Release` file at a relative path:
    /// the result is the one paragraph of whatever UTF-8 text the
    /// backend returned.
    pub fn fetch_release(&self, path: &str) -> (r: Result<ReleaseFile, DebianError>)
        ensures
            r matches Ok(rf) ==> rf.signature is None && exists|raw: Seq<u8>|
                #[trigger] plain_release_of(&rf, raw),
    {
        let data = self.resolver.get_path(path)?;
        let ghost dv = data@;
        let text = bytes_to_string(data)?;
        let r = ReleaseFile::from_string(text.as_str());
        proof {
            if r is Ok {
                assert(plain_release_of(&r.unwrap(), dv));
            }
        }
        r
    }

    /// Fetch and parse a cleartext-signed `InRelease` file at a relative
    /// path: the result is the one paragraph of the armored message of
    /// whatever UTF-8 text the backend returned, with the signature
    /// block retained.
    pub fn fetch_inrelease(&self, path: &str) -> (r: Result<ReleaseFile, DebianError>)
        ensures
            r matches Ok(rf) ==> rf.signature is Some && exists|raw: Seq<u8>|
                #[trigger] armored_release_of(&rf, raw),
    {
        let data = self.resolver.get_path(path)?;
        let ghost dv = data@;
        let text = bytes_to_string(data)?;
        let r = ReleaseFile::from_armored_string(text.as_str());
        proof {
            if r is Ok {
                assert(armored_release_of(&r.unwrap(), dv));
            }
        }
        r
    }

    /// Try `InRelease` first; fall back to `Release` exactly when the
    /// `InRelease` fetch failed with a `NotFound` transport error. Any
    /// other failure surfaces immediately. A success is therefore
    /// either a parsed signed `InRelease` or a parsed plain `Release`.
    pub fn fetch_inrelease_or_release(&self, inrelease_path: &str, release_path: &str) -> (r:
        Result<ReleaseFile, DebianError>)
        ensures
            r matches Ok(rf) ==> ((rf.signature is Some && exists|raw: Seq<u8>|
                #[trigger] armored_release_of(&rf, raw)) || (rf.signature is None && exists|
                raw: Seq<u8>,
            | #[trigger] plain_release_of(&rf, raw))),
    {
        match self.fetch_inrelease(inrelease_path) {
            Ok(rf) => Ok(rf),
            Err(DebianError::IoPath(_, IoErrorKind::NotFound)) => self.fetch_release(
                release_path,
            ),
            Err(e) => Err(e),
        }
    }

    /// Obtain a [`ReleaseReader`] for `dists/{distribution}`, with
    /// surrounding slashes of the distribution stripped.
    pub fn release_reader(&self, distribution: &str) -> (r: Result<ReleaseReader, DebianError>)
        ensures
            r matches Ok(rr) ==> rr.root_relative_path@ == "dists/"@ + trim_char_spec(
                distribution@,
                '/',
            ) && rr.preferred_compression == Compression::Xz,
    {
        let trimmed = trim_char(distribution, '/');
        let path = String::from_str("dists/").concat(trimmed.as_str());
        self.release_reader_with_distribution_path(path.as_str())
    }

    /// Obtain a [`ReleaseReader`] for an explicit distribution path,
    /// which must carry no leading or trailing slash.
    pub fn release_reader_with_distribution_path(&self, path: &str) -> (r: Result<
        ReleaseReader,
        DebianError,
    >)
        ensures
            r matches Ok(rr) ==> rr.root_relative_path@ == path@ && rr.preferred_compression
                == Compression::Xz,
    {
        let inrelease_path = String::from_str(path).concat("/InRelease");
        let release_path = String::from_str(path).concat("/Release");
        let release = self.fetch_inrelease_or_release(
            inrelease_path.as_str(),
            release_path.as_str(),
        )?;
        Ok(ReleaseReader {
            root_relative_path: String::from_str(path),
            release,
            preferred_compression: Compression::Xz,
        })
    }

    /// Fetch a binary package with end-to-end digest verification.
    pub fn fetch_binary_package_generic(&self, fetch: &BinaryPackageFetch) -> (r: Result<
        Vec<u8>,
        DebianError,
    >)
        ensures
            r matches Ok(b) ==> b@.len() == fetch.size && crate::checksum::digest_of(
                fetch.digest.algorithm,
                b@,
            ) == fetch.digest.digest@,
    {
        get_path_with_digest_verification(
            &self.resolver,
            fetch.path.as_str(),
            fetch.size,
            &fetch.digest,
        )
    }

    /// Fetch one file of a source package with end-to-end digest
    /// verification.
    pub fn fetch_source_package_generic(&self, fetch: &SourcePackageFetch) -> (r: Result<
        Vec<u8>,
        DebianError,
    >)
        ensures
            r matches Ok(b) ==> b@.len() == fetch.fetch.size && crate::checksum::digest_of(
                fetch.fetch.digest.algorithm,
                b@,
            ) == fetch.fetch.digest.digest@,
    {
        get_path_with_digest_verification(
            &self.resolver,
            fetch.fetch.path.as_str(),
            fetch.fetch.size,
            &fetch.fetch.digest,
        )
    }
}

// ---------------------------------------------------------------------------
// The release reader
// ---------------------------------------------------------------------------

/// A reader bound to one distribution's parsed `[In]Release` file.
///
/// The preferred compression format is its only mutable state. Methods
/// that perform I/O take the backend as an explicit argument.
pub struct ReleaseReader {
    /// Path of the distribution relative to the repository root, with no
    /// leading or trailing slash.
    pub root_relative_path: String,
    pub release: ReleaseFile,
    pub preferred_compression: Compression,
}

/// The checksum flavor a Release file selects: the strongest of its
/// populated tables.
pub open spec fn selected_checksum(p: Seq<(Seq<char>, Seq<char>)>) -> Option<ChecksumType> {
    if lookup_field(p, "SHA256"@) is Some {
        Some(ChecksumType::Sha256)
    } else if lookup_field(p, "SHA1"@) is Some {
        Some(ChecksumType::Sha1)
    } else if lookup_field(p, "MD5Sum"@) is Some {
        Some(ChecksumType::Md5)
    } else {
        None
    }
}

impl ReleaseReader {
    /// The parsed Release file this reader is bound to.
    pub fn release_file(&self) -> (r: &ReleaseFile)
        ensures
            r == &self.release,
    {
        &self.release
    }

    /// The distribution path relative to the repository root.
    pub fn root_relative_path(&self) -> (r: &str)
        ensures
            r@ == self.root_relative_path@,
    {
        self.root_relative_path.as_str()
    }

    /// The compression format preferred for index fetches.
    pub fn preferred_compression(&self) -> (r: Compression)
        ensures
            r == self.preferred_compression,
    {
        self.preferred_compression
    }

    /// Set the compression format preferred for index fetches.
    pub fn set_preferred_compression(&mut self, compression: Compression)
        ensures
            final(self).preferred_compression == compression,
            final(self).release == old(self).release,
            final(self).root_relative_path == old(self).root_relative_path,
    {
        self.preferred_compression = compression;
    }

    /// The checksum flavor used to authenticate index files: the
    /// strongest of `SHA256`, `SHA1`, `MD5Sum` whose table is present.
    pub fn retrieve_checksum(&self) -> (r: Result<ChecksumType, DebianError>)
        ensures
            r is Ok <==> selected_checksum(self.release.paragraph@) is Some,
            r matches Ok(t) ==> Some(t) == selected_checksum(self.release.paragraph@),
            r matches Err(e) ==> e matches DebianError::NoKnownChecksum,
    {
        proof {
            reveal_strlit("SHA256");
            reveal_strlit("SHA1");
            reveal_strlit("MD5Sum");
        }
        if self.release.field("SHA256").is_some() {
            Ok(ChecksumType::Sha256)
        } else if self.release.field("SHA1").is_some() {
            Ok(ChecksumType::Sha1)
        } else if self.release.field("MD5Sum").is_some() {
            Ok(ChecksumType::Md5)
        } else {
            Err(DebianError::NoKnownChecksum)
        }
    }

    /// The path actually fetched for an index entry: the `by-hash` form
    /// exactly when the Release file says `Acquire-By-Hash: yes`, the
    /// nominal path otherwise.
    pub fn index_fetch_path(&self, entry: &ReleaseFileEntry) -> (r: String)
        ensures
            acquire_by_hash_spec(self.release.paragraph@) ==> r@ == by_hash_path_spec(
                entry.path@,
                entry.digest.algorithm,
                entry.digest.digest@,
            ),
            !acquire_by_hash_spec(self.release.paragraph@) ==> r@ == entry.path@,
    {
        proof {
            reveal_strlit("Acquire-By-Hash");
            reveal_strlit("yes");
        }
        match self.release.acquire_by_hash() {
            Some(true) => entry.by_hash_path(),
            _ => entry.path.clone(),
        }
    }
}

/// Whether the Release file routes index fetches through `by-hash`.
pub open spec fn acquire_by_hash_spec(p: Seq<(Seq<char>, Seq<char>)>) -> bool {
    lookup_field(p, "Acquire-By-Hash"@) matches Some(v) && v == "yes"@
}

// ---------------------------------------------------------------------------
// Models of classified index entries
// ---------------------------------------------------------------------------

/// Model of a checksum table row under its algorithm.
pub open spec fn rmodel(e: &ReleaseFileEntry) -> (Seq<char>, int, ChecksumType, Seq<u8>) {
    (e.path@, e.size as int, e.digest.algorithm, e.digest.digest@)
}

/// Model of a `Packages` index entry: its row and its role.
pub open spec fn pmodel(e: &PackagesFileEntry) -> (
    (Seq<char>, int, ChecksumType, Seq<u8>),
    (Seq<char>, Seq<char>, bool, Compression),
) {
    (rmodel(&e.entry), (e.component@, e.architecture@, e.is_installer, e.compression))
}

pub open spec fn pmodels(v: Seq<PackagesFileEntry>) -> Seq<
    ((Seq<char>, int, ChecksumType, Seq<u8>), (Seq<char>, Seq<char>, bool, Compression)),
> {
    Seq::new(v.len(), |i: int| pmodel(&v[i]))
}

/// The grouping key of a `Packages` entry.
pub open spec fn pkey_of(
    m: ((Seq<char>, int, ChecksumType, Seq<u8>), (Seq<char>, Seq<char>, bool, Compression)),
) -> (Seq<char>, Seq<char>, bool) {
    (m.1.0, m.1.1, m.1.2)
}

pub open spec fn pcomp_of(
    m: ((Seq<char>, int, ChecksumType, Seq<u8>), (Seq<char>, Seq<char>, bool, Compression)),
) -> Compression {
    m.1.3
}

// ---------------------------------------------------------------------------
// Preferred-compression collapse over Packages entries
// ---------------------------------------------------------------------------

/// The first entry with the given key and compression, scanning from
/// the front.
pub open spec fn p_first_with(
    s: Seq<((Seq<char>, int, ChecksumType, Seq<u8>), (Seq<char>, Seq<char>, bool, Compression))>,
    k: (Seq<char>, Seq<char>, bool),
    c: Compression,
) -> Option<((Seq<char>, int, ChecksumType, Seq<u8>), (Seq<char>, Seq<char>, bool, Compression))>
    decreases s.len(),
{
    if s.len() == 0 {
        None
    } else if pkey_of(s[0]) == k && pcomp_of(s[0]) == c {
        Some(s[0])
    } else {
        p_first_with(s.subrange(1, s.len() as int), k, c)
    }
}

pub proof fn lemma_p_first_with(
    s: Seq<((Seq<char>, int, ChecksumType, Seq<u8>), (Seq<char>, Seq<char>, bool, Compression))>,
    k: (Seq<char>, Seq<char>, bool),
    c: Compression,
)
    ensures
        p_first_with(s, k, c) is Some <==> exists|i: int|
            0 <= i < s.len() && pkey_of(#[trigger] s[i]) == k && pcomp_of(s[i]) == c,
        p_first_with(s, k, c) matches Some(m) ==> pkey_of(m) == k && pcomp_of(m) == c && exists|
            i: int,
        | 0 <= i < s.len() && #[trigger] s[i] == m,
    decreases s.len(),
{
    if s.len() > 0 {
        let t = s.subrange(1, s.len() as int);
        lemma_p_first_with(t, k, c);
        if !(pkey_of(s[0]) == k && pcomp_of(s[0]) == c) {
            if p_first_with(t, k, c) is Some {
                let m = p_first_with(t, k, c).unwrap();
                let i = choose|i: int| 0 <= i < t.len() && #[trigger] t[i] == m;
                assert(s[i + 1] == m);
            }
            if exists|i: int| 0 <= i < s.len() && pkey_of(#[trigger] s[i]) == k && pcomp_of(s[i])
                == c {
                let i = choose|i: int|
                    0 <= i < s.len() && pkey_of(#[trigger] s[i]) == k && pcomp_of(s[i]) == c;
                assert(i > 0);
                assert(pkey_of(t[i - 1]) == k && pcomp_of(t[i - 1]) == c);
            }
        } else {
            assert(pkey_of(s[0]) == k && pcomp_of(s[0]) == c);
        }
    }
}

/// The default compression fallback order as a sequence.
pub open spec fn default_order_seq() -> Seq<Compression> {
    seq![
        Compression::Xz,
        Compression::Bzip2,
        Compression::Gzip,
        Compression::Lzma,
        Compression::Plain,
        Compression::Zstd,
    ]
}

/// The first entry with key `k` whose compression is earliest in
/// `order`.
pub open spec fn p_fallback(
    s: Seq<((Seq<char>, int, ChecksumType, Seq<u8>), (Seq<char>, Seq<char>, bool, Compression))>,
    k: (Seq<char>, Seq<char>, bool),
    order: Seq<Compression>,
) -> Option<((Seq<char>, int, ChecksumType, Seq<u8>), (Seq<char>, Seq<char>, bool, Compression))>
    decreases order.len(),
{
    if order.len() == 0 {
        None
    } else {
        match p_first_with(s, k, order[0]) {
            Some(m) => Some(m),
            None => p_fallback(s, k, order.subrange(1, order.len() as int)),
        }
    }
}

/// The winning entry for key `k`: the first with the preferred
/// compression, else the first under the default fallback order.
pub open spec fn p_winner(
    s: Seq<((Seq<char>, int, ChecksumType, Seq<u8>), (Seq<char>, Seq<char>, bool, Compression))>,
    k: (Seq<char>, Seq<char>, bool),
    preferred: Compression,
) -> Option<((Seq<char>, int, ChecksumType, Seq<u8>), (Seq<char>, Seq<char>, bool, Compression))> {
    match p_first_with(s, k, preferred) {
        Some(m) => Some(m),
        None => p_fallback(s, k, default_order_seq()),
    }
}

/// Every entry the collapse emits for a key carries that key.
pub proof fn lemma_p_winner_key(
    s: Seq<((Seq<char>, int, ChecksumType, Seq<u8>), (Seq<char>, Seq<char>, bool, Compression))>,
    k: (Seq<char>, Seq<char>, bool),
    preferred: Compression,
)
    ensures
        p_winner(s, k, preferred) matches Some(m) ==> pkey_of(m) == k,
{
    lemma_p_first_with(s, k, preferred);
    lemma_p_fallback_key(s, k, default_order_seq());
}

proof fn lemma_p_fallback_key(
    s: Seq<((Seq<char>, int, ChecksumType, Seq<u8>), (Seq<char>, Seq<char>, bool, Compression))>,
    k: (Seq<char>, Seq<char>, bool),
    order: Seq<Compression>,
)
    ensures
        p_fallback(s, k, order) matches Some(m) ==> pkey_of(m) == k,
    decreases order.len(),
{
    if order.len() > 0 {
        lemma_p_first_with(s, k, order[0]);
        lemma_p_fallback_key(s, k, order.subrange(1, order.len() as int));
    }
}

/// When some entry for key `k` carries the preferred compression, the
/// collapse winner for `k` carries the preferred compression.
pub proof fn lemma_preferred_compression_winner(
    s: Seq<((Seq<char>, int, ChecksumType, Seq<u8>), (Seq<char>, Seq<char>, bool, Compression))>,
    k: (Seq<char>, Seq<char>, bool),
    preferred: Compression,
)
    requires
        exists|i: int|
            0 <= i < s.len() && pkey_of(#[trigger] s[i]) == k && pcomp_of(s[i]) == preferred,
    ensures
        p_winner(s, k, preferred) matches Some(m) && pkey_of(m) == k && pcomp_of(m) == preferred,
{
    lemma_p_first_with(s, k, preferred);
}

/// Whether a key occurs in a key list.
pub open spec fn key_in(keys: Seq<(Seq<char>, Seq<char>, bool)>, k: (Seq<char>, Seq<char>, bool))
    -> bool {
    exists|i: int| 0 <= i < keys.len() && #[trigger] keys[i] == k
}

/// The distinct keys of the entries, in first-appearance order.
pub open spec fn distinct_pkeys(
    s: Seq<((Seq<char>, int, ChecksumType, Seq<u8>), (Seq<char>, Seq<char>, bool, Compression))>,
) -> Seq<(Seq<char>, Seq<char>, bool)>
    decreases s.len(),
{
    if s.len() == 0 {
        Seq::empty()
    } else {
        let prior = distinct_pkeys(s.drop_last());
        if key_in(prior, pkey_of(s.last())) {
            prior
        } else {
            prior.push(pkey_of(s.last()))
        }
    }
}

// ---------------------------------------------------------------------------
// From the Release paragraph to classified rows
// ---------------------------------------------------------------------------

/// The rows of the checksum table that the Release file selects, or
/// `None` when no table is present or the selected table is malformed.
pub open spec fn release_rows(p: Seq<(Seq<char>, Seq<char>)>) -> Option<
    Seq<(Seq<char>, int, Seq<u8>)>,
> {
    match selected_checksum(p) {
        None => None,
        Some(t) => match lookup_field(p, crate::release::checksum_name_spec(t)) {
            Some(v) => table_spec(v, t),
            None => None,
        },
    }
}

/// A classified entry carries this row under this algorithm.
pub open spec fn row_entry_eq(
    e: &ReleaseFileEntry,
    row: (Seq<char>, int, Seq<u8>),
    t: ChecksumType,
) -> bool {
    e.path@ == row.0 && e.size as int == row.1 && e.digest.algorithm == t && e.digest.digest@
        == row.2
}

/// The classified form of a row: the right variant for the row's path
/// pattern, carrying the row itself and the parsed role.
pub open spec fn class_matches(
    c: &ClassifiedReleaseFileEntry,
    row: (Seq<char>, int, Seq<u8>),
    t: ChecksumType,
) -> bool {
    match c {
        ClassifiedReleaseFileEntry::Packages(p) => {
            &&& crate::release::classification_of(row.0) == 0
            &&& row_entry_eq(&p.entry, row, t)
            &&& Some((p.component@, p.architecture@, p.is_installer, p.compression))
                == packages_class_spec(row.0)
        },
        ClassifiedReleaseFileEntry::Sources(s) => {
            &&& crate::release::classification_of(row.0) == 1
            &&& row_entry_eq(&s.entry, row, t)
            &&& Some((s.component@, s.compression)) == sources_class_spec(row.0)
        },
        ClassifiedReleaseFileEntry::Contents(cc) => {
            &&& crate::release::classification_of(row.0) == 2
            &&& row_entry_eq(&cc.entry, row, t)
            &&& {
                let l = crate::release::contents_class_spec(row.0).unwrap();
                &&& crate::release::contents_class_spec(row.0) is Some
                &&& (cc.component is Some <==> l.0 is Some)
                &&& (cc.component matches Some(cv) ==> cv@ == l.0.unwrap())
                &&& cc.architecture@ == l.1
                &&& cc.is_installer == l.2
                &&& cc.compression == l.3
            }
        },
        ClassifiedReleaseFileEntry::Translation(tr) => {
            &&& crate::release::classification_of(row.0) == 3
            &&& row_entry_eq(&tr.entry, row, t)
            &&& Some((tr.component@, tr.language@, tr.compression))
                == crate::release::translation_class_spec(row.0)
        },
        ClassifiedReleaseFileEntry::DiffIndex(e) => {
            crate::release::classification_of(row.0) == 4 && row_entry_eq(&e, row, t)
        },
        ClassifiedReleaseFileEntry::Other(e) => {
            crate::release::classification_of(row.0) == 5 && row_entry_eq(&e, row, t)
        },
    }
}

/// The `Packages` entries among the rows, in order, with their roles.
pub open spec fn packages_rows(rows: Seq<(Seq<char>, int, Seq<u8>)>, t: ChecksumType) -> Seq<
    ((Seq<char>, int, ChecksumType, Seq<u8>), (Seq<char>, Seq<char>, bool, Compression)),
>
    decreases rows.len(),
{
    if rows.len() == 0 {
        Seq::empty()
    } else {
        let prior = packages_rows(rows.drop_last(), t);
        let row = rows.last();
        if crate::release::classification_of(row.0) == 0 {
            prior.push(((row.0, row.1, t, row.2), packages_class_spec(row.0).unwrap()))
        } else {
            prior
        }
    }
}

impl ReleaseReader {
    /// The classified rows of the selected checksum table, in table
    /// order.
    pub fn classified_indices_entries(&self) -> (r: Result<
        Vec<ClassifiedReleaseFileEntry>,
        DebianError,
    >)
        ensures
            r is Ok <==> release_rows(self.release.paragraph@) is Some,
            r matches Ok(v) ==> {
                let rows = release_rows(self.release.paragraph@).unwrap();
                let t = selected_checksum(self.release.paragraph@).unwrap();
                &&& v@.len() == rows.len()
                &&& forall|i: int| 0 <= i < rows.len() ==> class_matches(&v@[i], #[trigger] rows[i], t)
            },
            r matches Err(e) ==> (selected_checksum(self.release.paragraph@) is None ==> e
                matches DebianError::NoKnownChecksum),
            r matches Err(e) ==> (selected_checksum(self.release.paragraph@) is Some ==> (e matches DebianError::ReleaseMissingSize || e
                matches DebianError::ReleaseMissingPath || e matches DebianError::PathWithSpaces(
                _,
            ) || e matches DebianError::BadHex(_) || e matches DebianError::ControlFieldIntParse(
                _,
            ))),
    {
        let t = self.retrieve_checksum()?;
        proof {
            reveal_strlit("SHA256");
            reveal_strlit("SHA1");
            reveal_strlit("MD5Sum");
            assert(lookup_field(
                self.release.paragraph@,
                crate::release::checksum_name_spec(t),
            ) is Some);
        }
        let entries = self.release.release_entries(t)?;
        let ghost rows = release_rows(self.release.paragraph@).unwrap();
        let mut out: Vec<ClassifiedReleaseFileEntry> = Vec::new();
        let n = entries.len();
        let mut i: usize = 0;
        while i < n
            invariant
                n == entries@.len(),
                n == rows.len(),
                forall|q: int| 0 <= q < n ==> (#[trigger] entries@[q]).model() == (
                    rows[q].0,
                    rows[q].1,
                    rows[q].2,
                ),
                forall|q: int|
                    0 <= q < n ==> (#[trigger] entries@[q]).digest.algorithm == t,
                0 <= i <= n,
                out@.len() == i,
                forall|q: int| 0 <= q < i ==> class_matches(&out@[q], #[trigger] rows[q], t),
            decreases n - i,
        {
            let e = entries[i].duplicate();
            proof {
                assert(entries@[i as int].model() == (
                    rows[i as int].0,
                    rows[i as int].1,
                    rows[i as int].2,
                ));
            }
            let c = classify_entry(e);
            out.push(c);
            i += 1;
        }
        Ok(out)
    }

    /// The `Packages` index entries of the selected checksum table.
    pub fn packages_indices_entries(&self) -> (r: Result<Vec<PackagesFileEntry>, DebianError>)
        ensures
            r is Ok <==> release_rows(self.release.paragraph@) is Some,
            r matches Ok(v) ==> pmodels(v@) == packages_rows(
                release_rows(self.release.paragraph@).unwrap(),
                selected_checksum(self.release.paragraph@).unwrap(),
            ),
            r matches Err(e) ==> (selected_checksum(self.release.paragraph@) is None ==> e
                matches DebianError::NoKnownChecksum),
            r matches Err(e) ==> (selected_checksum(self.release.paragraph@) is Some ==> (e matches DebianError::ReleaseMissingSize || e
                matches DebianError::ReleaseMissingPath || e matches DebianError::PathWithSpaces(
                _,
            ) || e matches DebianError::BadHex(_) || e matches DebianError::ControlFieldIntParse(
                _,
            ))),
    {
        let t = self.retrieve_checksum()?;
        proof {
            reveal_strlit("SHA256");
            reveal_strlit("SHA1");
            reveal_strlit("MD5Sum");
            assert(lookup_field(
                self.release.paragraph@,
                crate::release::checksum_name_spec(t),
            ) is Some);
        }
        let entries = self.release.release_entries(t)?;
        let ghost rows = release_rows(self.release.paragraph@).unwrap();
        let mut out: Vec<PackagesFileEntry> = Vec::new();
        let n = entries.len();
        let mut i: usize = 0;
        proof {
            assert(rows.subrange(0, 0) =~= Seq::<(Seq<char>, int, Seq<u8>)>::empty());
            assert(pmodels(out@) =~= packages_rows(rows.subrange(0, 0), t));
        }
        while i < n
            invariant
                n == entries@.len(),
                n == rows.len(),
                forall|q: int| 0 <= q < n ==> (#[trigger] entries@[q]).model() == (
                    rows[q].0,
                    rows[q].1,
                    rows[q].2,
                ),
                forall|q: int|
                    0 <= q < n ==> (#[trigger] entries@[q]).digest.algorithm == t,
                0 <= i <= n,
                pmodels(out@) == packages_rows(rows.subrange(0, i as int), t),
            decreases n - i,
        {
            let ghost pre = rows.subrange(0, i as int);
            let ghost pre1 = rows.subrange(0, i + 1);
            proof {
                assert(pre1.drop_last() =~= pre);
                assert(pre1.last() == rows[i as int]);
                assert(entries@[i as int].model() == (
                    rows[i as int].0,
                    rows[i as int].1,
                    rows[i as int].2,
                ));
            }
            let e = entries[i].duplicate();
            let c = classify_entry(e);
            match c {
                ClassifiedReleaseFileEntry::Packages(p) => {
                    let ghost old_models = pmodels(out@);
                    let ghost pm = pmodel(&p);
                    out.push(p);
                    proof {
                        assert(pmodels(out@) =~= old_models.push(pm));
                        assert(pmodels(out@) =~= packages_rows(pre1, t));
                    }
                },
                _ => {
                    proof {
                        assert(pmodels(out@) =~= packages_rows(pre1, t));
                    }
                },
            }
            i += 1;
        }
        proof {
            assert(rows.subrange(0, n as int) =~= rows);
        }
        Ok(out)
    }

    /// One `Packages` entry per logical index file, each under its most
    /// preferred published compression format.
    pub fn packages_indices_entries_preferred_compression(&self) -> (r: Result<
        Vec<PackagesFileEntry>,
        DebianError,
    >)
        ensures
            r is Ok <==> (release_rows(self.release.paragraph@) matches Some(rows) && {
                let s = packages_rows(rows, selected_checksum(self.release.paragraph@).unwrap());
                forall|j: int|
                    0 <= j < distinct_pkeys(s).len() ==> p_winner(
                        s,
                        #[trigger] distinct_pkeys(s)[j],
                        self.preferred_compression,
                    ) is Some
            }),
            r matches Ok(v) ==> {
                let s = packages_rows(
                    release_rows(self.release.paragraph@).unwrap(),
                    selected_checksum(self.release.paragraph@).unwrap(),
                );
                let dk = distinct_pkeys(s);
                &&& v@.len() == dk.len()
                &&& forall|j: int|
                    0 <= j < dk.len() ==> pmodel(&v@[j]) == p_winner(
                        s,
                        #[trigger] dk[j],
                        self.preferred_compression,
                    ).unwrap()
            },
            r matches Err(e) ==> (release_rows(self.release.paragraph@) is Some ==> e
                matches DebianError::PackagesIndicesEntryNotFound),
            r matches Err(e) ==> (selected_checksum(self.release.paragraph@) is None ==> e
                matches DebianError::NoKnownChecksum),
            r matches Err(e) ==> ((selected_checksum(self.release.paragraph@) is Some
                && release_rows(self.release.paragraph@) is None) ==> (e matches DebianError::ReleaseMissingSize || e
                matches DebianError::ReleaseMissingPath || e matches DebianError::PathWithSpaces(
                _,
            ) || e matches DebianError::BadHex(_) || e matches DebianError::ControlFieldIntParse(
                _,
            ))),
    {
        let entries = self.packages_indices_entries()?;
        collapse_packages_entries(&entries, self.preferred_compression)
    }

    /// The collapsed `Packages` entry for a component, architecture and
    /// installer flag.
    pub fn packages_entry(&self, component: &str, architecture: &str, is_installer: bool) -> (r:
        Result<PackagesFileEntry, DebianError>)
        ensures
            r matches Ok(e) ==> (release_rows(self.release.paragraph@) is Some && {
                let s = packages_rows(
                    release_rows(self.release.paragraph@).unwrap(),
                    selected_checksum(self.release.paragraph@).unwrap(),
                );
                &&& p_winner(
                    s,
                    (component@, architecture@, is_installer),
                    self.preferred_compression,
                ) matches Some(m)
                &&& pmodel(&e) == m
            }),
            r is Ok <==> (release_rows(self.release.paragraph@) matches Some(rows) && {
                let s = packages_rows(rows, selected_checksum(self.release.paragraph@).unwrap());
                &&& (forall|j: int|
                    0 <= j < distinct_pkeys(s).len() ==> p_winner(
                        s,
                        #[trigger] distinct_pkeys(s)[j],
                        self.preferred_compression,
                    ) is Some)
                &&& key_in(distinct_pkeys(s), (component@, architecture@, is_installer))
            }),
            r matches Err(e) ==> (release_rows(self.release.paragraph@) is Some ==> e
                matches DebianError::PackagesIndicesEntryNotFound),
            r matches Err(e) ==> (selected_checksum(self.release.paragraph@) is None ==> e
                matches DebianError::NoKnownChecksum),
            r matches Err(e) ==> ((selected_checksum(self.release.paragraph@) is Some
                && release_rows(self.release.paragraph@) is None) ==> (e matches DebianError::ReleaseMissingSize || e
                matches DebianError::ReleaseMissingPath || e matches DebianError::PathWithSpaces(
                _,
            ) || e matches DebianError::BadHex(_) || e matches DebianError::ControlFieldIntParse(
                _,
            ))),
    {
        let collapsed = self.packages_indices_entries_preferred_compression()?;
        let ghost s = packages_rows(
            release_rows(self.release.paragraph@).unwrap(),
            selected_checksum(self.release.paragraph@).unwrap(),
        );
        let ghost dk = distinct_pkeys(s);
        let n = collapsed.len();
        let mut j: usize = 0;
        while j < n
            invariant
                n == collapsed@.len(),
                n == dk.len(),
                s == packages_rows(
                    release_rows(self.release.paragraph@).unwrap(),
                    selected_checksum(self.release.paragraph@).unwrap(),
                ),
                release_rows(self.release.paragraph@) is Some,
                dk == distinct_pkeys(s),
                forall|t: int| 0 <= t < n ==> p_winner(
                    s,
                    #[trigger] dk[t],
                    self.preferred_compression,
                ) is Some,
                forall|t: int| 0 <= t < n ==> pmodel(&collapsed@[t]) == p_winner(
                    s,
                    #[trigger] dk[t],
                    self.preferred_compression,
                ).unwrap(),
                0 <= j <= n,
                forall|t: int| 0 <= t < j ==> #[trigger] dk[t] != (
                    component@,
                    architecture@,
                    is_installer,
                ),
            decreases n - j,
        {
            let hit = str_eq(collapsed[j].component.as_str(), component) && str_eq(
                collapsed[j].architecture.as_str(),
                architecture,
            ) && collapsed[j].is_installer == is_installer;
            proof {
                lemma_p_winner_key(s, dk[j as int], self.preferred_compression);
                assert(pkey_of(pmodel(&collapsed@[j as int])) == dk[j as int]);
            }
            if hit {
                let e = collapsed[j].duplicate();
                proof {
                    assert(dk[j as int] == (component@, architecture@, is_installer));
                    assert(key_in(dk, (component@, architecture@, is_installer)));
                    assert(pmodel(&e) == pmodel(&collapsed@[j as int]));
                }
                return Ok(e);
            }
            j += 1;
        }
        proof {
            assert(!key_in(dk, (component@, architecture@, is_installer))) by {
                if key_in(dk, (component@, architecture@, is_installer)) {
                    let t = choose|t: int|
                        0 <= t < dk.len() && #[trigger] dk[t] == (
                            component@,
                            architecture@,
                            is_installer,
                        );
                }
            }
        }
        Err(DebianError::PackagesIndicesEntryNotFound)
    }
}

/// Keys of two `Packages` entries compared by value.
fn pkey_eq(a: &PackagesFileEntry, b: &PackagesFileEntry) -> (r: bool)
    ensures
        r == (pkey_of(pmodel(a)) == pkey_of(pmodel(b))),
{
    let r = str_eq(a.component.as_str(), b.component.as_str()) && str_eq(
        a.architecture.as_str(),
        b.architecture.as_str(),
    ) && a.is_installer == b.is_installer;
    r
}

/// First index in `entries` whose key equals that of `key_rep` and
/// whose compression is `c`.
fn p_find_first_with(entries: &Vec<PackagesFileEntry>, key_rep: &PackagesFileEntry, c: Compression)
    -> (r: Option<usize>)
    ensures
        r is Some <==> p_first_with(pmodels(entries@), pkey_of(pmodel(key_rep)), c) is Some,
        r matches Some(i) ==> i < entries@.len() && pmodel(&entries@[i as int]) == p_first_with(
            pmodels(entries@),
            pkey_of(pmodel(key_rep)),
            c,
        ).unwrap(),
{
    let ghost s = pmodels(entries@);
    let ghost k = pkey_of(pmodel(key_rep));
    let n = entries.len();
    let mut i: usize = 0;
    proof {
        assert(s.subrange(0, s.len() as int) =~= s);
    }
    while i < n
        invariant
            n == entries@.len(),
            s == pmodels(entries@),
            k == pkey_of(pmodel(key_rep)),
            0 <= i <= n,
            p_first_with(s.subrange(i as int, n as int), k, c) == p_first_with(s, k, c),
        decreases n - i,
    {
        let ghost rem = s.subrange(i as int, n as int);
        proof {
            assert(rem[0] == s[i as int]);
            assert(s[i as int] == pmodel(&entries@[i as int]));
            assert(rem.subrange(1, rem.len() as int) =~= s.subrange(i + 1, n as int));
        }
        let is_match = pkey_eq(&entries[i], key_rep) && compression_eq(
            entries[i].compression,
            c,
        );
        if is_match {
            return Some(i);
        }
        i += 1;
    }
    proof {
        assert(s.subrange(n as int, n as int) =~= Seq::<
            ((Seq<char>, int, ChecksumType, Seq<u8>), (Seq<char>, Seq<char>, bool, Compression)),
        >::empty());
    }
    None
}

/// Compression formats compared by variant.
fn compression_eq(a: Compression, b: Compression) -> (r: bool)
    ensures
        r == (a == b),
{
    a == b
}

/// Collapse `Packages` entries to one winner per key.
///
/// The winner for a key is its first entry carrying the preferred
/// compression, else the first under the default fallback order; a key
/// with no winner fails the whole collapse.
pub fn collapse_packages_entries(entries: &Vec<PackagesFileEntry>, preferred: Compression) -> (r:
    Result<Vec<PackagesFileEntry>, DebianError>)
    ensures
        r is Ok <==> (forall|j: int|
            0 <= j < distinct_pkeys(pmodels(entries@)).len() ==> p_winner(
                pmodels(entries@),
                #[trigger] distinct_pkeys(pmodels(entries@))[j],
                preferred,
            ) is Some),
        r matches Ok(v) ==> {
            let s = pmodels(entries@);
            let dk = distinct_pkeys(s);
            &&& v@.len() == dk.len()
            &&& forall|j: int|
                0 <= j < dk.len() ==> pmodel(&v@[j]) == p_winner(s, #[trigger] dk[j], preferred).unwrap()
        },
        r matches Err(e) ==> e matches DebianError::PackagesIndicesEntryNotFound,
{
    let ghost s = pmodels(entries@);
    let ghost dk = distinct_pkeys(s);
    let n = entries.len();
    // Collect one representative entry per distinct key, in
    // first-appearance order.
    let mut reps: Vec<PackagesFileEntry> = Vec::new();
    let mut i: usize = 0;
    proof {
        assert(s.subrange(0, 0) =~= Seq::<
            ((Seq<char>, int, ChecksumType, Seq<u8>), (Seq<char>, Seq<char>, bool, Compression)),
        >::empty());
    }
    while i < n
        invariant
            n == entries@.len(),
            s == pmodels(entries@),
            0 <= i <= n,
            reps@.len() == distinct_pkeys(s.subrange(0, i as int)).len(),
            forall|j: int| 0 <= j < reps@.len() ==> pkey_of(pmodel(&reps@[j])) == distinct_pkeys(
                s.subrange(0, i as int),
            )[j],
        decreases n - i,
    {
        let ghost pre = s.subrange(0, i as int);
        let ghost pre1 = s.subrange(0, i + 1);
        proof {
            assert(pre1.drop_last() =~= pre);
            assert(pre1.last() == s[i as int]);
            assert(s[i as int] == pmodel(&entries@[i as int]));
        }
        // Is this entry's key already represented?
        let mut seen = false;
        let mut j: usize = 0;
        let m = reps.len();
        while j < m
            invariant
                m == reps@.len(),
                0 <= j <= m,
                i < n,
                n == entries@.len(),
                s == pmodels(entries@),
                seen == exists|t: int|
                    0 <= t < j && pkey_of(pmodel(&reps@[t])) == pkey_of(
                        #[trigger] pmodel(&entries@[i as int]),
                    ),
            decreases m - j,
        {
            if pkey_eq(&reps[j], &entries[i]) {
                seen = true;
            }
            j += 1;
        }
        proof {
            let dkpre = distinct_pkeys(pre);
            assert forall|t: int| 0 <= t < reps@.len() implies (pkey_of(pmodel(&reps@[t]))
                == pkey_of(s[i as int]) <==> dkpre[t] == pkey_of(s[i as int])) by {}
            if seen {
                let t = choose|t: int|
                    0 <= t < reps@.len() && pkey_of(pmodel(&reps@[t])) == pkey_of(
                        pmodel(&entries@[i as int]),
                    );
                assert(dkpre[t] == pkey_of(s[i as int]));
                assert(key_in(dkpre, pkey_of(s[i as int])));
            } else {
                assert(!key_in(dkpre, pkey_of(s[i as int]))) by {
                    if key_in(dkpre, pkey_of(s[i as int])) {
                        let t = choose|t: int|
                            0 <= t < dkpre.len() && #[trigger] dkpre[t] == pkey_of(s[i as int]);
                        assert(pkey_of(pmodel(&reps@[t])) == pkey_of(s[i as int]));
                    }
                }
            }
        }
        if !seen {
            reps.push(entries[i].duplicate());
        }
        i += 1;
    }
    proof {
        assert(s.subrange(0, n as int) =~= s);
    }
    // Pick the winner for each key.
    let order = Compression::default_preferred_order();
    let mut out: Vec<PackagesFileEntry> = Vec::new();
    let nk = reps.len();
    let mut j: usize = 0;
    while j < nk
        invariant
            nk == reps@.len(),
            s == pmodels(entries@),
            dk == distinct_pkeys(s),
            nk == dk.len(),
            forall|t: int| 0 <= t < nk ==> pkey_of(pmodel(&reps@[t])) == dk[t],
            order@ == default_order_seq(),
            0 <= j <= nk,
            out@.len() == j,
            forall|t: int| 0 <= t < j ==> p_winner(s, #[trigger] dk[t], preferred) is Some,
            forall|t: int| 0 <= t < j ==> pmodel(&out@[t]) == p_winner(
                s,
                #[trigger] dk[t],
                preferred,
            ).unwrap(),
        decreases nk - j,
    {
        let ghost k = pkey_of(pmodel(&reps@[j as int]));
        match p_find_first_with(entries, &reps[j], preferred) {
            Some(idx) => {
                out.push(entries[idx].duplicate());
                proof {
                    assert(pmodel(&out@[j as int]) == pmodel(&entries@[idx as int]));
                    assert(pmodel(&out@[j as int]) == p_winner(s, dk[j as int], preferred)
                        .unwrap());
                }
            },
            None => {
                // Walk the default fallback order.
                let mut found: Option<usize> = None;
                let mut t: usize = 0;
                proof {
                    assert(order@.subrange(0, order@.len() as int) =~= order@);
                }
                while t < 6 && found.is_none()
                    invariant
                        order@ == default_order_seq(),
                        s == pmodels(entries@),
                        k == pkey_of(pmodel(&reps@[j as int])),
                        j < nk,
                        nk == reps@.len(),
                        0 <= t <= 6,
                        found is None ==> p_fallback(s, k, order@.subrange(t as int, 6))
                            == p_fallback(s, k, default_order_seq()),
                        found matches Some(idx) ==> ((idx as int) < s.len() && (p_fallback(
                            s,
                            k,
                            default_order_seq(),
                        ) matches Some(m) && pmodel(&entries@[idx as int]) == m)),
                    decreases 6 - t,
                {
                    let ghost rem = order@.subrange(t as int, 6);
                    proof {
                        assert(rem[0] == order@[t as int]);
                        assert(rem.subrange(1, rem.len() as int) =~= order@.subrange(t + 1, 6));
                    }
                    match p_find_first_with(entries, &reps[j], order[t]) {
                        Some(idx) => {
                            found = Some(idx);
                        },
                        None => {},
                    }
                    t += 1;
                }
                proof {
                    if found is None {
                        assert(order@.subrange(6, 6) =~= Seq::<Compression>::empty());
                    }
                }
                match found {
                    Some(idx) => {
                        out.push(entries[idx].duplicate());
                        proof {
                            assert(pmodel(&out@[j as int]) == pmodel(&entries@[idx as int]));
                            assert(pmodel(&out@[j as int]) == p_winner(s, dk[j as int], preferred)
                                .unwrap());
                        }
                    },
                    None => {
                        proof {
                            assert(p_winner(s, dk[j as int], preferred) is None);
                        }
                        return Err(DebianError::PackagesIndicesEntryNotFound);
                    },
                }
            },
        }
        j += 1;
    }
    Ok(out)
}

// ---------------------------------------------------------------------------
// Sources entries: models, collapse, lookup
// ---------------------------------------------------------------------------

/// Model of a `Sources` index entry: its row and its role.
pub open spec fn smodel(e: &SourcesFileEntry) -> (
    (Seq<char>, int, ChecksumType, Seq<u8>),
    (Seq<char>, Compression),
) {
    (rmodel(&e.entry), (e.component@, e.compression))
}

pub open spec fn smodels(v: Seq<SourcesFileEntry>) -> Seq<
    ((Seq<char>, int, ChecksumType, Seq<u8>), (Seq<char>, Compression)),
> {
    Seq::new(v.len(), |i: int| smodel(&v[i]))
}

pub open spec fn skey_of(
    m: ((Seq<char>, int, ChecksumType, Seq<u8>), (Seq<char>, Compression)),
) -> Seq<char> {
    m.1.0
}

pub open spec fn scomp_of(
    m: ((Seq<char>, int, ChecksumType, Seq<u8>), (Seq<char>, Compression)),
) -> Compression {
    m.1.1
}

/// The `Sources` entries among the rows, in order, with their roles.
pub open spec fn sources_rows(rows: Seq<(Seq<char>, int, Seq<u8>)>, t: ChecksumType) -> Seq<
    ((Seq<char>, int, ChecksumType, Seq<u8>), (Seq<char>, Compression)),
>
    decreases rows.len(),
{
    if rows.len() == 0 {
        Seq::empty()
    } else {
        let prior = sources_rows(rows.drop_last(), t);
        let row = rows.last();
        if crate::release::classification_of(row.0) == 1 {
            prior.push(((row.0, row.1, t, row.2), sources_class_spec(row.0).unwrap()))
        } else {
            prior
        }
    }
}

/// The first entry with the given component and compression.
pub open spec fn s_first_with(
    s: Seq<((Seq<char>, int, ChecksumType, Seq<u8>), (Seq<char>, Compression))>,
    k: Seq<char>,
    c: Compression,
) -> Option<((Seq<char>, int, ChecksumType, Seq<u8>), (Seq<char>, Compression))>
    decreases s.len(),
{
    if s.len() == 0 {
        None
    } else if skey_of(s[0]) == k && scomp_of(s[0]) == c {
        Some(s[0])
    } else {
        s_first_with(s.subrange(1, s.len() as int), k, c)
    }
}

pub proof fn lemma_s_first_with(
    s: Seq<((Seq<char>, int, ChecksumType, Seq<u8>), (Seq<char>, Compression))>,
    k: Seq<char>,
    c: Compression,
)
    ensures
        s_first_with(s, k, c) is Some <==> exists|i: int|
            0 <= i < s.len() && skey_of(#[trigger] s[i]) == k && scomp_of(s[i]) == c,
        s_first_with(s, k, c) matches Some(m) ==> skey_of(m) == k && scomp_of(m) == c,
    decreases s.len(),
{
    if s.len() > 0 {
        let t = s.subrange(1, s.len() as int);
        lemma_s_first_with(t, k, c);
        if !(skey_of(s[0]) == k && scomp_of(s[0]) == c) {
            if exists|i: int| 0 <= i < s.len() && skey_of(#[trigger] s[i]) == k && scomp_of(s[i])
                == c {
                let i = choose|i: int|
                    0 <= i < s.len() && skey_of(#[trigger] s[i]) == k && scomp_of(s[i]) == c;
                assert(i > 0);
                assert(skey_of(t[i - 1]) == k && scomp_of(t[i - 1]) == c);
            }
            if s_first_with(t, k, c) is Some {
                let i = choose|i: int|
                    0 <= i < t.len() && skey_of(#[trigger] t[i]) == k && scomp_of(t[i]) == c;
                assert(skey_of(s[i + 1]) == k && scomp_of(s[i + 1]) == c);
            }
        }
    }
}

pub open spec fn s_fallback(
    s: Seq<((Seq<char>, int, ChecksumType, Seq<u8>), (Seq<char>, Compression))>,
    k: Seq<char>,
    order: Seq<Compression>,
) -> Option<((Seq<char>, int, ChecksumType, Seq<u8>), (Seq<char>, Compression))>
    decreases order.len(),
{
    if order.len() == 0 {
        None
    } else {
        match s_first_with(s, k, order[0]) {
            Some(m) => Some(m),
            None => s_fallback(s, k, order.subrange(1, order.len() as int)),
        }
    }
}

/// The winning `Sources` entry for a component.
pub open spec fn s_winner(
    s: Seq<((Seq<char>, int, ChecksumType, Seq<u8>), (Seq<char>, Compression))>,
    k: Seq<char>,
    preferred: Compression,
) -> Option<((Seq<char>, int, ChecksumType, Seq<u8>), (Seq<char>, Compression))> {
    match s_first_with(s, k, preferred) {
        Some(m) => Some(m),
        None => s_fallback(s, k, default_order_seq()),
    }
}

pub proof fn lemma_s_winner_key(
    s: Seq<((Seq<char>, int, ChecksumType, Seq<u8>), (Seq<char>, Compression))>,
    k: Seq<char>,
    preferred: Compression,
)
    ensures
        s_winner(s, k, preferred) matches Some(m) ==> skey_of(m) == k,
{
    lemma_s_first_with(s, k, preferred);
    lemma_s_fallback_key(s, k, default_order_seq());
}

proof fn lemma_s_fallback_key(
    s: Seq<((Seq<char>, int, ChecksumType, Seq<u8>), (Seq<char>, Compression))>,
    k: Seq<char>,
    order: Seq<Compression>,
)
    ensures
        s_fallback(s, k, order) matches Some(m) ==> skey_of(m) == k,
    decreases order.len(),
{
    if order.len() > 0 {
        lemma_s_first_with(s, k, order[0]);
        lemma_s_fallback_key(s, k, order.subrange(1, order.len() as int));
    }
}

/// When some `Sources` entry for a component carries the preferred
/// compression, the collapse winner for it carries that compression.
pub proof fn lemma_preferred_compression_winner_sources(
    s: Seq<((Seq<char>, int, ChecksumType, Seq<u8>), (Seq<char>, Compression))>,
    k: Seq<char>,
    preferred: Compression,
)
    requires
        exists|i: int|
            0 <= i < s.len() && skey_of(#[trigger] s[i]) == k && scomp_of(s[i]) == preferred,
    ensures
        s_winner(s, k, preferred) matches Some(m) && skey_of(m) == k && scomp_of(m) == preferred,
{
    lemma_s_first_with(s, k, preferred);
}

pub open spec fn skey_in(keys: Seq<Seq<char>>, k: Seq<char>) -> bool {
    exists|i: int| 0 <= i < keys.len() && #[trigger] keys[i] == k
}

pub open spec fn distinct_skeys(
    s: Seq<((Seq<char>, int, ChecksumType, Seq<u8>), (Seq<char>, Compression))>,
) -> Seq<Seq<char>>
    decreases s.len(),
{
    if s.len() == 0 {
        Seq::empty()
    } else {
        let prior = distinct_skeys(s.drop_last());
        if skey_in(prior, skey_of(s.last())) {
            prior
        } else {
            prior.push(skey_of(s.last()))
        }
    }
}

/// First index in `entries` with the key of `key_rep` and compression
/// `c`.
fn s_find_first_with(entries: &Vec<SourcesFileEntry>, key_rep: &SourcesFileEntry, c: Compression)
    -> (r: Option<usize>)
    ensures
        r is Some <==> s_first_with(smodels(entries@), skey_of(smodel(key_rep)), c) is Some,
        r matches Some(i) ==> i < entries@.len() && smodel(&entries@[i as int]) == s_first_with(
            smodels(entries@),
            skey_of(smodel(key_rep)),
            c,
        ).unwrap(),
{
    let ghost s = smodels(entries@);
    let ghost k = skey_of(smodel(key_rep));
    let n = entries.len();
    let mut i: usize = 0;
    proof {
        assert(s.subrange(0, s.len() as int) =~= s);
    }
    while i < n
        invariant
            n == entries@.len(),
            s == smodels(entries@),
            k == skey_of(smodel(key_rep)),
            0 <= i <= n,
            s_first_with(s.subrange(i as int, n as int), k, c) == s_first_with(s, k, c),
        decreases n - i,
    {
        let ghost rem = s.subrange(i as int, n as int);
        proof {
            assert(rem[0] == s[i as int]);
            assert(s[i as int] == smodel(&entries@[i as int]));
            assert(rem.subrange(1, rem.len() as int) =~= s.subrange(i + 1, n as int));
        }
        let is_match = str_eq(entries[i].component.as_str(), key_rep.component.as_str())
            && compression_eq(entries[i].compression, c);
        if is_match {
            return Some(i);
        }
        i += 1;
    }
    proof {
        assert(s.subrange(n as int, n as int) =~= Seq::<
            ((Seq<char>, int, ChecksumType, Seq<u8>), (Seq<char>, Compression)),
        >::empty());
    }
    None
}

/// Collapse `Sources` entries to one winner per component.
pub fn collapse_sources_entries(entries: &Vec<SourcesFileEntry>, preferred: Compression) -> (r:
    Result<Vec<SourcesFileEntry>, DebianError>)
    ensures
        r is Ok <==> (forall|j: int|
            0 <= j < distinct_skeys(smodels(entries@)).len() ==> s_winner(
                smodels(entries@),
                #[trigger] distinct_skeys(smodels(entries@))[j],
                preferred,
            ) is Some),
        r matches Ok(v) ==> {
            let s = smodels(entries@);
            let dk = distinct_skeys(s);
            &&& v@.len() == dk.len()
            &&& forall|j: int|
                0 <= j < dk.len() ==> smodel(&v@[j]) == s_winner(s, #[trigger] dk[j], preferred).unwrap()
        },
        r matches Err(e) ==> e matches DebianError::SourcesIndicesEntryNotFound,
{
    let ghost s = smodels(entries@);
    let ghost dk = distinct_skeys(s);
    let n = entries.len();
    let mut reps: Vec<SourcesFileEntry> = Vec::new();
    let mut i: usize = 0;
    proof {
        assert(s.subrange(0, 0) =~= Seq::<
            ((Seq<char>, int, ChecksumType, Seq<u8>), (Seq<char>, Compression)),
        >::empty());
    }
    while i < n
        invariant
            n == entries@.len(),
            s == smodels(entries@),
            0 <= i <= n,
            reps@.len() == distinct_skeys(s.subrange(0, i as int)).len(),
            forall|j: int| 0 <= j < reps@.len() ==> skey_of(smodel(&reps@[j])) == distinct_skeys(
                s.subrange(0, i as int),
            )[j],
        decreases n - i,
    {
        let ghost pre = s.subrange(0, i as int);
        let ghost pre1 = s.subrange(0, i + 1);
        proof {
            assert(pre1.drop_last() =~= pre);
            assert(pre1.last() == s[i as int]);
            assert(s[i as int] == smodel(&entries@[i as int]));
        }
        let mut seen = false;
        let mut j: usize = 0;
        let m = reps.len();
        while j < m
            invariant
                m == reps@.len(),
                0 <= j <= m,
                i < n,
                n == entries@.len(),
                s == smodels(entries@),
                seen == exists|t: int|
                    0 <= t < j && skey_of(smodel(&reps@[t])) == skey_of(
                        #[trigger] smodel(&entries@[i as int]),
                    ),
            decreases m - j,
        {
            if str_eq(reps[j].component.as_str(), entries[i].component.as_str()) {
                seen = true;
            }
            j += 1;
        }
        proof {
            let dkpre = distinct_skeys(pre);
            assert forall|t: int| 0 <= t < reps@.len() implies (skey_of(smodel(&reps@[t]))
                == skey_of(s[i as int]) <==> dkpre[t] == skey_of(s[i as int])) by {}
            if seen {
                let t = choose|t: int|
                    0 <= t < reps@.len() && skey_of(smodel(&reps@[t])) == skey_of(
                        smodel(&entries@[i as int]),
                    );
                assert(dkpre[t] == skey_of(s[i as int]));
                assert(skey_in(dkpre, skey_of(s[i as int])));
            } else {
                assert(!skey_in(dkpre, skey_of(s[i as int]))) by {
                    if skey_in(dkpre, skey_of(s[i as int])) {
                        let t = choose|t: int|
                            0 <= t < dkpre.len() && #[trigger] dkpre[t] == skey_of(s[i as int]);
                        assert(skey_of(smodel(&reps@[t])) == skey_of(s[i as int]));
                    }
                }
            }
        }
        if !seen {
            reps.push(entries[i].duplicate());
        }
        i += 1;
    }
    proof {
        assert(s.subrange(0, n as int) =~= s);
    }
    let order = Compression::default_preferred_order();
    let mut out: Vec<SourcesFileEntry> = Vec::new();
    let nk = reps.len();
    let mut j: usize = 0;
    while j < nk
        invariant
            nk == reps@.len(),
            s == smodels(entries@),
            dk == distinct_skeys(s),
            nk == dk.len(),
            forall|t: int| 0 <= t < nk ==> skey_of(smodel(&reps@[t])) == dk[t],
            order@ == default_order_seq(),
            0 <= j <= nk,
            out@.len() == j,
            forall|t: int| 0 <= t < j ==> s_winner(s, #[trigger] dk[t], preferred) is Some,
            forall|t: int| 0 <= t < j ==> smodel(&out@[t]) == s_winner(
                s,
                #[trigger] dk[t],
                preferred,
            ).unwrap(),
        decreases nk - j,
    {
        let ghost k = skey_of(smodel(&reps@[j as int]));
        match s_find_first_with(entries, &reps[j], preferred) {
            Some(idx) => {
                out.push(entries[idx].duplicate());
                proof {
                    assert(smodel(&out@[j as int]) == smodel(&entries@[idx as int]));
                    assert(smodel(&out@[j as int]) == s_winner(s, dk[j as int], preferred)
                        .unwrap());
                }
            },
            None => {
                let mut found: Option<usize> = None;
                let mut t: usize = 0;
                proof {
                    assert(order@.subrange(0, order@.len() as int) =~= order@);
                }
                while t < 6 && found.is_none()
                    invariant
                        order@ == default_order_seq(),
                        s == smodels(entries@),
                        k == skey_of(smodel(&reps@[j as int])),
                        j < nk,
                        nk == reps@.len(),
                        0 <= t <= 6,
                        found is None ==> s_fallback(s, k, order@.subrange(t as int, 6))
                            == s_fallback(s, k, default_order_seq()),
                        found matches Some(idx) ==> ((idx as int) < s.len() && (s_fallback(
                            s,
                            k,
                            default_order_seq(),
                        ) matches Some(m) && smodel(&entries@[idx as int]) == m)),
                    decreases 6 - t,
                {
                    let ghost rem = order@.subrange(t as int, 6);
                    proof {
                        assert(rem[0] == order@[t as int]);
                        assert(rem.subrange(1, rem.len() as int) =~= order@.subrange(t + 1, 6));
                    }
                    match s_find_first_with(entries, &reps[j], order[t]) {
                        Some(idx) => {
                            found = Some(idx);
                        },
                        None => {},
                    }
                    t += 1;
                }
                proof {
                    if found is None {
                        assert(order@.subrange(6, 6) =~= Seq::<Compression>::empty());
                    }
                }
                match found {
                    Some(idx) => {
                        out.push(entries[idx].duplicate());
                        proof {
                            assert(smodel(&out@[j as int]) == smodel(&entries@[idx as int]));
                            assert(smodel(&out@[j as int]) == s_winner(s, dk[j as int], preferred)
                                .unwrap());
                        }
                    },
                    None => {
                        proof {
                            assert(s_winner(s, dk[j as int], preferred) is None);
                        }
                        return Err(DebianError::SourcesIndicesEntryNotFound);
                    },
                }
            },
        }
        j += 1;
    }
    Ok(out)
}

impl ReleaseReader {
    /// The `Sources` index entries of the selected checksum table.
    pub fn sources_indices_entries(&self) -> (r: Result<Vec<SourcesFileEntry>, DebianError>)
        ensures
            r is Ok <==> release_rows(self.release.paragraph@) is Some,
            r matches Ok(v) ==> smodels(v@) == sources_rows(
                release_rows(self.release.paragraph@).unwrap(),
                selected_checksum(self.release.paragraph@).unwrap(),
            ),
            r matches Err(e) ==> (selected_checksum(self.release.paragraph@) is None ==> e
                matches DebianError::NoKnownChecksum),
            r matches Err(e) ==> (selected_checksum(self.release.paragraph@) is Some ==> (e matches DebianError::ReleaseMissingSize || e
                matches DebianError::ReleaseMissingPath || e matches DebianError::PathWithSpaces(
                _,
            ) || e matches DebianError::BadHex(_) || e matches DebianError::ControlFieldIntParse(
                _,
            ))),
    {
        let t = self.retrieve_checksum()?;
        proof {
            reveal_strlit("SHA256");
            reveal_strlit("SHA1");
            reveal_strlit("MD5Sum");
            assert(lookup_field(
                self.release.paragraph@,
                crate::release::checksum_name_spec(t),
            ) is Some);
        }
        let entries = self.release.release_entries(t)?;
        let ghost rows = release_rows(self.release.paragraph@).unwrap();
        let mut out: Vec<SourcesFileEntry> = Vec::new();
        let n = entries.len();
        let mut i: usize = 0;
        proof {
            assert(rows.subrange(0, 0) =~= Seq::<(Seq<char>, int, Seq<u8>)>::empty());
            assert(smodels(out@) =~= sources_rows(rows.subrange(0, 0), t));
        }
        while i < n
            invariant
                n == entries@.len(),
                n == rows.len(),
                forall|q: int| 0 <= q < n ==> (#[trigger] entries@[q]).model() == (
                    rows[q].0,
                    rows[q].1,
                    rows[q].2,
                ),
                forall|q: int| 0 <= q < n ==> (#[trigger] entries@[q]).digest.algorithm == t,
                0 <= i <= n,
                smodels(out@) == sources_rows(rows.subrange(0, i as int), t),
            decreases n - i,
        {
            let ghost pre = rows.subrange(0, i as int);
            let ghost pre1 = rows.subrange(0, i + 1);
            proof {
                assert(pre1.drop_last() =~= pre);
                assert(pre1.last() == rows[i as int]);
                assert(entries@[i as int].model() == (
                    rows[i as int].0,
                    rows[i as int].1,
                    rows[i as int].2,
                ));
            }
            let e = entries[i].duplicate();
            let c = classify_entry(e);
            match c {
                ClassifiedReleaseFileEntry::Sources(se) => {
                    let ghost old_models = smodels(out@);
                    let ghost sm = smodel(&se);
                    out.push(se);
                    proof {
                        assert(smodels(out@) =~= old_models.push(sm));
                        assert(smodels(out@) =~= sources_rows(pre1, t));
                    }
                },
                _ => {
                    proof {
                        assert(smodels(out@) =~= sources_rows(pre1, t));
                    }
                },
            }
            i += 1;
        }
        proof {
            assert(rows.subrange(0, n as int) =~= rows);
        }
        Ok(out)
    }

    /// One `Sources` entry per component, each under its most preferred
    /// published compression format.
    pub fn sources_indices_entries_preferred_compression(&self) -> (r: Result<
        Vec<SourcesFileEntry>,
        DebianError,
    >)
        ensures
            r is Ok <==> (release_rows(self.release.paragraph@) matches Some(rows) && {
                let s = sources_rows(rows, selected_checksum(self.release.paragraph@).unwrap());
                forall|j: int|
                    0 <= j < distinct_skeys(s).len() ==> s_winner(
                        s,
                        #[trigger] distinct_skeys(s)[j],
                        self.preferred_compression,
                    ) is Some
            }),
            r matches Ok(v) ==> {
                let s = sources_rows(
                    release_rows(self.release.paragraph@).unwrap(),
                    selected_checksum(self.release.paragraph@).unwrap(),
                );
                let dk = distinct_skeys(s);
                &&& v@.len() == dk.len()
                &&& forall|j: int|
                    0 <= j < dk.len() ==> smodel(&v@[j]) == s_winner(
                        s,
                        #[trigger] dk[j],
                        self.preferred_compression,
                    ).unwrap()
            },
            r matches Err(e) ==> (release_rows(self.release.paragraph@) is Some ==> e
                matches DebianError::SourcesIndicesEntryNotFound),
            r matches Err(e) ==> (selected_checksum(self.release.paragraph@) is None ==> e
                matches DebianError::NoKnownChecksum),
            r matches Err(e) ==> ((selected_checksum(self.release.paragraph@) is Some
                && release_rows(self.release.paragraph@) is None) ==> (e matches DebianError::ReleaseMissingSize || e
                matches DebianError::ReleaseMissingPath || e matches DebianError::PathWithSpaces(
                _,
            ) || e matches DebianError::BadHex(_) || e matches DebianError::ControlFieldIntParse(
                _,
            ))),
    {
        let entries = self.sources_indices_entries()?;
        collapse_sources_entries(&entries, self.preferred_compression)
    }

    /// The collapsed `Sources` entry for a component.
    pub fn sources_entry(&self, component: &str) -> (r: Result<SourcesFileEntry, DebianError>)
        ensures
            r matches Ok(e) ==> (release_rows(self.release.paragraph@) is Some && {
                let s = sources_rows(
                    release_rows(self.release.paragraph@).unwrap(),
                    selected_checksum(self.release.paragraph@).unwrap(),
                );
                &&& s_winner(s, component@, self.preferred_compression) matches Some(m)
                &&& smodel(&e) == m
            }),
            r is Ok <==> (release_rows(self.release.paragraph@) matches Some(rows) && {
                let s = sources_rows(rows, selected_checksum(self.release.paragraph@).unwrap());
                &&& (forall|j: int|
                    0 <= j < distinct_skeys(s).len() ==> s_winner(
                        s,
                        #[trigger] distinct_skeys(s)[j],
                        self.preferred_compression,
                    ) is Some)
                &&& skey_in(distinct_skeys(s), component@)
            }),
            r matches Err(e) ==> (release_rows(self.release.paragraph@) is Some ==> e
                matches DebianError::SourcesIndicesEntryNotFound),
            r matches Err(e) ==> (selected_checksum(self.release.paragraph@) is None ==> e
                matches DebianError::NoKnownChecksum),
            r matches Err(e) ==> ((selected_checksum(self.release.paragraph@) is Some
                && release_rows(self.release.paragraph@) is None) ==> (e matches DebianError::ReleaseMissingSize || e
                matches DebianError::ReleaseMissingPath || e matches DebianError::PathWithSpaces(
                _,
            ) || e matches DebianError::BadHex(_) || e matches DebianError::ControlFieldIntParse(
                _,
            ))),
    {
        let collapsed = self.sources_indices_entries_preferred_compression()?;
        let ghost s = sources_rows(
            release_rows(self.release.paragraph@).unwrap(),
            selected_checksum(self.release.paragraph@).unwrap(),
        );
        let ghost dk = distinct_skeys(s);
        let n = collapsed.len();
        let mut j: usize = 0;
        while j < n
            invariant
                n == collapsed@.len(),
                n == dk.len(),
                s == sources_rows(
                    release_rows(self.release.paragraph@).unwrap(),
                    selected_checksum(self.release.paragraph@).unwrap(),
                ),
                release_rows(self.release.paragraph@) is Some,
                dk == distinct_skeys(s),
                forall|t: int| 0 <= t < n ==> s_winner(
                    s,
                    #[trigger] dk[t],
                    self.preferred_compression,
                ) is Some,
                forall|t: int| 0 <= t < n ==> smodel(&collapsed@[t]) == s_winner(
                    s,
                    #[trigger] dk[t],
                    self.preferred_compression,
                ).unwrap(),
                0 <= j <= n,
                forall|t: int| 0 <= t < j ==> #[trigger] dk[t] != component@,
            decreases n - j,
        {
            proof {
                lemma_s_winner_key(s, dk[j as int], self.preferred_compression);
                assert(skey_of(smodel(&collapsed@[j as int])) == dk[j as int]);
            }
            if str_eq(collapsed[j].component.as_str(), component) {
                let e = collapsed[j].duplicate();
                proof {
                    assert(dk[j as int] == component@);
                    assert(skey_in(dk, component@));
                    assert(smodel(&e) == smodel(&collapsed@[j as int]));
                }
                return Ok(e);
            }
            j += 1;
        }
        proof {
            assert(!skey_in(dk, component@)) by {
                if skey_in(dk, component@) {
                    let t = choose|t: int| 0 <= t < dk.len() && #[trigger] dk[t] == component@;
                }
            }
        }
        Err(DebianError::SourcesIndicesEntryNotFound)
    }
}

// ---------------------------------------------------------------------------
// Contents entries
// ---------------------------------------------------------------------------

/// Model of a `Contents` index entry: its row and its role.
pub open spec fn cmodel(e: &ContentsFileEntry) -> (
    (Seq<char>, int, ChecksumType, Seq<u8>),
    (Option<Seq<char>>, Seq<char>, bool, Compression),
) {
    (
        rmodel(&e.entry),
        (
            match e.component {
                Some(ref c) => Some(c@),
                None => None,
            },
            e.architecture@,
            e.is_installer,
            e.compression,
        ),
    )
}

pub open spec fn cmodels(v: Seq<ContentsFileEntry>) -> Seq<
    ((Seq<char>, int, ChecksumType, Seq<u8>), (Option<Seq<char>>, Seq<char>, bool, Compression)),
> {
    Seq::new(v.len(), |i: int| cmodel(&v[i]))
}

pub open spec fn ckey_of(
    m: (
        (Seq<char>, int, ChecksumType, Seq<u8>),
        (Option<Seq<char>>, Seq<char>, bool, Compression),
    ),
) -> (Option<Seq<char>>, Seq<char>, bool) {
    (m.1.0, m.1.1, m.1.2)
}

pub open spec fn ccomp_of(
    m: (
        (Seq<char>, int, ChecksumType, Seq<u8>),
        (Option<Seq<char>>, Seq<char>, bool, Compression),
    ),
) -> Compression {
    m.1.3
}

/// The `Contents` entries among the rows, in order, with their roles.
pub open spec fn contents_rows(rows: Seq<(Seq<char>, int, Seq<u8>)>, t: ChecksumType) -> Seq<
    ((Seq<char>, int, ChecksumType, Seq<u8>), (Option<Seq<char>>, Seq<char>, bool, Compression)),
>
    decreases rows.len(),
{
    if rows.len() == 0 {
        Seq::empty()
    } else {
        let prior = contents_rows(rows.drop_last(), t);
        let row = rows.last();
        if crate::release::classification_of(row.0) == 2 {
            prior.push(
                ((row.0, row.1, t, row.2), crate::release::contents_class_spec(row.0).unwrap()),
            )
        } else {
            prior
        }
    }
}

pub open spec fn c_first_with(
    s: Seq<
        (
            (Seq<char>, int, ChecksumType, Seq<u8>),
            (Option<Seq<char>>, Seq<char>, bool, Compression),
        ),
    >,
    k: (Option<Seq<char>>, Seq<char>, bool),
    c: Compression,
) -> Option<
    ((Seq<char>, int, ChecksumType, Seq<u8>), (Option<Seq<char>>, Seq<char>, bool, Compression)),
>
    decreases s.len(),
{
    if s.len() == 0 {
        None
    } else if ckey_of(s[0]) == k && ccomp_of(s[0]) == c {
        Some(s[0])
    } else {
        c_first_with(s.subrange(1, s.len() as int), k, c)
    }
}

pub open spec fn c_fallback(
    s: Seq<
        (
            (Seq<char>, int, ChecksumType, Seq<u8>),
            (Option<Seq<char>>, Seq<char>, bool, Compression),
        ),
    >,
    k: (Option<Seq<char>>, Seq<char>, bool),
    order: Seq<Compression>,
) -> Option<
    ((Seq<char>, int, ChecksumType, Seq<u8>), (Option<Seq<char>>, Seq<char>, bool, Compression)),
>
    decreases order.len(),
{
    if order.len() == 0 {
        None
    } else {
        match c_first_with(s, k, order[0]) {
            Some(m) => Some(m),
            None => c_fallback(s, k, order.subrange(1, order.len() as int)),
        }
    }
}

/// The winning `Contents` entry for a key.
pub open spec fn c_winner(
    s: Seq<
        (
            (Seq<char>, int, ChecksumType, Seq<u8>),
            (Option<Seq<char>>, Seq<char>, bool, Compression),
        ),
    >,
    k: (Option<Seq<char>>, Seq<char>, bool),
    preferred: Compression,
) -> Option<
    ((Seq<char>, int, ChecksumType, Seq<u8>), (Option<Seq<char>>, Seq<char>, bool, Compression)),
> {
    match c_first_with(s, k, preferred) {
        Some(m) => Some(m),
        None => c_fallback(s, k, default_order_seq()),
    }
}

/// Option-valued components compared by value.
fn opt_component_eq(a: &Option<String>, b: Option<&str>) -> (r: bool)
    ensures
        r == {
            let am = match a {
                Some(x) => Some(x@),
                None => None,
            };
            let bm = match b {
                Some(y) => Some(y@),
                None => None,
            };
            am == bm
        },
{
    match (a, b) {
        (Some(x), Some(y)) => str_eq(x.as_str(), y),
        (None, None) => true,
        _ => false,
    }
}

/// First index in `entries` with the given key and compression.
fn c_find_first_with(
    entries: &Vec<ContentsFileEntry>,
    component: Option<&str>,
    architecture: &str,
    is_installer: bool,
    c: Compression,
) -> (r: Option<usize>)
    ensures
        ({
            let k = (
                match component {
                    Some(y) => Some(y@),
                    None => None,
                },
                architecture@,
                is_installer,
            );
            &&& (r is Some <==> c_first_with(cmodels(entries@), k, c) is Some)
            &&& (r matches Some(i) ==> i < entries@.len() && cmodel(&entries@[i as int])
                == c_first_with(cmodels(entries@), k, c).unwrap())
        }),
{
    let ghost s = cmodels(entries@);
    let ghost k = (
        match component {
            Some(y) => Some(y@),
            None => None,
        },
        architecture@,
        is_installer,
    );
    let n = entries.len();
    let mut i: usize = 0;
    proof {
        assert(s.subrange(0, s.len() as int) =~= s);
    }
    while i < n
        invariant
            n == entries@.len(),
            s == cmodels(entries@),
            k == (
                match component {
                    Some(y) => Some(y@),
                    None => None,
                },
                architecture@,
                is_installer,
            ),
            0 <= i <= n,
            c_first_with(s.subrange(i as int, n as int), k, c) == c_first_with(s, k, c),
        decreases n - i,
    {
        let ghost rem = s.subrange(i as int, n as int);
        proof {
            assert(rem[0] == s[i as int]);
            assert(s[i as int] == cmodel(&entries@[i as int]));
            assert(rem.subrange(1, rem.len() as int) =~= s.subrange(i + 1, n as int));
        }
        let is_match = opt_component_eq(&entries[i].component, component) && str_eq(
            entries[i].architecture.as_str(),
            architecture,
        ) && entries[i].is_installer == is_installer && compression_eq(entries[i].compression, c);
        if is_match {
            return Some(i);
        }
        i += 1;
    }
    proof {
        assert(s.subrange(n as int, n as int) =~= Seq::<
            (
                (Seq<char>, int, ChecksumType, Seq<u8>),
                (Option<Seq<char>>, Seq<char>, bool, Compression),
            ),
        >::empty());
    }
    None
}

impl ReleaseReader {
    /// The `Contents` index entries of the selected checksum table.
    pub fn contents_indices_entries(&self) -> (r: Result<Vec<ContentsFileEntry>, DebianError>)
        ensures
            r is Ok <==> release_rows(self.release.paragraph@) is Some,
            r matches Ok(v) ==> cmodels(v@) == contents_rows(
                release_rows(self.release.paragraph@).unwrap(),
                selected_checksum(self.release.paragraph@).unwrap(),
            ),
            r matches Err(e) ==> (selected_checksum(self.release.paragraph@) is None ==> e
                matches DebianError::NoKnownChecksum),
            r matches Err(e) ==> (selected_checksum(self.release.paragraph@) is Some ==> (e matches DebianError::ReleaseMissingSize || e
                matches DebianError::ReleaseMissingPath || e matches DebianError::PathWithSpaces(
                _,
            ) || e matches DebianError::BadHex(_) || e matches DebianError::ControlFieldIntParse(
                _,
            ))),
    {
        let t = self.retrieve_checksum()?;
        proof {
            reveal_strlit("SHA256");
            reveal_strlit("SHA1");
            reveal_strlit("MD5Sum");
            assert(lookup_field(
                self.release.paragraph@,
                crate::release::checksum_name_spec(t),
            ) is Some);
        }
        let entries = self.release.release_entries(t)?;
        let ghost rows = release_rows(self.release.paragraph@).unwrap();
        let mut out: Vec<ContentsFileEntry> = Vec::new();
        let n = entries.len();
        let mut i: usize = 0;
        proof {
            assert(rows.subrange(0, 0) =~= Seq::<(Seq<char>, int, Seq<u8>)>::empty());
            assert(cmodels(out@) =~= contents_rows(rows.subrange(0, 0), t));
        }
        while i < n
            invariant
                n == entries@.len(),
                n == rows.len(),
                forall|q: int| 0 <= q < n ==> (#[trigger] entries@[q]).model() == (
                    rows[q].0,
                    rows[q].1,
                    rows[q].2,
                ),
                forall|q: int| 0 <= q < n ==> (#[trigger] entries@[q]).digest.algorithm == t,
                0 <= i <= n,
                cmodels(out@) == contents_rows(rows.subrange(0, i as int), t),
            decreases n - i,
        {
            let ghost pre = rows.subrange(0, i as int);
            let ghost pre1 = rows.subrange(0, i + 1);
            proof {
                assert(pre1.drop_last() =~= pre);
                assert(pre1.last() == rows[i as int]);
                assert(entries@[i as int].model() == (
                    rows[i as int].0,
                    rows[i as int].1,
                    rows[i as int].2,
                ));
            }
            let e = entries[i].duplicate();
            let c = classify_entry(e);
            match c {
                ClassifiedReleaseFileEntry::Contents(ce) => {
                    let ghost old_models = cmodels(out@);
                    let ghost cm = cmodel(&ce);
                    out.push(ce);
                    proof {
                        assert(cmodels(out@) =~= old_models.push(cm));
                        assert(cmodels(out@) =~= contents_rows(pre1, t));
                    }
                },
                _ => {
                    proof {
                        assert(cmodels(out@) =~= contents_rows(pre1, t));
                    }
                },
            }
            i += 1;
        }
        proof {
            assert(rows.subrange(0, n as int) =~= rows);
        }
        Ok(out)
    }

    /// The `Contents` entry for a component, architecture and installer
    /// flag, under the preferred compression with default fallback.
    pub fn contents_entry(
        &self,
        component: Option<&str>,
        architecture: &str,
        is_installer: bool,
    ) -> (r: Result<ContentsFileEntry, DebianError>)
        ensures
            r matches Ok(e) ==> (release_rows(self.release.paragraph@) is Some && {
                let s = contents_rows(
                    release_rows(self.release.paragraph@).unwrap(),
                    selected_checksum(self.release.paragraph@).unwrap(),
                );
                let k = (
                    match component {
                        Some(y) => Some(y@),
                        None => None,
                    },
                    architecture@,
                    is_installer,
                );
                &&& c_winner(s, k, self.preferred_compression) matches Some(m)
                &&& cmodel(&e) == m
            }),
            r is Ok <==> (release_rows(self.release.paragraph@) matches Some(rows) && c_winner(
                contents_rows(rows, selected_checksum(self.release.paragraph@).unwrap()),
                (
                    match component {
                        Some(y) => Some(y@),
                        None => None,
                    },
                    architecture@,
                    is_installer,
                ),
                self.preferred_compression,
            ) is Some),
            r matches Err(e) ==> (e matches DebianError::ContentsIndicesEntryNotFound || e
                matches DebianError::NoKnownChecksum || release_rows(self.release.paragraph@)
                is None),
            r matches Err(e) ==> (selected_checksum(self.release.paragraph@) is None ==> e
                matches DebianError::NoKnownChecksum),
            r matches Err(e) ==> ((release_rows(self.release.paragraph@) matches Some(rows)
                && c_winner(
                contents_rows(rows, selected_checksum(self.release.paragraph@).unwrap()),
                (
                    match component {
                        Some(y) => Some(y@),
                        None => None,
                    },
                    architecture@,
                    is_installer,
                ),
                self.preferred_compression,
            ) is None) ==> e matches DebianError::ContentsIndicesEntryNotFound),
    {
        let entries = self.contents_indices_entries()?;
        let ghost s = cmodels(entries@);
        let ghost k = (
            match component {
                Some(y) => Some(y@),
                None => None,
            },
            architecture@,
            is_installer,
        );
        match c_find_first_with(&entries, component, architecture, is_installer,
            self.preferred_compression) {
            Some(idx) => {
                let e = entries[idx].duplicate();
                proof {
                    assert(cmodel(&e) == cmodel(&entries@[idx as int]));
                }
                Ok(e)
            },
            None => {
                let order = Compression::default_preferred_order();
                let mut found: Option<usize> = None;
                let mut t: usize = 0;
                proof {
                    assert(order@.subrange(0, order@.len() as int) =~= order@);
                }
                while t < 6 && found.is_none()
                    invariant
                        order@ == default_order_seq(),
                        s == cmodels(entries@),
                        k == (
                            match component {
                                Some(y) => Some(y@),
                                None => None,
                            },
                            architecture@,
                            is_installer,
                        ),
                        0 <= t <= 6,
                        found is None ==> c_fallback(s, k, order@.subrange(t as int, 6))
                            == c_fallback(s, k, default_order_seq()),
                        found matches Some(idx) ==> ((idx as int) < entries@.len() && (c_fallback(
                            s,
                            k,
                            default_order_seq(),
                        ) matches Some(m) && cmodel(&entries@[idx as int]) == m)),
                    decreases 6 - t,
                {
                    let ghost rem = order@.subrange(t as int, 6);
                    proof {
                        assert(rem[0] == order@[t as int]);
                        assert(rem.subrange(1, rem.len() as int) =~= order@.subrange(t + 1, 6));
                    }
                    match c_find_first_with(&entries, component, architecture, is_installer,
                        order[t]) {
                        Some(idx) => {
                            found = Some(idx);
                        },
                        None => {},
                    }
                    t += 1;
                }
                proof {
                    if found is None {
                        assert(order@.subrange(6, 6) =~= Seq::<Compression>::empty());
                    }
                }
                match found {
                    Some(idx) => {
                        let e = entries[idx].duplicate();
                        proof {
                            assert(cmodel(&e) == cmodel(&entries@[idx as int]));
                        }
                        Ok(e)
                    },
                    None => Err(DebianError::ContentsIndicesEntryNotFound),
                }
            },
        }
    }
}

// ---------------------------------------------------------------------------
// Resolving index files into package lists and fetches
// ---------------------------------------------------------------------------

impl BinaryPackageControlFile {
    /// A copy carrying the same paragraph.
    pub fn duplicate(&self) -> (r: BinaryPackageControlFile)
        ensures
            r@ == self@,
    {
        BinaryPackageControlFile { paragraph: self.paragraph.duplicate() }
    }
}

impl DebianSourceControlFile {
    /// A copy carrying the same paragraph.
    pub fn duplicate(&self) -> (r: DebianSourceControlFile)
        ensures
            r@ == self@,
    {
        DebianSourceControlFile { paragraph: self.paragraph.duplicate() }
    }
}

/// The fetched-and-decoded index bytes `raw` verify against `entry` and
/// parse into the paragraphs `paras`.
pub open spec fn decoded_paragraphs_ok(
    raw: Seq<u8>,
    size: u64,
    t: ChecksumType,
    digest: Seq<u8>,
    compression: Compression,
    paras: Seq<Seq<(Seq<char>, Seq<char>)>>,
) -> bool {
    &&& raw.len() == size
    &&& crate::checksum::digest_of(t, raw) == digest
    &&& crate::compression::decompress_spec(compression, raw) is Some
    &&& vstd::utf8::valid_utf8(crate::compression::decompress_spec(compression, raw).unwrap())
    &&& parse_control_spec(
        vstd::utf8::decode_utf8(
            crate::compression::decompress_spec(compression, raw).unwrap(),
        ),
    ) == Some(paras)
}

/// `decoded_paragraphs_ok` phrased over a `Packages` entry model.
pub open spec fn decoded_index_ok_p(
    raw: Seq<u8>,
    m: ((Seq<char>, int, ChecksumType, Seq<u8>), (Seq<char>, Seq<char>, bool, Compression)),
    paras: Seq<Seq<(Seq<char>, Seq<char>)>>,
) -> bool {
    decoded_paragraphs_ok(raw, m.0.1 as u64, m.0.2, m.0.3, m.1.3, paras)
}

/// `decoded_paragraphs_ok` phrased over a `Sources` entry model.
pub open spec fn decoded_index_ok_s(
    raw: Seq<u8>,
    m: ((Seq<char>, int, ChecksumType, Seq<u8>), (Seq<char>, Compression)),
    paras: Seq<Seq<(Seq<char>, Seq<char>)>>,
) -> bool {
    decoded_paragraphs_ok(raw, m.0.1 as u64, m.0.2, m.0.3, m.1.1, paras)
}

impl ReleaseReader {
    /// Fetch a `Packages` index (via `by-hash` when the Release file says
    /// so), verify it, decode it, and parse its package paragraphs.
    pub fn resolve_packages_from_entry<R: DataResolver>(
        &self,
        resolver: &R,
        entry: &PackagesFileEntry,
    ) -> (r: Result<Vec<BinaryPackageControlFile>, DebianError>)
        ensures
            r matches Ok(v) ==> exists|raw: Seq<u8>, paras: Seq<Seq<(Seq<char>, Seq<char>)>>|
                #![auto]
                {
                    &&& decoded_paragraphs_ok(
                        raw,
                        entry.entry.size,
                        entry.entry.digest.algorithm,
                        entry.entry.digest.digest@,
                        entry.compression,
                        paras,
                    )
                    &&& v@.len() == paras.len()
                    &&& forall|i: int| 0 <= i < paras.len() ==> (#[trigger] v@[i])@ == paras[i]
                },
    {
        let path = self.index_fetch_path(&entry.entry);
        let data = get_path_decoded_with_digest_verification(
            resolver,
            path.as_str(),
            entry.compression,
            entry.entry.size,
            &entry.entry.digest,
        )?;
        let ghost dv = data@;
        let text = bytes_to_string(data)?;
        let paras = crate::control::parse_paragraphs(text.as_str())?;
        let ghost paras_model = paras.deep_view();
        proof {
            let raw_w = choose|raw: Seq<u8>|
                #![auto]
                raw.len() == entry.entry.size && crate::checksum::digest_of(
                    entry.entry.digest.algorithm,
                    raw,
                ) == entry.entry.digest.digest@ && crate::compression::decompress_spec(
                    entry.compression,
                    raw,
                ) == Some(dv);
            assert(decoded_paragraphs_ok(
                raw_w,
                entry.entry.size,
                entry.entry.digest.algorithm,
                entry.entry.digest.digest@,
                entry.compression,
                paras_model,
            ));
        }
        let mut paras = paras;
        let mut out: Vec<BinaryPackageControlFile> = Vec::new();
        let n = paras.len();
        let mut i: usize = 0;
        while i < n
            invariant
                n == paras_model.len(),
                paras@.len() == n,
                paras.deep_view() == paras_model,
                0 <= i <= n,
                out@.len() == i,
                forall|j: int| 0 <= j < i ==> (#[trigger] out@[j])@ == paras_model[j],
            decreases n - i,
        {
            let p = paras[i].duplicate();
            proof {
                assert(paras.deep_view()[i as int] == paras@[i as int]@);
            }
            out.push(BinaryPackageControlFile { paragraph: p });
            i += 1;
        }
        Ok(out)
    }

    /// Resolve the collapsed `Packages` entry for the given query, then
    /// fetch and parse it: the result is the paragraph list of a
    /// verified, decoded index stream for the query's winner.
    pub fn resolve_packages<R: DataResolver>(
        &self,
        resolver: &R,
        component: &str,
        arch: &str,
        is_installer: bool,
    ) -> (r: Result<Vec<BinaryPackageControlFile>, DebianError>)
        ensures
            r matches Ok(v) ==> (release_rows(self.release.paragraph@) is Some && {
                let s = packages_rows(
                    release_rows(self.release.paragraph@).unwrap(),
                    selected_checksum(self.release.paragraph@).unwrap(),
                );
                &&& p_winner(s, (component@, arch@, is_installer), self.preferred_compression)
                    matches Some(m)
                &&& exists|raw: Seq<u8>, paras: Seq<Seq<(Seq<char>, Seq<char>)>>|
                    {
                        &&& #[trigger] decoded_index_ok_p(raw, m, paras)
                        &&& v@.len() == paras.len()
                        &&& forall|i: int| 0 <= i < paras.len() ==> (#[trigger] v@[i])@ == paras[i]
                    }
            }),
            r matches Err(e) ==> (selected_checksum(self.release.paragraph@) is None ==> e
                matches DebianError::NoKnownChecksum),
            r matches Err(e) ==> ((release_rows(self.release.paragraph@) matches Some(rows) && {
                let s = packages_rows(rows, selected_checksum(self.release.paragraph@).unwrap());
                !((forall|j: int|
                    0 <= j < distinct_pkeys(s).len() ==> p_winner(
                        s,
                        #[trigger] distinct_pkeys(s)[j],
                        self.preferred_compression,
                    ) is Some) && key_in(distinct_pkeys(s), (component@, arch@, is_installer)))
            }) ==> e matches DebianError::PackagesIndicesEntryNotFound),
    {
        let entry = self.packages_entry(component, arch, is_installer)?;
        let r = self.resolve_packages_from_entry(resolver, &entry);
        proof {
            if r is Ok {
                let s = packages_rows(
                    release_rows(self.release.paragraph@).unwrap(),
                    selected_checksum(self.release.paragraph@).unwrap(),
                );
                let m = p_winner(
                    s,
                    (component@, arch@, is_installer),
                    self.preferred_compression,
                ).unwrap();
                assert(entry.entry.size == m.0.1 as u64 && entry.entry.digest.algorithm == m.0.2
                    && entry.entry.digest.digest@ == m.0.3 && entry.compression == m.1.3);
                let (raw, paras) = choose|raw: Seq<u8>, paras: Seq<Seq<(Seq<char>, Seq<char>)>>|
                    #![auto]
                    decoded_paragraphs_ok(
                        raw,
                        entry.entry.size,
                        entry.entry.digest.algorithm,
                        entry.entry.digest.digest@,
                        entry.compression,
                        paras,
                    ) && r.unwrap()@.len() == paras.len() && (forall|i: int|
                        0 <= i < paras.len() ==> (#[trigger] r.unwrap()@[i])@ == paras[i]);
                assert(decoded_index_ok_p(raw, m, paras));
            }
        }
        r
    }

    /// Fetch instructions for binary packages.
    ///
    /// `packages_file_filter` chooses which collapsed `Packages` indices
    /// to dereference; `binary_package_filter` chooses which package
    /// paragraphs to emit. `threads` is an upper bound on in-flight
    /// index fetches; this resolver fetches one index at a time, which
    /// satisfies any bound of at least one. Output order is unspecified.
    pub fn resolve_package_fetches<
        R: DataResolver,
        F1: Fn(PackagesFileEntry) -> bool,
        F2: Fn(BinaryPackageControlFile) -> bool,
    >(
        &self,
        resolver: &R,
        packages_file_filter: F1,
        binary_package_filter: F2,
        threads: usize,
    ) -> (r: Result<Vec<BinaryPackageFetch>, DebianError>)
        requires
            threads >= 1,
            forall|e: PackagesFileEntry| #![auto] call_requires(packages_file_filter, (e,)),
            forall|c: BinaryPackageControlFile| #![auto]
                call_requires(binary_package_filter, (c,)),
        ensures
            r matches Ok(v) ==> forall|j: int|
                0 <= j < v@.len() ==> fetch_matches_control(#[trigger] v@[j]),
            r matches Ok(v) ==> forall|j: int|
                0 <= j < v@.len() ==> accepted_binary(
                    binary_package_filter,
                    (#[trigger] v@[j]).control_file@,
                ),
            r is Ok ==> release_rows(self.release.paragraph@) is Some,
            r matches Ok(v) ==> package_fetches_complete(
                packages_file_filter,
                binary_package_filter,
                packages_winners(
                    packages_rows(
                        release_rows(self.release.paragraph@).unwrap(),
                        selected_checksum(self.release.paragraph@).unwrap(),
                    ),
                    self.preferred_compression,
                ),
                v@,
            ),
            r matches Err(e) ==> (selected_checksum(self.release.paragraph@) is None ==> e
                matches DebianError::NoKnownChecksum),
            r matches Err(e) ==> ((release_rows(self.release.paragraph@) matches Some(rows) && {
                let s = packages_rows(rows, selected_checksum(self.release.paragraph@).unwrap());
                !(forall|j: int|
                    0 <= j < distinct_pkeys(s).len() ==> p_winner(
                        s,
                        #[trigger] distinct_pkeys(s)[j],
                        self.preferred_compression,
                    ) is Some)
            }) ==> e matches DebianError::PackagesIndicesEntryNotFound),
    {
        let entries = self.packages_indices_entries_preferred_compression()?;
        let ghost s = packages_rows(
            release_rows(self.release.paragraph@).unwrap(),
            selected_checksum(self.release.paragraph@).unwrap(),
        );
        let ghost winners = packages_winners(s, self.preferred_compression);
        proof {
            assert(winners =~= pmodels(entries@));
        }
        let mut fetches: Vec<BinaryPackageFetch> = Vec::new();
        let ghost mut raws: Seq<Seq<u8>> = Seq::empty();
        let ghost mut gparas: Seq<Seq<Seq<(Seq<char>, Seq<char>)>>> = Seq::empty();
        let ghost mut keeps: Seq<bool> = Seq::empty();
        let n = entries.len();
        let mut i: usize = 0;
        while i < n
            invariant
                n == entries@.len(),
                0 <= i <= n,
                release_rows(self.release.paragraph@) is Some,
                selected_checksum(self.release.paragraph@) is Some,
                s == packages_rows(
                    release_rows(self.release.paragraph@).unwrap(),
                    selected_checksum(self.release.paragraph@).unwrap(),
                ),
                forall|j: int|
                    0 <= j < distinct_pkeys(s).len() ==> p_winner(
                        s,
                        #[trigger] distinct_pkeys(s)[j],
                        self.preferred_compression,
                    ) is Some,
                winners == pmodels(entries@),
                winners.len() == n,
                raws.len() == i && gparas.len() == i && keeps.len() == i,
                forall|e: PackagesFileEntry| #![auto] call_requires(packages_file_filter, (e,)),
                forall|c: BinaryPackageControlFile| #![auto]
                    call_requires(binary_package_filter, (c,)),
                forall|j: int| 0 <= j < fetches@.len() ==> fetch_matches_control(
                    #[trigger] fetches@[j],
                ),
                forall|j: int| 0 <= j < fetches@.len() ==> accepted_binary(
                    binary_package_filter,
                    (#[trigger] fetches@[j]).control_file@,
                ),
                forall|j: int| 0 <= j < i ==> #[trigger] entry_decided(
                    packages_file_filter,
                    winners[j],
                    keeps[j],
                ),
                forall|j: int| 0 <= j < i && keeps[j] ==> #[trigger] decoded_index_ok_p(
                    raws[j],
                    winners[j],
                    gparas[j],
                ),
                forall|j: int| 0 <= j < i && !keeps[j] ==> (#[trigger] gparas[j]).len() == 0,
                forall|j: int, q: int|
                    0 <= j < i && 0 <= q < (#[trigger] gparas[j]).len() ==> paragraph_decided(
                        binary_package_filter,
                        #[trigger] gparas[j][q],
                        fetches@,
                    ),
                forall|k: int| 0 <= k < fetches@.len() ==> #[trigger] fetch_origin(
                    keeps,
                    gparas,
                    i as int,
                    fetches@[k].control_file@,
                ),
            decreases n - i,
        {
            let probe_entry = entries[i].duplicate();
            let ghost ent_g = probe_entry;
            let keep = packages_file_filter(probe_entry);
            proof {
                assert(pmodel(&ent_g) == pmodel(&entries@[i as int]));
                assert(pmodel(&entries@[i as int]) == winners[i as int]);
                assert(call_ensures(packages_file_filter, (ent_g,), keep));
                assert(entry_decided(packages_file_filter, winners[i as int], keep));
            }
            if keep {
                let mut lst = self.resolve_packages_from_entry(resolver, &entries[i])?;
                let ghost (raw_w, paras_w) = choose|
                    raw: Seq<u8>,
                    paras: Seq<Seq<(Seq<char>, Seq<char>)>>,
                |
                    #![auto]
                    decoded_paragraphs_ok(
                        raw,
                        entries@[i as int].entry.size,
                        entries@[i as int].entry.digest.algorithm,
                        entries@[i as int].entry.digest.digest@,
                        entries@[i as int].compression,
                        paras,
                    ) && lst@.len() == paras.len() && (forall|q: int|
                        0 <= q < paras.len() ==> (#[trigger] lst@[q])@ == paras[q]);
                proof {
                    assert(decoded_index_ok_p(raw_w, winners[i as int], paras_w));
                    let raws0 = raws;
                    let gparas0 = gparas;
                    let keeps0 = keeps;
                    raws = raws.push(raw_w);
                    gparas = gparas.push(paras_w);
                    keeps = keeps.push(true);
                    assert forall|j: int| 0 <= j < i implies #[trigger] keeps[j] == keeps0[j]
                        && gparas[j] == gparas0[j] && raws[j] == raws0[j] by {}
                    assert forall|k: int| 0 <= k < fetches@.len() implies #[trigger] fetch_origin(
                        keeps,
                        gparas,
                        i + 1,
                        fetches@[k].control_file@,
                    ) by {
                        assert(fetch_origin(keeps0, gparas0, i as int, fetches@[k].control_file@));
                        lemma_fetch_origin_grows(
                            keeps0,
                            gparas0,
                            i as int,
                            fetches@[k].control_file@,
                            true,
                            paras_w,
                        );
                    }
                }
                while lst.len() > 0
                    invariant
                        n == entries@.len(),
                        0 <= i < n,
                        release_rows(self.release.paragraph@) is Some,
                        selected_checksum(self.release.paragraph@) is Some,
                        s == packages_rows(
                            release_rows(self.release.paragraph@).unwrap(),
                            selected_checksum(self.release.paragraph@).unwrap(),
                        ),
                        forall|j: int|
                            0 <= j < distinct_pkeys(s).len() ==> p_winner(
                                s,
                                #[trigger] distinct_pkeys(s)[j],
                                self.preferred_compression,
                            ) is Some,
                        winners == pmodels(entries@),
                        winners.len() == n,
                        raws.len() == i + 1 && gparas.len() == i + 1 && keeps.len() == i + 1,
                        keeps[i as int] && gparas[i as int] == paras_w,
                        lst@.len() <= paras_w.len(),
                        forall|q: int| 0 <= q < lst@.len() ==> (#[trigger] lst@[q])@ == paras_w[q],
                        forall|c: BinaryPackageControlFile| #![auto]
                            call_requires(binary_package_filter, (c,)),
                        forall|j: int| 0 <= j < fetches@.len() ==> fetch_matches_control(
                            #[trigger] fetches@[j],
                        ),
                        forall|j: int| 0 <= j < fetches@.len() ==> accepted_binary(
                            binary_package_filter,
                            (#[trigger] fetches@[j]).control_file@,
                        ),
                        forall|j: int| 0 <= j < i + 1 ==> #[trigger] entry_decided(
                            packages_file_filter,
                            winners[j],
                            keeps[j],
                        ),
                        forall|j: int| 0 <= j < i + 1 && keeps[j] ==> #[trigger] decoded_index_ok_p(
                            raws[j],
                            winners[j],
                            gparas[j],
                        ),
                        forall|j: int| 0 <= j < i + 1 && !keeps[j] ==> (#[trigger] gparas[j]).len()
                            == 0,
                        forall|j: int, q: int|
                            0 <= j < i + 1 && 0 <= q < (#[trigger] gparas[j]).len() && (j < i || q
                                >= lst@.len()) ==> paragraph_decided(
                                binary_package_filter,
                                #[trigger] gparas[j][q],
                                fetches@,
                            ),
                        forall|k: int| 0 <= k < fetches@.len() ==> #[trigger] fetch_origin(
                            keeps,
                            gparas,
                            i + 1,
                            fetches@[k].control_file@,
                        ),
                    decreases lst@.len(),
                {
                    let ghost qp = lst@.len() - 1;
                    let cf = lst.pop().unwrap();
                    proof {
                        assert(cf@ == paras_w[qp]);
                    }
                    let probe = cf.duplicate();
                    let ghost probe_g = probe;
                    let accept = binary_package_filter(probe);
                    if accept {
                        let f = binary_package_fetch(cf)?;
                        let ghost fm = f;
                        let ghost old_fetches = fetches@;
                        fetches.push(f);
                        proof {
                            assert(call_ensures(binary_package_filter, (probe_g,), true)
                                && probe_g@ == fm.control_file@);
                            assert(accepted_binary(binary_package_filter, fm.control_file@));
                            assert(fetches@[old_fetches.len() as int].control_file@
                                == paras_w[qp]);
                            assert(paragraph_decided(
                                binary_package_filter,
                                paras_w[qp],
                                fetches@,
                            ));
                            assert forall|k: int| 0 <= k < fetches@.len() implies
                                #[trigger] fetch_origin(
                                keeps,
                                gparas,
                                i + 1,
                                fetches@[k].control_file@,
                            ) by {
                                if k < old_fetches.len() {
                                    assert(fetches@[k] == old_fetches[k]);
                                    assert(fetch_origin(
                                        keeps,
                                        gparas,
                                        i + 1,
                                        old_fetches[k].control_file@,
                                    ));
                                } else {
                                    assert(fetches@[k].control_file@ == paras_w[qp]);
                                    assert(0 <= i < i + 1 && keeps[i as int] && 0 <= qp
                                        < gparas[i as int].len() && gparas[i as int][qp]
                                        == fetches@[k].control_file@);
                                    assert(fetch_origin(
                                        keeps,
                                        gparas,
                                        i + 1,
                                        fetches@[k].control_file@,
                                    ));
                                }
                            }
                            assert forall|j: int, q: int|
                                0 <= j < i + 1 && 0 <= q < (#[trigger] gparas[j]).len() && (j < i
                                    || q >= lst@.len()) implies paragraph_decided(
                                binary_package_filter,
                                #[trigger] gparas[j][q],
                                fetches@,
                            ) by {
                                if !(j == i && q == qp) {
                                    lemma_paragraph_decided_grows(
                                        binary_package_filter,
                                        gparas[j][q],
                                        old_fetches,
                                        fm,
                                    );
                                    assert(fetches@ =~= old_fetches.push(fm));
                                }
                            }
                        }
                    } else {
                        proof {
                            assert(call_ensures(binary_package_filter, (probe_g,), false)
                                && probe_g@ == paras_w[qp]);
                            assert(paragraph_decided(
                                binary_package_filter,
                                paras_w[qp],
                                fetches@,
                            ));
                        }
                    }
                }
            } else {
                proof {
                    let raws0 = raws;
                    let gparas0 = gparas;
                    let keeps0 = keeps;
                    raws = raws.push(Seq::empty());
                    gparas = gparas.push(Seq::empty());
                    keeps = keeps.push(false);
                    assert forall|j: int| 0 <= j < i implies #[trigger] keeps[j] == keeps0[j]
                        && gparas[j] == gparas0[j] && raws[j] == raws0[j] by {}
                    assert(gparas[i as int].len() == 0);
                    assert forall|k: int| 0 <= k < fetches@.len() implies #[trigger] fetch_origin(
                        keeps,
                        gparas,
                        i + 1,
                        fetches@[k].control_file@,
                    ) by {
                        assert(fetch_origin(keeps0, gparas0, i as int, fetches@[k].control_file@));
                        lemma_fetch_origin_grows(
                            keeps0,
                            gparas0,
                            i as int,
                            fetches@[k].control_file@,
                            false,
                            Seq::empty(),
                        );
                    }
                }
            }
            i += 1;
        }
        proof {
            assert(package_fetch_plan(
                packages_file_filter,
                binary_package_filter,
                winners,
                fetches@,
                raws,
                gparas,
                keeps,
            ));
        }
        Ok(fetches)
    }
}

/// Some paragraph with this content was accepted by the filter.
pub open spec fn accepted_binary<F: Fn(BinaryPackageControlFile) -> bool>(
    filter: F,
    p: Seq<(Seq<char>, Seq<char>)>,
) -> bool {
    exists|c: BinaryPackageControlFile|
        #![auto]
        call_ensures(filter, (c,), true) && c@ == p
}

/// Some paragraph with this content was accepted by the filter.
pub open spec fn accepted_source<F: Fn(DebianSourceControlFile) -> bool>(
    filter: F,
    p: Seq<(Seq<char>, Seq<char>)>,
) -> bool {
    exists|c: DebianSourceControlFile|
        #![auto]
        call_ensures(filter, (c,), true) && c@ == p
}

/// The collapse winners, in distinct-key order.
pub open spec fn packages_winners(
    s: Seq<((Seq<char>, int, ChecksumType, Seq<u8>), (Seq<char>, Seq<char>, bool, Compression))>,
    preferred: Compression,
) -> Seq<((Seq<char>, int, ChecksumType, Seq<u8>), (Seq<char>, Seq<char>, bool, Compression))> {
    Seq::new(distinct_pkeys(s).len(), |j: int| p_winner(s, distinct_pkeys(s)[j], preferred).unwrap())
}

/// The file filter decided a collapse winner with model `w`.
pub open spec fn entry_decided<F1: Fn(PackagesFileEntry) -> bool>(
    packages_file_filter: F1,
    w: ((Seq<char>, int, ChecksumType, Seq<u8>), (Seq<char>, Seq<char>, bool, Compression)),
    keep: bool,
) -> bool {
    exists|ent: PackagesFileEntry|
        #![auto]
        call_ensures(packages_file_filter, (ent,), keep) && pmodel(&ent) == w
}

/// The package filter decided the paragraph `p`, and an accepted `p`
/// contributed a fetch to `v`.
pub open spec fn paragraph_decided<F2: Fn(BinaryPackageControlFile) -> bool>(
    binary_package_filter: F2,
    p: Seq<(Seq<char>, Seq<char>)>,
    v: Seq<BinaryPackageFetch>,
) -> bool {
    exists|c: BinaryPackageControlFile, b: bool|
        #![auto]
        call_ensures(binary_package_filter, (c,), b) && c@ == p && (b ==> exists|k: int|
            0 <= k < v.len() && (#[trigger] v[k]).control_file@ == p)
}

/// Growing the output preserves a paragraph's decision record.
pub proof fn lemma_paragraph_decided_grows<F2: Fn(BinaryPackageControlFile) -> bool>(
    binary_package_filter: F2,
    p: Seq<(Seq<char>, Seq<char>)>,
    v: Seq<BinaryPackageFetch>,
    x: BinaryPackageFetch,
)
    requires
        paragraph_decided(binary_package_filter, p, v),
    ensures
        paragraph_decided(binary_package_filter, p, v.push(x)),
{
    let (c, b) = choose|c: BinaryPackageControlFile, b: bool|
        #![auto]
        call_ensures(binary_package_filter, (c,), b) && c@ == p && (b ==> exists|k: int|
            0 <= k < v.len() && (#[trigger] v[k]).control_file@ == p);
    if b {
        let k = choose|k: int| 0 <= k < v.len() && (#[trigger] v[k]).control_file@ == p;
        assert(v.push(x)[k].control_file@ == p);
    }
    assert(call_ensures(binary_package_filter, (c,), b) && c@ == p && (b ==> exists|k: int|
        0 <= k < v.push(x).len() && (#[trigger] v.push(x)[k]).control_file@ == p));
}

/// The paragraph content `p` occurs in the paragraph lists of one of
/// the first `hi` dereferenced winners.
pub open spec fn fetch_origin(
    keeps: Seq<bool>,
    paras: Seq<Seq<Seq<(Seq<char>, Seq<char>)>>>,
    hi: int,
    p: Seq<(Seq<char>, Seq<char>)>,
) -> bool {
    exists|j: int, q: int|
        #![auto]
        0 <= j < hi && keeps[j] && 0 <= q < paras[j].len() && paras[j][q] == p
}

/// Recording one more winner preserves every origin.
pub proof fn lemma_fetch_origin_grows(
    keeps: Seq<bool>,
    paras: Seq<Seq<Seq<(Seq<char>, Seq<char>)>>>,
    hi: int,
    p: Seq<(Seq<char>, Seq<char>)>,
    keep2: bool,
    paras2: Seq<Seq<(Seq<char>, Seq<char>)>>,
)
    requires
        fetch_origin(keeps, paras, hi, p),
        hi <= keeps.len(),
        hi <= paras.len(),
    ensures
        fetch_origin(keeps.push(keep2), paras.push(paras2), hi + 1, p),
{
    let (j0, q0) = choose|j: int, q: int|
        #![auto]
        0 <= j < hi && keeps[j] && 0 <= q < paras[j].len() && paras[j][q] == p;
    assert(0 <= j0 < hi + 1 && keeps.push(keep2)[j0] && 0 <= q0 < paras.push(paras2)[j0].len()
        && paras.push(paras2)[j0][q0] == p);
}

/// A complete account of one binary-package resolution: per collapse
/// winner, the file filter's decision; for each dereferenced winner, a
/// verified decoded paragraph list; every paragraph of a dereferenced
/// winner decided by the package filter, accepted ones contributing a
/// fetch; and every fetch coming from such a paragraph.
pub open spec fn package_fetch_plan<
    F1: Fn(PackagesFileEntry) -> bool,
    F2: Fn(BinaryPackageControlFile) -> bool,
>(
    packages_file_filter: F1,
    binary_package_filter: F2,
    winners: Seq<((Seq<char>, int, ChecksumType, Seq<u8>), (Seq<char>, Seq<char>, bool, Compression))>,
    v: Seq<BinaryPackageFetch>,
    raws: Seq<Seq<u8>>,
    paras: Seq<Seq<Seq<(Seq<char>, Seq<char>)>>>,
    keeps: Seq<bool>,
) -> bool {
    &&& raws.len() == winners.len()
    &&& paras.len() == winners.len()
    &&& keeps.len() == winners.len()
    &&& forall|j: int| 0 <= j < winners.len() ==> #[trigger] entry_decided(
        packages_file_filter,
        winners[j],
        keeps[j],
    )
    &&& forall|j: int| 0 <= j < winners.len() && keeps[j] ==> #[trigger] decoded_index_ok_p(
        raws[j],
        winners[j],
        paras[j],
    )
    &&& forall|j: int| 0 <= j < winners.len() && !keeps[j] ==> (#[trigger] paras[j]).len() == 0
    &&& forall|j: int, q: int|
        0 <= j < winners.len() && 0 <= q < (#[trigger] paras[j]).len() ==> paragraph_decided(
            binary_package_filter,
            #[trigger] paras[j][q],
            v,
        )
    &&& forall|k: int| 0 <= k < v.len() ==> #[trigger] fetch_origin(
        keeps,
        paras,
        winners.len() as int,
        v[k].control_file@,
    )
}

/// There is a complete account of the resolution: the output holds
/// exactly the fetches of the filter-accepted paragraphs of the
/// filter-accepted collapse winners.
pub open spec fn package_fetches_complete<
    F1: Fn(PackagesFileEntry) -> bool,
    F2: Fn(BinaryPackageControlFile) -> bool,
>(
    packages_file_filter: F1,
    binary_package_filter: F2,
    winners: Seq<((Seq<char>, int, ChecksumType, Seq<u8>), (Seq<char>, Seq<char>, bool, Compression))>,
    v: Seq<BinaryPackageFetch>,
) -> bool {
    exists|raws: Seq<Seq<u8>>, paras: Seq<Seq<Seq<(Seq<char>, Seq<char>)>>>, keeps: Seq<bool>|
        #[trigger] package_fetch_plan(
            packages_file_filter,
            binary_package_filter,
            winners,
            v,
            raws,
            paras,
            keeps,
        )
}

/// The fetch's path, size and digest come from the fields of its own
/// control paragraph, with the digest field chosen in preferred order.
pub open spec fn fetch_matches_control(f: BinaryPackageFetch) -> bool {
    &&& lookup_field(f.control_file@, "Filename"@) == Some(f.path@)
    &&& lookup_field(f.control_file@, "Size"@) matches Some(sv) && dec_val(sv) == f.size as int
    &&& pkg_digest_choice(f.control_file@) matches Some(ch) && ch.0 == f.digest.algorithm
        && hex_decode_spec(ch.1) == Some(f.digest.digest@)
}

// ---------------------------------------------------------------------------
// Source package files
// ---------------------------------------------------------------------------

/// The paragraph field carrying a source package's per-file digests for
/// an algorithm.
pub open spec fn source_checksum_field(t: ChecksumType) -> Seq<char> {
    match t {
        ChecksumType::Md5 => "Files"@,
        ChecksumType::Sha1 => "Checksums-Sha1"@,
        ChecksumType::Sha256 => "Checksums-Sha256"@,
    }
}

impl DebianSourceControlFile {
    /// The fetches for the files of this source package, under the given
    /// checksum flavor: each row of the matching checksums table, with
    /// its path under the package's `Directory`.
    pub fn file_fetches(&self, checksum: ChecksumType) -> (r: Result<
        Vec<DebianSourceControlFileFetch>,
        DebianError,
    >)
        ensures
            r is Ok <==> (lookup_field(self@, source_checksum_field(checksum)) matches Some(value)
                && lookup_field(self@, "Directory"@) is Some && table_spec(value, checksum)
                is Some),
            r matches Ok(v) ==> {
                let value = lookup_field(self@, source_checksum_field(checksum)).unwrap();
                let dir = lookup_field(self@, "Directory"@).unwrap();
                let rows = table_spec(value, checksum).unwrap();
                &&& v@.len() == rows.len()
                &&& forall|i: int| 0 <= i < rows.len() ==> {
                    &&& (#[trigger] v@[i]).path@ == dir + "/"@ + rows[i].0
                    &&& v@[i].size as int == rows[i].1
                    &&& v@[i].digest.algorithm == checksum
                    &&& v@[i].digest.digest@ == rows[i].2
                }
            },
    {
        proof {
            reveal_strlit("Files");
            reveal_strlit("Checksums-Sha1");
            reveal_strlit("Checksums-Sha256");
            reveal_strlit("Directory");
        }
        let field_name = match checksum {
            ChecksumType::Md5 => "Files",
            ChecksumType::Sha1 => "Checksums-Sha1",
            ChecksumType::Sha256 => "Checksums-Sha256",
        };
        let value = self.paragraph.required_field(field_name)?;
        let dir = self.paragraph.required_field("Directory")?;
        let entries = crate::release::parse_checksum_table(value.as_str(), checksum)?;
        let mut out: Vec<DebianSourceControlFileFetch> = Vec::new();
        let n = entries.len();
        let mut i: usize = 0;
        while i < n
            invariant
                n == entries@.len(),
                dir@ == lookup_field(self@, "Directory"@).unwrap(),
                0 <= i <= n,
                out@.len() == i,
                forall|j: int| 0 <= j < i ==> {
                    &&& (#[trigger] out@[j]).path@ == dir@ + "/"@ + entries@[j].path@
                    &&& out@[j].size == entries@[j].size
                    &&& out@[j].digest.algorithm == entries@[j].digest.algorithm
                    &&& out@[j].digest.digest@ == entries@[j].digest.digest@
                },
            decreases n - i,
        {
            let e = &entries[i];
            let path = dir.clone().concat("/").concat(e.path.as_str());
            out.push(
                DebianSourceControlFileFetch {
                    path,
                    size: e.size,
                    digest: e.digest.duplicate(),
                },
            );
            i += 1;
        }
        Ok(out)
    }
}

impl ReleaseReader {
    /// Fetch a `Sources` index (via `by-hash` when the Release file says
    /// so), verify it, decode it, and parse its source paragraphs.
    pub fn resolve_sources_from_entry<R: DataResolver>(
        &self,
        resolver: &R,
        entry: &SourcesFileEntry,
    ) -> (r: Result<Vec<DebianSourceControlFile>, DebianError>)
        ensures
            r matches Ok(v) ==> exists|raw: Seq<u8>, paras: Seq<Seq<(Seq<char>, Seq<char>)>>|
                #![auto]
                {
                    &&& decoded_paragraphs_ok(
                        raw,
                        entry.entry.size,
                        entry.entry.digest.algorithm,
                        entry.entry.digest.digest@,
                        entry.compression,
                        paras,
                    )
                    &&& v@.len() == paras.len()
                    &&& forall|i: int| 0 <= i < paras.len() ==> (#[trigger] v@[i])@ == paras[i]
                },
    {
        let path = self.index_fetch_path(&entry.entry);
        let data = get_path_decoded_with_digest_verification(
            resolver,
            path.as_str(),
            entry.compression,
            entry.entry.size,
            &entry.entry.digest,
        )?;
        let ghost dv = data@;
        let text = bytes_to_string(data)?;
        let paras = crate::control::parse_paragraphs(text.as_str())?;
        let ghost paras_model = paras.deep_view();
        proof {
            let raw_w = choose|raw: Seq<u8>|
                #![auto]
                raw.len() == entry.entry.size && crate::checksum::digest_of(
                    entry.entry.digest.algorithm,
                    raw,
                ) == entry.entry.digest.digest@ && crate::compression::decompress_spec(
                    entry.compression,
                    raw,
                ) == Some(dv);
            assert(decoded_paragraphs_ok(
                raw_w,
                entry.entry.size,
                entry.entry.digest.algorithm,
                entry.entry.digest.digest@,
                entry.compression,
                paras_model,
            ));
        }
        let mut paras = paras;
        let mut out: Vec<DebianSourceControlFile> = Vec::new();
        let n = paras.len();
        let mut i: usize = 0;
        while i < n
            invariant
                n == paras_model.len(),
                paras@.len() == n,
                paras.deep_view() == paras_model,
                0 <= i <= n,
                out@.len() == i,
                forall|j: int| 0 <= j < i ==> (#[trigger] out@[j])@ == paras_model[j],
            decreases n - i,
        {
            let p = paras[i].duplicate();
            proof {
                assert(paras.deep_view()[i as int] == paras@[i as int]@);
            }
            out.push(DebianSourceControlFile { paragraph: p });
            i += 1;
        }
        Ok(out)
    }

    /// Resolve the collapsed `Sources` entry for a component, then fetch
    /// and parse it: the result is the paragraph list of a verified,
    /// decoded index stream for the component's winner.
    pub fn resolve_sources<R: DataResolver>(&self, resolver: &R, component: &str) -> (r: Result<
        Vec<DebianSourceControlFile>,
        DebianError,
    >)
        ensures
            r matches Ok(v) ==> (release_rows(self.release.paragraph@) is Some && {
                let s = sources_rows(
                    release_rows(self.release.paragraph@).unwrap(),
                    selected_checksum(self.release.paragraph@).unwrap(),
                );
                &&& s_winner(s, component@, self.preferred_compression) matches Some(m)
                &&& exists|raw: Seq<u8>, paras: Seq<Seq<(Seq<char>, Seq<char>)>>|
                    {
                        &&& #[trigger] decoded_index_ok_s(raw, m, paras)
                        &&& v@.len() == paras.len()
                        &&& forall|i: int| 0 <= i < paras.len() ==> (#[trigger] v@[i])@ == paras[i]
                    }
            }),
            r matches Err(e) ==> (selected_checksum(self.release.paragraph@) is None ==> e
                matches DebianError::NoKnownChecksum),
            r matches Err(e) ==> ((release_rows(self.release.paragraph@) matches Some(rows) && {
                let s = sources_rows(rows, selected_checksum(self.release.paragraph@).unwrap());
                !((forall|j: int|
                    0 <= j < distinct_skeys(s).len() ==> s_winner(
                        s,
                        #[trigger] distinct_skeys(s)[j],
                        self.preferred_compression,
                    ) is Some) && skey_in(distinct_skeys(s), component@))
            }) ==> e matches DebianError::SourcesIndicesEntryNotFound),
    {
        let entry = self.sources_entry(component)?;
        let r = self.resolve_sources_from_entry(resolver, &entry);
        proof {
            if r is Ok {
                let s = sources_rows(
                    release_rows(self.release.paragraph@).unwrap(),
                    selected_checksum(self.release.paragraph@).unwrap(),
                );
                let m = s_winner(s, component@, self.preferred_compression).unwrap();
                assert(entry.entry.size == m.0.1 as u64 && entry.entry.digest.algorithm == m.0.2
                    && entry.entry.digest.digest@ == m.0.3 && entry.compression == m.1.1);
                let (raw, paras) = choose|raw: Seq<u8>, paras: Seq<Seq<(Seq<char>, Seq<char>)>>|
                    #![auto]
                    decoded_paragraphs_ok(
                        raw,
                        entry.entry.size,
                        entry.entry.digest.algorithm,
                        entry.entry.digest.digest@,
                        entry.compression,
                        paras,
                    ) && r.unwrap()@.len() == paras.len() && (forall|i: int|
                        0 <= i < paras.len() ==> (#[trigger] r.unwrap()@[i])@ == paras[i]);
                assert(decoded_index_ok_s(raw, m, paras));
            }
        }
        r
    }

    /// Fetch instructions for source package files.
    ///
    /// `sources_file_filter` chooses which collapsed `Sources` indices to
    /// dereference; `source_package_filter` chooses which source
    /// paragraphs to expand. Each chosen paragraph yields one fetch per
    /// file of its checksums table under the negotiated flavor.
    /// `threads` bounds in-flight index fetches; this resolver fetches
    /// one at a time. Output order is unspecified.
    pub fn resolve_source_fetches<
        R: DataResolver,
        F1: Fn(SourcesFileEntry) -> bool,
        F2: Fn(DebianSourceControlFile) -> bool,
    >(
        &self,
        resolver: &R,
        sources_file_filter: F1,
        source_package_filter: F2,
        threads: usize,
    ) -> (r: Result<Vec<SourcePackageFetch>, DebianError>)
        requires
            threads >= 1,
            forall|e: SourcesFileEntry| #![auto] call_requires(sources_file_filter, (e,)),
            forall|c: DebianSourceControlFile| #![auto] call_requires(source_package_filter, (c,)),
        ensures
            r matches Ok(v) ==> (selected_checksum(self.release.paragraph@) matches Some(t)
                && forall|j: int|
                0 <= j < v@.len() ==> source_fetch_matches(#[trigger] v@[j], t)),
            r matches Ok(v) ==> forall|j: int|
                0 <= j < v@.len() ==> accepted_source(
                    source_package_filter,
                    (#[trigger] v@[j]).control_file@,
                ),
            r is Ok ==> release_rows(self.release.paragraph@) is Some,
            r matches Ok(v) ==> source_fetches_complete(
                sources_file_filter,
                source_package_filter,
                selected_checksum(self.release.paragraph@).unwrap(),
                sources_winners(
                    sources_rows(
                        release_rows(self.release.paragraph@).unwrap(),
                        selected_checksum(self.release.paragraph@).unwrap(),
                    ),
                    self.preferred_compression,
                ),
                v@,
            ),
            r matches Err(e) ==> (selected_checksum(self.release.paragraph@) is None ==> e
                matches DebianError::NoKnownChecksum),
            r matches Err(e) ==> ((release_rows(self.release.paragraph@) matches Some(rows) && {
                let s = sources_rows(rows, selected_checksum(self.release.paragraph@).unwrap());
                !(forall|j: int|
                    0 <= j < distinct_skeys(s).len() ==> s_winner(
                        s,
                        #[trigger] distinct_skeys(s)[j],
                        self.preferred_compression,
                    ) is Some)
            }) ==> e matches DebianError::SourcesIndicesEntryNotFound),
    {
        let t = self.retrieve_checksum()?;
        let entries = self.sources_indices_entries_preferred_compression()?;
        let ghost s = sources_rows(
            release_rows(self.release.paragraph@).unwrap(),
            selected_checksum(self.release.paragraph@).unwrap(),
        );
        let ghost winners = sources_winners(s, self.preferred_compression);
        proof {
            assert(winners =~= smodels(entries@));
        }
        let mut fetches: Vec<SourcePackageFetch> = Vec::new();
        let ghost mut raws: Seq<Seq<u8>> = Seq::empty();
        let ghost mut gparas: Seq<Seq<Seq<(Seq<char>, Seq<char>)>>> = Seq::empty();
        let ghost mut keeps: Seq<bool> = Seq::empty();
        let n = entries.len();
        let mut i: usize = 0;
        while i < n
            invariant
                n == entries@.len(),
                Some(t) == selected_checksum(self.release.paragraph@),
                0 <= i <= n,
                release_rows(self.release.paragraph@) is Some,
                selected_checksum(self.release.paragraph@) is Some,
                s == sources_rows(
                    release_rows(self.release.paragraph@).unwrap(),
                    selected_checksum(self.release.paragraph@).unwrap(),
                ),
                forall|j: int|
                    0 <= j < distinct_skeys(s).len() ==> s_winner(
                        s,
                        #[trigger] distinct_skeys(s)[j],
                        self.preferred_compression,
                    ) is Some,
                winners == smodels(entries@),
                winners.len() == n,
                raws.len() == i && gparas.len() == i && keeps.len() == i,
                forall|e: SourcesFileEntry| #![auto] call_requires(sources_file_filter, (e,)),
                forall|c: DebianSourceControlFile| #![auto]
                    call_requires(source_package_filter, (c,)),
                forall|j: int| 0 <= j < fetches@.len() ==> source_fetch_matches(
                    #[trigger] fetches@[j],
                    t,
                ),
                forall|j: int| 0 <= j < fetches@.len() ==> accepted_source(
                    source_package_filter,
                    (#[trigger] fetches@[j]).control_file@,
                ),
                forall|j: int| 0 <= j < i ==> #[trigger] s_entry_decided(
                    sources_file_filter,
                    winners[j],
                    keeps[j],
                ),
                forall|j: int| 0 <= j < i && keeps[j] ==> #[trigger] decoded_index_ok_s(
                    raws[j],
                    winners[j],
                    gparas[j],
                ),
                forall|j: int| 0 <= j < i && !keeps[j] ==> (#[trigger] gparas[j]).len() == 0,
                forall|j: int, q: int|
                    0 <= j < i && 0 <= q < (#[trigger] gparas[j]).len() ==> source_paragraph_decided(
                        source_package_filter,
                        #[trigger] gparas[j][q],
                        t,
                        fetches@,
                    ),
                forall|k: int| 0 <= k < fetches@.len() ==> #[trigger] fetch_origin(
                    keeps,
                    gparas,
                    i as int,
                    fetches@[k].control_file@,
                ),
            decreases n - i,
        {
            let probe_entry = entries[i].duplicate();
            let ghost ent_g = probe_entry;
            let keep = sources_file_filter(probe_entry);
            proof {
                assert(smodel(&ent_g) == smodel(&entries@[i as int]));
                assert(smodel(&entries@[i as int]) == winners[i as int]);
                assert(call_ensures(sources_file_filter, (ent_g,), keep));
                assert(s_entry_decided(sources_file_filter, winners[i as int], keep));
            }
            if keep {
                let mut lst = self.resolve_sources_from_entry(resolver, &entries[i])?;
                let ghost (raw_w, paras_w) = choose|
                    raw: Seq<u8>,
                    paras: Seq<Seq<(Seq<char>, Seq<char>)>>,
                |
                    #![auto]
                    decoded_paragraphs_ok(
                        raw,
                        entries@[i as int].entry.size,
                        entries@[i as int].entry.digest.algorithm,
                        entries@[i as int].entry.digest.digest@,
                        entries@[i as int].compression,
                        paras,
                    ) && lst@.len() == paras.len() && (forall|q: int|
                        0 <= q < paras.len() ==> (#[trigger] lst@[q])@ == paras[q]);
                proof {
                    assert(decoded_index_ok_s(raw_w, winners[i as int], paras_w));
                    let raws0 = raws;
                    let gparas0 = gparas;
                    let keeps0 = keeps;
                    raws = raws.push(raw_w);
                    gparas = gparas.push(paras_w);
                    keeps = keeps.push(true);
                    assert forall|j: int| 0 <= j < i implies #[trigger] keeps[j] == keeps0[j]
                        && gparas[j] == gparas0[j] && raws[j] == raws0[j] by {}
                    assert forall|k: int| 0 <= k < fetches@.len() implies #[trigger] fetch_origin(
                        keeps,
                        gparas,
                        i + 1,
                        fetches@[k].control_file@,
                    ) by {
                        assert(fetch_origin(keeps0, gparas0, i as int, fetches@[k].control_file@));
                        lemma_fetch_origin_grows(
                            keeps0,
                            gparas0,
                            i as int,
                            fetches@[k].control_file@,
                            true,
                            paras_w,
                        );
                    }
                }
                while lst.len() > 0
                    invariant
                        n == entries@.len(),
                        Some(t) == selected_checksum(self.release.paragraph@),
                        0 <= i < n,
                        release_rows(self.release.paragraph@) is Some,
                        selected_checksum(self.release.paragraph@) is Some,
                        s == sources_rows(
                            release_rows(self.release.paragraph@).unwrap(),
                            selected_checksum(self.release.paragraph@).unwrap(),
                        ),
                        forall|j: int|
                            0 <= j < distinct_skeys(s).len() ==> s_winner(
                                s,
                                #[trigger] distinct_skeys(s)[j],
                                self.preferred_compression,
                            ) is Some,
                        winners == smodels(entries@),
                        winners.len() == n,
                        raws.len() == i + 1 && gparas.len() == i + 1 && keeps.len() == i + 1,
                        keeps[i as int] && gparas[i as int] == paras_w,
                        lst@.len() <= paras_w.len(),
                        forall|q: int| 0 <= q < lst@.len() ==> (#[trigger] lst@[q])@ == paras_w[q],
                        forall|c: DebianSourceControlFile| #![auto]
                            call_requires(source_package_filter, (c,)),
                        forall|j: int| 0 <= j < fetches@.len() ==> source_fetch_matches(
                            #[trigger] fetches@[j],
                            t,
                        ),
                        forall|j: int| 0 <= j < fetches@.len() ==> accepted_source(
                            source_package_filter,
                            (#[trigger] fetches@[j]).control_file@,
                        ),
                        forall|j: int| 0 <= j < i + 1 ==> #[trigger] s_entry_decided(
                            sources_file_filter,
                            winners[j],
                            keeps[j],
                        ),
                        forall|j: int| 0 <= j < i + 1 && keeps[j] ==> #[trigger] decoded_index_ok_s(
                            raws[j],
                            winners[j],
                            gparas[j],
                        ),
                        forall|j: int| 0 <= j < i + 1 && !keeps[j] ==> (#[trigger] gparas[j]).len()
                            == 0,
                        forall|j: int, q: int|
                            0 <= j < i + 1 && 0 <= q < (#[trigger] gparas[j]).len() && (j < i || q
                                >= lst@.len()) ==> source_paragraph_decided(
                                source_package_filter,
                                #[trigger] gparas[j][q],
                                t,
                                fetches@,
                            ),
                        forall|k: int| 0 <= k < fetches@.len() ==> #[trigger] fetch_origin(
                            keeps,
                            gparas,
                            i + 1,
                            fetches@[k].control_file@,
                        ),
                    decreases lst@.len(),
                {
                    let ghost qp = lst@.len() - 1;
                    let cf = lst.pop().unwrap();
                    proof {
                        assert(cf@ == paras_w[qp]);
                    }
                    let probe = cf.duplicate();
                    let ghost probe_g = probe;
                    let accept = source_package_filter(probe);
                    if accept {
                        let mut files = cf.file_fetches(t)?;
                        let ghost rows = table_spec(
                            lookup_field(cf@, source_checksum_field(t)).unwrap(),
                            t,
                        ).unwrap();
                        proof {
                            assert(files@.len() == rows.len());
                        }
                        while files.len() > 0
                            invariant
                                Some(t) == selected_checksum(self.release.paragraph@),
                                0 <= i < n,
                                release_rows(self.release.paragraph@) is Some,
                                selected_checksum(self.release.paragraph@) is Some,
                                s == sources_rows(
                                    release_rows(self.release.paragraph@).unwrap(),
                                    selected_checksum(self.release.paragraph@).unwrap(),
                                ),
                                forall|j: int|
                                    0 <= j < distinct_skeys(s).len() ==> s_winner(
                                        s,
                                        #[trigger] distinct_skeys(s)[j],
                                        self.preferred_compression,
                                    ) is Some,
                                winners.len() == n,
                                raws.len() == i + 1 && gparas.len() == i + 1 && keeps.len() == i
                                    + 1,
                                keeps[i as int] && gparas[i as int] == paras_w,
                                call_ensures(source_package_filter, (probe_g,), true),
                                probe_g@ == cf@,
                                cf@ == paras_w[qp],
                                0 <= qp < paras_w.len(),
                                qp == lst@.len(),
                                lst@.len() <= paras_w.len(),
                                lookup_field(cf@, source_checksum_field(t)) is Some,
                                lookup_field(cf@, "Directory"@) is Some,
                                table_spec(
                                    lookup_field(cf@, source_checksum_field(t)).unwrap(),
                                    t,
                                ) == Some(rows),
                                files@.len() <= rows.len(),
                                forall|ri: int| 0 <= ri < files@.len() ==> source_row_match(
                                    cf@,
                                    t,
                                    ri,
                                    #[trigger] files@[ri],
                                ),
                                forall|ri: int|
                                    files@.len() <= ri < rows.len() ==> #[trigger] row_fetched(
                                        cf@,
                                        t,
                                        ri,
                                        fetches@,
                                    ),
                                forall|j: int| 0 <= j < fetches@.len() ==> source_fetch_matches(
                                    #[trigger] fetches@[j],
                                    t,
                                ),
                                forall|j: int| 0 <= j < fetches@.len() ==> accepted_source(
                                    source_package_filter,
                                    (#[trigger] fetches@[j]).control_file@,
                                ),
                                forall|j: int, q: int|
                                    0 <= j < i + 1 && 0 <= q < (#[trigger] gparas[j]).len() && (j
                                        < i || q > qp) ==> source_paragraph_decided(
                                        source_package_filter,
                                        #[trigger] gparas[j][q],
                                        t,
                                        fetches@,
                                    ),
                                forall|k: int| 0 <= k < fetches@.len() ==> #[trigger] fetch_origin(
                                    keeps,
                                    gparas,
                                    i + 1,
                                    fetches@[k].control_file@,
                                ),
                            decreases files@.len(),
                        {
                            let ghost rp = files@.len() - 1;
                            let f = files.pop().unwrap();
                            proof {
                                assert(source_row_match(cf@, t, rp, f));
                            }
                            let entry_cf = cf.duplicate();
                            let ghost old_fetches = fetches@;
                            fetches.push(SourcePackageFetch { control_file: entry_cf, fetch: f });
                            let ghost fm = fetches@.last();
                            proof {
                                assert(fm.control_file@ == cf@ && fm.fetch == f);
                                assert(accepted_source(
                                    source_package_filter,
                                    fm.control_file@,
                                ));
                                assert(source_file_row_ok(cf@, t, f)) by {
                                    assert(0 <= rp < rows.len() && f.path@ == lookup_field(
                                        cf@,
                                        "Directory"@,
                                    ).unwrap() + "/"@ + rows[rp].0 && f.size as int == rows[rp].1
                                        && f.digest.algorithm == t && f.digest.digest@
                                        == rows[rp].2);
                                }
                                assert(source_fetch_matches(fm, t));
                                assert(0 <= old_fetches.len() < fetches@.len() && fetches@[
                                    old_fetches.len() as int
                                ].control_file@ == cf@ && source_row_match(cf@, t, rp, fetches@[
                                    old_fetches.len() as int
                                ].fetch));
                                assert(row_fetched(cf@, t, rp, fetches@));
                                assert forall|ri: int|
                                    files@.len() < ri < rows.len() implies #[trigger] row_fetched(
                                    cf@,
                                    t,
                                    ri,
                                    fetches@,
                                ) by {
                                    lemma_row_fetched_grows(cf@, t, ri, old_fetches, fm);
                                    assert(fetches@ =~= old_fetches.push(fm));
                                }
                                assert forall|j: int, q: int|
                                    0 <= j < i + 1 && 0 <= q < (#[trigger] gparas[j]).len() && (j
                                        < i || q > qp) implies source_paragraph_decided(
                                    source_package_filter,
                                    #[trigger] gparas[j][q],
                                    t,
                                    fetches@,
                                ) by {
                                    lemma_source_paragraph_decided_grows(
                                        source_package_filter,
                                        gparas[j][q],
                                        t,
                                        old_fetches,
                                        fm,
                                    );
                                    assert(fetches@ =~= old_fetches.push(fm));
                                }
                                assert forall|k: int| 0 <= k < fetches@.len() implies
                                    #[trigger] fetch_origin(
                                    keeps,
                                    gparas,
                                    i + 1,
                                    fetches@[k].control_file@,
                                ) by {
                                    if k < old_fetches.len() {
                                        assert(fetches@[k] == old_fetches[k]);
                                        assert(fetch_origin(
                                            keeps,
                                            gparas,
                                            i + 1,
                                            old_fetches[k].control_file@,
                                        ));
                                    } else {
                                        assert(fetches@[k].control_file@ == paras_w[qp]);
                                        assert(0 <= i < i + 1 && keeps[i as int] && 0 <= qp
                                            < gparas[i as int].len() && gparas[i as int][qp]
                                            == fetches@[k].control_file@);
                                        assert(fetch_origin(
                                            keeps,
                                            gparas,
                                            i + 1,
                                            fetches@[k].control_file@,
                                        ));
                                    }
                                }
                            }
                        }
                        proof {
                            assert(rows_covered(cf@, t, fetches@));
                            assert(source_paragraph_decided(
                                source_package_filter,
                                paras_w[qp],
                                t,
                                fetches@,
                            ));
                        }
                    } else {
                        proof {
                            assert(call_ensures(source_package_filter, (probe_g,), false)
                                && probe_g@ == paras_w[qp]);
                            assert(source_paragraph_decided(
                                source_package_filter,
                                paras_w[qp],
                                t,
                                fetches@,
                            ));
                        }
                    }
                }
            } else {
                proof {
                    let raws0 = raws;
                    let gparas0 = gparas;
                    let keeps0 = keeps;
                    raws = raws.push(Seq::empty());
                    gparas = gparas.push(Seq::empty());
                    keeps = keeps.push(false);
                    assert forall|j: int| 0 <= j < i implies #[trigger] keeps[j] == keeps0[j]
                        && gparas[j] == gparas0[j] && raws[j] == raws0[j] by {}
                    assert(gparas[i as int].len() == 0);
                    assert forall|k: int| 0 <= k < fetches@.len() implies #[trigger] fetch_origin(
                        keeps,
                        gparas,
                        i + 1,
                        fetches@[k].control_file@,
                    ) by {
                        assert(fetch_origin(keeps0, gparas0, i as int, fetches@[k].control_file@));
                        lemma_fetch_origin_grows(
                            keeps0,
                            gparas0,
                            i as int,
                            fetches@[k].control_file@,
                            false,
                            Seq::empty(),
                        );
                    }
                }
            }
            i += 1;
        }
        proof {
            assert(source_fetch_plan(
                sources_file_filter,
                source_package_filter,
                t,
                winners,
                fetches@,
                raws,
                gparas,
                keeps,
            ));
        }
        Ok(fetches)
    }
}

/// The fetch is one row of the checksums table of the paragraph `p`
/// under flavor `t`, with its path under the paragraph's `Directory`.
pub open spec fn source_file_row_ok(
    p: Seq<(Seq<char>, Seq<char>)>,
    t: ChecksumType,
    f: DebianSourceControlFileFetch,
) -> bool {
    &&& lookup_field(p, source_checksum_field(t)) matches Some(value)
    &&& lookup_field(p, "Directory"@) matches Some(dir)
    &&& table_spec(lookup_field(p, source_checksum_field(t)).unwrap(), t) matches Some(rows)
    &&& exists|i: int|
        #![auto]
        0 <= i < rows.len() && f.path@ == lookup_field(p, "Directory"@).unwrap() + "/"@ + rows[i].0
            && f.size as int == rows[i].1 && f.digest.algorithm == t && f.digest.digest@
            == rows[i].2
}

/// The fetch's path, size and digest come from its own control
/// paragraph's checksums table under flavor `t`.
pub open spec fn source_fetch_matches(f: SourcePackageFetch, t: ChecksumType) -> bool {
    source_file_row_ok(f.control_file@, t, f.fetch)
}

/// The collapse winners of the `Sources` entries, in distinct-key order.
pub open spec fn sources_winners(
    s: Seq<((Seq<char>, int, ChecksumType, Seq<u8>), (Seq<char>, Compression))>,
    preferred: Compression,
) -> Seq<((Seq<char>, int, ChecksumType, Seq<u8>), (Seq<char>, Compression))> {
    Seq::new(distinct_skeys(s).len(), |j: int| s_winner(s, distinct_skeys(s)[j], preferred).unwrap())
}

/// The file filter decided a `Sources` collapse winner with model `w`.
pub open spec fn s_entry_decided<F1: Fn(SourcesFileEntry) -> bool>(
    sources_file_filter: F1,
    w: ((Seq<char>, int, ChecksumType, Seq<u8>), (Seq<char>, Compression)),
    keep: bool,
) -> bool {
    exists|ent: SourcesFileEntry|
        #![auto]
        call_ensures(sources_file_filter, (ent,), keep) && smodel(&ent) == w
}

/// The fetch `f` carries row `ri` of the paragraph's checksums table
/// under flavor `t`, with its path under the paragraph's `Directory`.
pub open spec fn source_row_match(
    p: Seq<(Seq<char>, Seq<char>)>,
    t: ChecksumType,
    ri: int,
    f: DebianSourceControlFileFetch,
) -> bool {
    let rows = table_spec(lookup_field(p, source_checksum_field(t)).unwrap(), t).unwrap();
    &&& f.path@ == lookup_field(p, "Directory"@).unwrap() + "/"@ + rows[ri].0
    &&& f.size as int == rows[ri].1
    &&& f.digest.algorithm == t
    &&& f.digest.digest@ == rows[ri].2
}

/// Some fetch of `v` carries row `ri` of paragraph `p`'s table.
pub open spec fn row_fetched(
    p: Seq<(Seq<char>, Seq<char>)>,
    t: ChecksumType,
    ri: int,
    v: Seq<SourcePackageFetch>,
) -> bool {
    exists|k: int|
        #![auto]
        0 <= k < v.len() && (v[k]).control_file@ == p && source_row_match(p, t, ri, v[k].fetch)
}

pub proof fn lemma_row_fetched_grows(
    p: Seq<(Seq<char>, Seq<char>)>,
    t: ChecksumType,
    ri: int,
    v: Seq<SourcePackageFetch>,
    x: SourcePackageFetch,
)
    requires
        row_fetched(p, t, ri, v),
    ensures
        row_fetched(p, t, ri, v.push(x)),
{
    let k = choose|k: int|
        #![auto]
        0 <= k < v.len() && (v[k]).control_file@ == p && source_row_match(p, t, ri, v[k].fetch);
    assert(0 <= k < v.push(x).len() && (v.push(x)[k]).control_file@ == p && source_row_match(
        p,
        t,
        ri,
        v.push(x)[k].fetch,
    ));
}

/// Every row of paragraph `p`'s checksums table under `t` has a fetch
/// in `v`.
pub open spec fn rows_covered(
    p: Seq<(Seq<char>, Seq<char>)>,
    t: ChecksumType,
    v: Seq<SourcePackageFetch>,
) -> bool {
    &&& lookup_field(p, source_checksum_field(t)) is Some
    &&& lookup_field(p, "Directory"@) is Some
    &&& table_spec(lookup_field(p, source_checksum_field(t)).unwrap(), t) is Some
    &&& forall|ri: int|
        0 <= ri < table_spec(lookup_field(p, source_checksum_field(t)).unwrap(), t).unwrap().len()
            ==> #[trigger] row_fetched(p, t, ri, v)
}

pub proof fn lemma_rows_covered_grows(
    p: Seq<(Seq<char>, Seq<char>)>,
    t: ChecksumType,
    v: Seq<SourcePackageFetch>,
    x: SourcePackageFetch,
)
    requires
        rows_covered(p, t, v),
    ensures
        rows_covered(p, t, v.push(x)),
{
    let rows = table_spec(lookup_field(p, source_checksum_field(t)).unwrap(), t).unwrap();
    assert forall|ri: int| 0 <= ri < rows.len() implies #[trigger] row_fetched(
        p,
        t,
        ri,
        v.push(x),
    ) by {
        lemma_row_fetched_grows(p, t, ri, v, x);
    }
}

/// The package filter decided the source paragraph `p`, and an accepted
/// `p` contributed one fetch per row of its checksums table.
pub open spec fn source_paragraph_decided<F2: Fn(DebianSourceControlFile) -> bool>(
    source_package_filter: F2,
    p: Seq<(Seq<char>, Seq<char>)>,
    t: ChecksumType,
    v: Seq<SourcePackageFetch>,
) -> bool {
    exists|c: DebianSourceControlFile, b: bool|
        #![auto]
        call_ensures(source_package_filter, (c,), b) && c@ == p && (b ==> rows_covered(p, t, v))
}

pub proof fn lemma_source_paragraph_decided_grows<F2: Fn(DebianSourceControlFile) -> bool>(
    source_package_filter: F2,
    p: Seq<(Seq<char>, Seq<char>)>,
    t: ChecksumType,
    v: Seq<SourcePackageFetch>,
    x: SourcePackageFetch,
)
    requires
        source_paragraph_decided(source_package_filter, p, t, v),
    ensures
        source_paragraph_decided(source_package_filter, p, t, v.push(x)),
{
    let (c, b) = choose|c: DebianSourceControlFile, b: bool|
        #![auto]
        call_ensures(source_package_filter, (c,), b) && c@ == p && (b ==> rows_covered(p, t, v));
    if b {
        lemma_rows_covered_grows(p, t, v, x);
    }
    assert(call_ensures(source_package_filter, (c,), b) && c@ == p && (b ==> rows_covered(
        p,
        t,
        v.push(x),
    )));
}

/// A complete account of one source-fetch resolution: per collapse
/// winner, the file filter's decision; for each dereferenced winner, a
/// verified decoded paragraph list; every paragraph of a dereferenced
/// winner decided by the package filter, accepted ones contributing one
/// fetch per table row; and every fetch coming from such a paragraph.
pub open spec fn source_fetch_plan<
    F1: Fn(SourcesFileEntry) -> bool,
    F2: Fn(DebianSourceControlFile) -> bool,
>(
    sources_file_filter: F1,
    source_package_filter: F2,
    t: ChecksumType,
    winners: Seq<((Seq<char>, int, ChecksumType, Seq<u8>), (Seq<char>, Compression))>,
    v: Seq<SourcePackageFetch>,
    raws: Seq<Seq<u8>>,
    paras: Seq<Seq<Seq<(Seq<char>, Seq<char>)>>>,
    keeps: Seq<bool>,
) -> bool {
    &&& raws.len() == winners.len()
    &&& paras.len() == winners.len()
    &&& keeps.len() == winners.len()
    &&& forall|j: int| 0 <= j < winners.len() ==> #[trigger] s_entry_decided(
        sources_file_filter,
        winners[j],
        keeps[j],
    )
    &&& forall|j: int| 0 <= j < winners.len() && keeps[j] ==> #[trigger] decoded_index_ok_s(
        raws[j],
        winners[j],
        paras[j],
    )
    &&& forall|j: int| 0 <= j < winners.len() && !keeps[j] ==> (#[trigger] paras[j]).len() == 0
    &&& forall|j: int, q: int|
        0 <= j < winners.len() && 0 <= q < (#[trigger] paras[j]).len() ==> source_paragraph_decided(
            source_package_filter,
            #[trigger] paras[j][q],
            t,
            v,
        )
    &&& forall|k: int| 0 <= k < v.len() ==> #[trigger] fetch_origin(
        keeps,
        paras,
        winners.len() as int,
        v[k].control_file@,
    )
}

/// There is a complete account of the resolution: the output holds
/// exactly one fetch per checksums-table row of each filter-accepted
/// paragraph of each filter-accepted collapse winner.
pub open spec fn source_fetches_complete<
    F1: Fn(SourcesFileEntry) -> bool,
    F2: Fn(DebianSourceControlFile) -> bool,
>(
    sources_file_filter: F1,
    source_package_filter: F2,
    t: ChecksumType,
    winners: Seq<((Seq<char>, int, ChecksumType, Seq<u8>), (Seq<char>, Compression))>,
    v: Seq<SourcePackageFetch>,
) -> bool {
    exists|raws: Seq<Seq<u8>>, paras: Seq<Seq<Seq<(Seq<char>, Seq<char>)>>>, keeps: Seq<bool>|
        #[trigger] source_fetch_plan(
            sources_file_filter,
            source_package_filter,
            t,
            winners,
            v,
            raws,
            paras,
            keeps,
        )
}

// ---------------------------------------------------------------------------
// Contents files
// ---------------------------------------------------------------------------

/// One row of a `Contents` file: a file path and the packages that ship
/// it.
#[derive(Clone, Debug)]
pub struct ContentsFileLine {
    pub file_path: String,
    pub packages: Vec<String>,
}

/// A parsed `Contents` index.
#[derive(Clone, Debug)]
pub struct ContentsFile {
    pub lines: Vec<ContentsFileLine>,
}

/// The rows of a `Contents` file: for each line with at least two
/// columns, the first column and the comma-separated package list of
/// the last column. Other lines (headers, blanks) are skipped.
pub open spec fn contents_lines_spec(lines: Seq<Seq<char>>) -> Seq<(Seq<char>, Seq<Seq<char>>)>
    decreases lines.len(),
{
    if lines.len() == 0 {
        Seq::empty()
    } else {
        let prior = contents_lines_spec(lines.drop_last());
        let toks = tokens_spec(lines.last());
        if toks.len() >= 2 {
            prior.push((toks[0], split_spec(toks[toks.len() - 1], ',')))
        } else {
            prior
        }
    }
}

/// Parse the text of a `Contents` file.
pub fn parse_contents(text: &str) -> (r: ContentsFile)
    ensures
        ({
            let rows = contents_lines_spec(split_spec(text@, '\n'));
            &&& r.lines@.len() == rows.len()
            &&& forall|i: int| 0 <= i < rows.len() ==> {
                &&& (#[trigger] r.lines@[i]).file_path@ == rows[i].0
                &&& r.lines@[i].packages.deep_view() == rows[i].1
            }
        }),
{
    let lines = split_char(text, '\n');
    let ghost lm = lines.deep_view();
    let ghost rows = contents_lines_spec(lm);
    let mut out: Vec<ContentsFileLine> = Vec::new();
    let n = lines.len();
    let mut i: usize = 0;
    proof {
        assert(lm.subrange(0, 0) =~= Seq::<Seq<char>>::empty());
    }
    while i < n
        invariant
            n == lines@.len(),
            lm == lines.deep_view(),
            0 <= i <= n,
            out@.len() == contents_lines_spec(lm.subrange(0, i as int)).len(),
            forall|j: int| 0 <= j < out@.len() ==> {
                let pre_rows = contents_lines_spec(lm.subrange(0, i as int));
                &&& (#[trigger] out@[j]).file_path@ == pre_rows[j].0
                &&& out@[j].packages.deep_view() == pre_rows[j].1
            },
        decreases n - i,
    {
        let ghost pre = lm.subrange(0, i as int);
        let ghost pre1 = lm.subrange(0, i + 1);
        proof {
            assert(pre1.drop_last() =~= pre);
            assert(pre1.last() == lm[i as int]);
            assert(lm[i as int] == lines@[i as int]@);
        }
        let toks = tokenize_ws(lines[i].as_str());
        if toks.len() >= 2 {
            proof {
                assert(toks.deep_view()[0] == toks@[0]@);
                assert(toks.deep_view()[toks@.len() - 1] == toks@[toks@.len() - 1]@);
            }
            let pkgs = split_char(toks[toks.len() - 1].as_str(), ',');
            out.push(ContentsFileLine { file_path: toks[0].clone(), packages: pkgs });
        }
        i += 1;
    }
    proof {
        assert(lm.subrange(0, n as int) =~= lm);
    }
    ContentsFile { lines: out }
}

impl ReleaseReader {
    /// Resolve the `Contents` entry for a query, fetch it (via `by-hash`
    /// when the Release file says so), verify, decode and parse it: the
    /// result is the parse of a decoded stream whose compressed bytes
    /// carry the size and digest of the query's winning entry.
    pub fn resolve_contents<R: DataResolver>(
        &self,
        resolver: &R,
        component: Option<&str>,
        architecture: &str,
        is_installer: bool,
    ) -> (r: Result<ContentsFile, DebianError>)
        ensures
            r matches Ok(cf) ==> resolved_contents_ok(
                self.release.paragraph@,
                self.preferred_compression,
                match component {
                    Some(y) => Some(y@),
                    None => None,
                },
                architecture@,
                is_installer,
                cf,
            ),
            r matches Err(e) ==> (selected_checksum(self.release.paragraph@) is None ==> e
                matches DebianError::NoKnownChecksum),
            r matches Err(e) ==> ((release_rows(self.release.paragraph@) matches Some(rows)
                && c_winner(
                contents_rows(rows, selected_checksum(self.release.paragraph@).unwrap()),
                (
                    match component {
                        Some(y) => Some(y@),
                        None => None,
                    },
                    architecture@,
                    is_installer,
                ),
                self.preferred_compression,
            ) is None) ==> e matches DebianError::ContentsIndicesEntryNotFound),
    {
        let entry = self.contents_entry(component, architecture, is_installer)?;
        let path = self.index_fetch_path(&entry.entry);
        let data = get_path_decoded_with_digest_verification(
            resolver,
            path.as_str(),
            entry.compression,
            entry.entry.size,
            &entry.entry.digest,
        )?;
        let ghost dv = data@;
        let text = bytes_to_string(data)?;
        let cf = parse_contents(text.as_str());
        proof {
            let s = contents_rows(
                release_rows(self.release.paragraph@).unwrap(),
                selected_checksum(self.release.paragraph@).unwrap(),
            );
            let k = (
                match component {
                    Some(y) => Some(y@),
                    None => None,
                },
                architecture@,
                is_installer,
            );
            let m = c_winner(s, k, self.preferred_compression).unwrap();
            assert(entry.entry.size == m.0.1 as u64 && entry.entry.digest.algorithm == m.0.2
                && entry.entry.digest.digest@ == m.0.3 && entry.compression == m.1.3);
            let raw = choose|raw: Seq<u8>|
                #![auto]
                raw.len() == entry.entry.size && crate::checksum::digest_of(
                    entry.entry.digest.algorithm,
                    raw,
                ) == entry.entry.digest.digest@ && crate::compression::decompress_spec(
                    entry.compression,
                    raw,
                ) == Some(dv);
            assert(decoded_contents_ok(raw, m, cf));
            assert(resolved_contents_ok(
                self.release.paragraph@,
                self.preferred_compression,
                k.0,
                architecture@,
                is_installer,
                cf,
            ));
        }
        Ok(cf)
    }
}

/// The parse of a verified, decoded `Contents` stream for the query's
/// winning entry: the Release rows parse, the query has a winner under
/// the preferred compression, and `cf` is the parse of bytes carrying
/// the winner's size and digest.
pub open spec fn resolved_contents_ok(
    p: Seq<(Seq<char>, Seq<char>)>,
    preferred: Compression,
    component: Option<Seq<char>>,
    architecture: Seq<char>,
    is_installer: bool,
    cf: ContentsFile,
) -> bool {
    &&& release_rows(p) is Some
    &&& c_winner(
        contents_rows(release_rows(p).unwrap(), selected_checksum(p).unwrap()),
        (component, architecture, is_installer),
        preferred,
    ) is Some
    &&& exists|raw: Seq<u8>| #[trigger] decoded_contents_ok(
        raw,
        c_winner(
            contents_rows(release_rows(p).unwrap(), selected_checksum(p).unwrap()),
            (component, architecture, is_installer),
            preferred,
        ).unwrap(),
        cf,
    )
}

/// The compressed bytes `raw` carry the size and digest of the
/// `Contents` entry model `m`, decode under its compression to UTF-8
/// text, and `cf` is the parse of that text.
pub open spec fn decoded_contents_ok(
    raw: Seq<u8>,
    m: (
        (Seq<char>, int, ChecksumType, Seq<u8>),
        (Option<Seq<char>>, Seq<char>, bool, Compression),
    ),
    cf: ContentsFile,
) -> bool {
    &&& raw.len() == m.0.1
    &&& crate::checksum::digest_of(m.0.2, raw) == m.0.3
    &&& crate::compression::decompress_spec(m.1.3, raw) is Some
    &&& vstd::utf8::valid_utf8(crate::compression::decompress_spec(m.1.3, raw).unwrap())
    &&& {
        let rows = contents_lines_spec(
            split_spec(
                vstd::utf8::decode_utf8(
                    crate::compression::decompress_spec(m.1.3, raw).unwrap(),
                ),
                '\n',
            ),
        );
        &&& cf.lines@.len() == rows.len()
        &&& forall|i: int| 0 <= i < rows.len() ==> {
            &&& (#[trigger] cf.lines@[i]).file_path@ == rows[i].0
            &&& cf.lines@[i].packages.deep_view() == rows[i].1
        }
    }
}

} // verus!
