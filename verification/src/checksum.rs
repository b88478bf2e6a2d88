//! Content digests: checksum flavors, hex parsing and formatting, and
//! digest computation.

use vstd::prelude::*;
use vstd::string::*;
use crate::error::DebianError;
use md5::Digest;

verus! {

// ---------------------------------------------------------------------------
// Checksum flavors
// ---------------------------------------------------------------------------

/// A checksum algorithm known to Debian repositories.
///
/// The preferred order is `Sha256 > Sha1 > Md5`.
#[derive(Clone, Copy, Debug, PartialEq, Eq, Structural)]
pub enum ChecksumType {
    Md5,
    Sha1,
    Sha256,
}

pub open spec fn digest_len_spec(t: ChecksumType) -> int {
    match t {
        ChecksumType::Md5 => 16,
        ChecksumType::Sha1 => 20,
        ChecksumType::Sha256 => 32,
    }
}

impl ChecksumType {
    /// Number of raw digest bytes for this algorithm.
    pub fn digest_byte_len(&self) -> (r: usize)
        ensures
            r as int == digest_len_spec(*self),
    {
        match self {
            ChecksumType::Md5 => 16,
            ChecksumType::Sha1 => 20,
            ChecksumType::Sha256 => 32,
        }
    }

    /// Field name of this algorithm's table in a `Release` file, which is
    /// also the algorithm component of `by-hash` paths.
    pub fn field_name(&self) -> (r: &'static str)
        ensures
            (*self == ChecksumType::Md5 ==> r@ == "MD5Sum"@),
            (*self == ChecksumType::Sha1 ==> r@ == "SHA1"@),
            (*self == ChecksumType::Sha256 ==> r@ == "SHA256"@),
    {
        match self {
            ChecksumType::Md5 => "MD5Sum",
            ChecksumType::Sha1 => "SHA1",
            ChecksumType::Sha256 => "SHA256",
        }
    }

    /// Field name carrying this digest in a package paragraph.
    pub fn package_field_name(&self) -> (r: &'static str)
        ensures
            (*self == ChecksumType::Md5 ==> r@ == "MD5sum"@),
            (*self == ChecksumType::Sha1 ==> r@ == "SHA1"@),
            (*self == ChecksumType::Sha256 ==> r@ == "SHA256"@),
    {
        match self {
            ChecksumType::Md5 => "MD5sum",
            ChecksumType::Sha1 => "SHA1",
            ChecksumType::Sha256 => "SHA256",
        }
    }

    /// All algorithms, strongest first.
    pub fn preferred_order() -> (r: Vec<ChecksumType>)
        ensures
            r@ == seq![ChecksumType::Sha256, ChecksumType::Sha1, ChecksumType::Md5],
    {
        let mut r: Vec<ChecksumType> = Vec::new();
        r.push(ChecksumType::Sha256);
        r.push(ChecksumType::Sha1);
        r.push(ChecksumType::Md5);
        proof {
            assert(r@ =~= seq![ChecksumType::Sha256, ChecksumType::Sha1, ChecksumType::Md5]);
        }
        r
    }
}

// ---------------------------------------------------------------------------
// Hex
// ---------------------------------------------------------------------------

/// Value of a hex digit character, or 16 for any other character.
pub open spec fn hex_val(c: char) -> int {
    if c == '0' { 0 } else if c == '1' { 1 } else if c == '2' { 2 }
    else if c == '3' { 3 } else if c == '4' { 4 } else if c == '5' { 5 }
    else if c == '6' { 6 } else if c == '7' { 7 } else if c == '8' { 8 }
    else if c == '9' { 9 } else if c == 'a' || c == 'A' { 10 }
    else if c == 'b' || c == 'B' { 11 } else if c == 'c' || c == 'C' { 12 }
    else if c == 'd' || c == 'D' { 13 } else if c == 'e' || c == 'E' { 14 }
    else if c == 'f' || c == 'F' { 15 } else { 16 }
}

pub open spec fn is_hex_digit(c: char) -> bool {
    hex_val(c) < 16
}

/// Lowercase hex digit character for a value in `0..16`.
pub open spec fn hex_char(d: int) -> char {
    if d == 0 { '0' } else if d == 1 { '1' } else if d == 2 { '2' }
    else if d == 3 { '3' } else if d == 4 { '4' } else if d == 5 { '5' }
    else if d == 6 { '6' } else if d == 7 { '7' } else if d == 8 { '8' }
    else if d == 9 { '9' } else if d == 10 { 'a' } else if d == 11 { 'b' }
    else if d == 12 { 'c' } else if d == 13 { 'd' } else if d == 14 { 'e' }
    else { 'f' }
}

/// Bytes denoted by a hex string; `None` on odd length or a non-hex digit.
pub open spec fn hex_decode_spec(s: Seq<char>) -> Option<Seq<u8>>
    decreases s.len(),
{
    if s.len() == 0 {
        Some(Seq::empty())
    } else if s.len() == 1 {
        None
    } else if is_hex_digit(s[0]) && is_hex_digit(s[1]) {
        match hex_decode_spec(s.subrange(2, s.len() as int)) {
            Some(r) => Some(seq![(hex_val(s[0]) * 16 + hex_val(s[1])) as u8] + r),
            None => None,
        }
    } else {
        None
    }
}

/// Lowercase hex rendering of a byte string.
pub open spec fn hex_encode_spec(b: Seq<u8>) -> Seq<char>
    decreases b.len(),
{
    if b.len() == 0 {
        Seq::empty()
    } else {
        seq![hex_char(b[0] as int / 16), hex_char(b[0] as int % 16)]
            + hex_encode_spec(b.subrange(1, b.len() as int))
    }
}

pub proof fn lemma_hex_encode_len(b: Seq<u8>)
    ensures
        hex_encode_spec(b).len() == 2 * b.len(),
    decreases b.len(),
{
    if b.len() > 0 {
        lemma_hex_encode_len(b.subrange(1, b.len() as int));
    }
}

/// Decoding a hex rendering gives back the bytes.
pub proof fn lemma_hex_round_trip(b: Seq<u8>)
    ensures
        hex_decode_spec(hex_encode_spec(b)) == Some(b),
    decreases b.len(),
{
    if b.len() == 0 {
        assert(hex_encode_spec(b).len() == 0);
        assert(hex_decode_spec(hex_encode_spec(b)) == Some(Seq::<u8>::empty()));
        assert(b =~= Seq::<u8>::empty());
    } else {
        let t = b.subrange(1, b.len() as int);
        lemma_hex_round_trip(t);
        let s = hex_encode_spec(b);
        let hi = hex_char(b[0] as int / 16);
        let lo = hex_char(b[0] as int % 16);
        lemma_hex_encode_len(t);
        assert(s.len() == 2 + hex_encode_spec(t).len());
        assert(s[0] == hi && s[1] == lo);
        assert(hex_val(hi) == b[0] as int / 16);
        assert(hex_val(lo) == b[0] as int % 16);
        assert(s.subrange(2, s.len() as int) =~= hex_encode_spec(t));
        assert((hex_val(s[0]) * 16 + hex_val(s[1])) as u8 == b[0]) by {
            assert(b[0] as int / 16 * 16 + b[0] as int % 16 == b[0] as int);
        }
        assert(hex_decode_spec(s).unwrap() =~= b);
    }
}

/// Every character of a hex rendering is a hex digit.
pub proof fn lemma_hex_encode_chars(b: Seq<u8>)
    ensures
        forall|j: int|
            0 <= j < hex_encode_spec(b).len() ==> is_hex_digit(#[trigger] hex_encode_spec(b)[j]),
    decreases b.len(),
{
    if b.len() > 0 {
        let t = b.subrange(1, b.len() as int);
        lemma_hex_encode_chars(t);
        let s = hex_encode_spec(b);
        assert forall|j: int| 0 <= j < s.len() implies is_hex_digit(#[trigger] s[j]) by {
            if j >= 2 {
                assert(s[j] == hex_encode_spec(t)[j - 2]);
            } else {
                assert(0 <= b[0] as int / 16 < 16);
                assert(0 <= b[0] as int % 16 < 16);
            }
        }
    }
}

/// Parse a hex string into bytes; `None` on odd length or a bad digit.
pub fn hex_decode(s: &str) -> (r: Option<Vec<u8>>)
    ensures
        r is Some <==> hex_decode_spec(s@) is Some,
        r is Some ==> r.unwrap()@ == hex_decode_spec(s@).unwrap(),
    decreases s@.len(),
{
    let n = s.unicode_len();
    if n == 0 {
        let v: Vec<u8> = Vec::new();
        proof {
            assert(v@ =~= hex_decode_spec(s@).unwrap());
        }
        return Some(v);
    }
    if n == 1 {
        return None;
    }
    let h = hex_digit_value(s.get_char(0));
    let l = hex_digit_value(s.get_char(1));
    if h == 16 || l == 16 {
        return None;
    }
    match hex_decode(s.substring_char(2, n)) {
        Some(mut rest) => {
            let b: u8 = h * 16 + l;
            rest.insert(0, b);
            proof {
                assert(rest@ =~= hex_decode_spec(s@).unwrap());
            }
            Some(rest)
        },
        None => None,
    }
}

fn hex_digit_value(c: char) -> (r: u8)
    ensures
        r as int == hex_val(c),
        r <= 16,
{
    if c == '0' { 0 } else if c == '1' { 1 } else if c == '2' { 2 }
    else if c == '3' { 3 } else if c == '4' { 4 } else if c == '5' { 5 }
    else if c == '6' { 6 } else if c == '7' { 7 } else if c == '8' { 8 }
    else if c == '9' { 9 } else if c == 'a' || c == 'A' { 10 }
    else if c == 'b' || c == 'B' { 11 } else if c == 'c' || c == 'C' { 12 }
    else if c == 'd' || c == 'D' { 13 } else if c == 'e' || c == 'E' { 14 }
    else if c == 'f' || c == 'F' { 15 } else { 16 }
}

fn hex_char_str(d: u8) -> (r: &'static str)
    requires
        d < 16,
    ensures
        r@ =~= seq![hex_char(d as int)],
{
    proof {
        reveal_strlit("0");
        reveal_strlit("1");
        reveal_strlit("2");
        reveal_strlit("3");
        reveal_strlit("4");
        reveal_strlit("5");
        reveal_strlit("6");
        reveal_strlit("7");
        reveal_strlit("8");
        reveal_strlit("9");
        reveal_strlit("a");
        reveal_strlit("b");
        reveal_strlit("c");
        reveal_strlit("d");
        reveal_strlit("e");
        reveal_strlit("f");
    }
    if d == 0 { "0" } else if d == 1 { "1" } else if d == 2 { "2" }
    else if d == 3 { "3" } else if d == 4 { "4" } else if d == 5 { "5" }
    else if d == 6 { "6" } else if d == 7 { "7" } else if d == 8 { "8" }
    else if d == 9 { "9" } else if d == 10 { "a" } else if d == 11 { "b" }
    else if d == 12 { "c" } else if d == 13 { "d" } else if d == 14 { "e" }
    else { "f" }
}

/// Concatenating byte strings concatenates their hex renderings.
pub proof fn lemma_hex_encode_concat(x: Seq<u8>, y: Seq<u8>)
    ensures
        hex_encode_spec(x + y) == hex_encode_spec(x) + hex_encode_spec(y),
    decreases x.len(),
{
    if x.len() == 0 {
        assert(x + y =~= y);
        assert(hex_encode_spec(x) =~= Seq::<char>::empty());
        assert(hex_encode_spec(x) + hex_encode_spec(y) =~= hex_encode_spec(y));
    } else {
        let t = x.subrange(1, x.len() as int);
        lemma_hex_encode_concat(t, y);
        assert((x + y).subrange(1, (x + y).len() as int) =~= t + y);
        assert((x + y)[0] == x[0]);
        assert(hex_encode_spec(x + y) =~= hex_encode_spec(x) + hex_encode_spec(y));
    }
}

/// Render bytes as lowercase hex.
pub fn hex_encode(b: &Vec<u8>) -> (r: String)
    ensures
        r@ == hex_encode_spec(b@),
{
    let mut r = String::new();
    let mut i: usize = 0;
    let n = b.len();
    while i < n
        invariant
            n == b@.len(),
            0 <= i <= n,
            r@ == hex_encode_spec(b@.subrange(0, i as int)),
        decreases n - i,
    {
        let hi: u8 = b[i] / 16;
        let lo: u8 = b[i] % 16;
        r.append(hex_char_str(hi));
        r.append(hex_char_str(lo));
        proof {
            let p = b@.subrange(0, i as int);
            let p1 = b@.subrange(0, i + 1);
            let single = seq![b@[i as int]];
            assert(p1 =~= p + single);
            lemma_hex_encode_concat(p, single);
            assert(single.len() == 1 && single[0] == b@[i as int]);
            assert(single.subrange(1, single.len() as int) =~= Seq::<u8>::empty());
            assert(hex_encode_spec(single.subrange(1, single.len() as int))
                =~= Seq::<char>::empty());
            assert(hex_encode_spec(single) =~= seq![
                hex_char(b@[i as int] as int / 16),
                hex_char(b@[i as int] as int % 16),
            ]);
            assert(r@ =~= hex_encode_spec(p1));
        }
        i += 1;
    }
    proof {
        assert(b@.subrange(0, n as int) =~= b@);
    }
    r
}

// ---------------------------------------------------------------------------
// Byte comparison
// ---------------------------------------------------------------------------

/// Copy a byte vector element by element.
pub fn clone_bytes(data: &Vec<u8>) -> (r: Vec<u8>)
    ensures
        r@ == data@,
{
    let mut r: Vec<u8> = Vec::new();
    let n = data.len();
    let mut i: usize = 0;
    while i < n
        invariant
            n == data@.len(),
            0 <= i <= n,
            r@ == data@.subrange(0, i as int),
        decreases n - i,
    {
        r.push(data[i]);
        proof {
            assert(r@ =~= data@.subrange(0, i + 1));
        }
        i += 1;
    }
    proof {
        assert(data@.subrange(0, n as int) =~= data@);
    }
    r
}

/// Compare two byte strings without an early exit, so that the comparison
/// time does not depend on where they first differ.
pub fn bytes_eq(a: &Vec<u8>, b: &Vec<u8>) -> (r: bool)
    ensures
        r == (a@ == b@),
{
    if a.len() != b.len() {
        return false;
    }
    let n = a.len();
    let mut same = true;
    let mut i: usize = 0;
    while i < n
        invariant
            n == a@.len(),
            n == b@.len(),
            0 <= i <= n,
            same == (forall|j: int| 0 <= j < i ==> a@[j] == b@[j]),
        decreases n - i,
    {
        if a[i] != b[i] {
            same = false;
        }
        i += 1;
    }
    proof {
        if same {
            assert(a@ =~= b@);
        }
    }
    same
}

// ---------------------------------------------------------------------------
// Content digests
// ---------------------------------------------------------------------------

/// A digest value: an algorithm plus its raw bytes.
#[derive(Clone, Debug)]
pub struct ContentDigest {
    pub algorithm: ChecksumType,
    pub digest: Vec<u8>,
}

impl ContentDigest {
    /// The length of the raw digest matches the algorithm.
    pub open spec fn wf(&self) -> bool {
        self.digest@.len() == digest_len_spec(self.algorithm)
    }

    /// Parse a digest from its hex rendering.
    ///
    /// Fails exactly when the string is not well-formed hex for the
    /// algorithm's digest width.
    pub fn from_hex_digest(algorithm: ChecksumType, s: &str) -> (r: Result<
        ContentDigest,
        DebianError,
    >)
        ensures
            r is Ok <==> (hex_decode_spec(s@) is Some && hex_decode_spec(s@).unwrap().len()
                == digest_len_spec(algorithm)),
            r matches Ok(d) ==> d.algorithm == algorithm && d.digest@ == hex_decode_spec(
                s@,
            ).unwrap() && d.wf(),
            r matches Err(e) ==> e matches DebianError::BadHex(m) && m@ == s@,
    {
        match hex_decode(s) {
            Some(bytes) => {
                if bytes.len() == algorithm.digest_byte_len() {
                    Ok(ContentDigest { algorithm, digest: bytes })
                } else {
                    Err(DebianError::BadHex(String::from_str(s)))
                }
            },
            None => Err(DebianError::BadHex(String::from_str(s))),
        }
    }

    /// Lowercase hex rendering of the digest bytes.
    pub fn hex_digest(&self) -> (r: String)
        ensures
            r@ == hex_encode_spec(self.digest@),
    {
        hex_encode(&self.digest)
    }

    /// An equal copy of this digest.
    pub fn duplicate(&self) -> (r: ContentDigest)
        ensures
            r.algorithm == self.algorithm,
            r.digest@ == self.digest@,
    {
        ContentDigest { algorithm: self.algorithm, digest: clone_bytes(&self.digest) }
    }
}

impl PartialEq for ContentDigest {
    /// Byte-for-byte comparison, without an early exit on the byte content.
    fn eq(&self, other: &Self) -> (r: bool) {
        let alg_same = match (self.algorithm, other.algorithm) {
            (ChecksumType::Md5, ChecksumType::Md5) => true,
            (ChecksumType::Sha1, ChecksumType::Sha1) => true,
            (ChecksumType::Sha256, ChecksumType::Sha256) => true,
            _ => false,
        };
        let bytes_same = bytes_eq(&self.digest, &other.digest);
        alg_same && bytes_same
    }
}

impl vstd::std_specs::cmp::PartialEqSpecImpl for ContentDigest {
    open spec fn obeys_eq_spec() -> bool {
        true
    }

    open spec fn eq_spec(&self, other: &ContentDigest) -> bool {
        self.algorithm == other.algorithm && self.digest@ == other.digest@
    }
}

// ---------------------------------------------------------------------------
// Digest computation (relies on the md-5, sha1 and sha2 crates)
// ---------------------------------------------------------------------------

pub uninterp spec fn md5_of(data: Seq<u8>) -> Seq<u8>;

pub uninterp spec fn sha1_of(data: Seq<u8>) -> Seq<u8>;

pub uninterp spec fn sha256_of(data: Seq<u8>) -> Seq<u8>;

/// Relies on md5::Md5::digest: the 16-byte MD5 digest, a function of the
/// input bytes alone.
#[verifier::external_body]
fn md5_digest(data: &Vec<u8>) -> (r: Vec<u8>)
    ensures
        r@ == md5_of(data@),
        r@.len() == 16,
{
    md5::Md5::digest(data).to_vec()
}

/// Relies on sha1::Sha1::digest: the 20-byte SHA-1 digest, a function of
/// the input bytes alone.
#[verifier::external_body]
fn sha1_digest(data: &Vec<u8>) -> (r: Vec<u8>)
    ensures
        r@ == sha1_of(data@),
        r@.len() == 20,
{
    sha1::Sha1::digest(data).to_vec()
}

/// Relies on sha2::Sha256::digest: the 32-byte SHA-256 digest, a function
/// of the input bytes alone.
#[verifier::external_body]
fn sha256_digest(data: &Vec<u8>) -> (r: Vec<u8>)
    ensures
        r@ == sha256_of(data@),
        r@.len() == 32,
{
    sha2::Sha256::digest(data).to_vec()
}

/// The digest of `data` under algorithm `t`.
pub open spec fn digest_of(t: ChecksumType, data: Seq<u8>) -> Seq<u8> {
    match t {
        ChecksumType::Md5 => md5_of(data),
        ChecksumType::Sha1 => sha1_of(data),
        ChecksumType::Sha256 => sha256_of(data),
    }
}

/// Compute the digest of `data` under algorithm `t`.
pub fn compute_digest(t: ChecksumType, data: &Vec<u8>) -> (r: Vec<u8>)
    ensures
        r@ == digest_of(t, data@),
{
    match t {
        ChecksumType::Md5 => md5_digest(data),
        ChecksumType::Sha1 => sha1_digest(data),
        ChecksumType::Sha256 => sha256_digest(data),
    }
}

} // verus!
