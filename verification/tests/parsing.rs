//! Parsing: hex, decimals, control paragraphs, Release files,
//! classification, and the index table round trip.

use debian_packaging::checksum::{hex_decode, hex_encode, ChecksumType, ContentDigest};
use debian_packaging::compression::Compression;
use debian_packaging::control::parse_paragraphs;
use debian_packaging::error::DebianError;
use debian_packaging::release::{
    classify_entry, format_checksum_table, parse_checksum_table, ClassifiedReleaseFileEntry,
    ReleaseFile, ReleaseFileEntry,
};
use debian_packaging::strutil::{parse_u64, u64_to_dec};
use sha2::Digest;

fn sha256_hex(data: &[u8]) -> String {
    hex::encode(sha2::Sha256::digest(data))
}

fn digest256(hexstr: &str) -> ContentDigest {
    ContentDigest::from_hex_digest(ChecksumType::Sha256, hexstr).unwrap()
}

const H64: &str = "e3b0c44298fc1c149afbf4c8996fb92427ae41e4649b934ca495991b7852b855";

#[test]
fn hex_round_trip_and_agreement_with_hex_crate() {
    let bytes: Vec<u8> = vec![0xde, 0xad, 0xbe, 0xef, 0x00, 0x7f];
    let ours = hex_encode(&bytes);
    assert_eq!(ours, hex::encode(&bytes));
    let back = hex_decode(&ours).unwrap();
    assert_eq!(back, bytes);
    // Uppercase input decodes to the same bytes.
    assert_eq!(hex_decode("DEADBEEF").unwrap(), vec![0xde, 0xad, 0xbe, 0xef]);
    // Odd length and bad digits are rejected.
    assert!(hex_decode("abc").is_none());
    assert!(hex_decode("zz").is_none());
}

#[test]
fn content_digest_hex_parsing() {
    let d = digest256(H64);
    assert_eq!(d.hex_digest(), H64);
    assert_eq!(d.digest.len(), 32);
    // Wrong width for the algorithm is BadHex.
    assert!(matches!(
        ContentDigest::from_hex_digest(ChecksumType::Sha256, "abcd"),
        Err(DebianError::BadHex(_))
    ));
    assert!(matches!(
        ContentDigest::from_hex_digest(ChecksumType::Md5, "xyz"),
        Err(DebianError::BadHex(_))
    ));
    // Digest equality is byte-for-byte.
    assert!(digest256(H64) == digest256(&H64.to_uppercase()));
}

#[test]
fn decimal_parse_and_format() {
    assert_eq!(parse_u64("0"), Some(0));
    assert_eq!(parse_u64("1234"), Some(1234));
    assert_eq!(parse_u64("18446744073709551615"), Some(u64::MAX));
    assert_eq!(parse_u64("18446744073709551616"), None);
    assert_eq!(parse_u64("12a"), None);
    assert_eq!(parse_u64(""), None);
    assert_eq!(u64_to_dec(0), "0");
    assert_eq!(u64_to_dec(90210), "90210");
    assert_eq!(u64_to_dec(u64::MAX), "18446744073709551615");
}

#[test]
fn control_paragraphs_parse() {
    let text = "Package: foo\nVersion: 1.0\nDescription: first line\n continued here\n\nPackage: bar\n";
    let paras = parse_paragraphs(text).unwrap();
    assert_eq!(paras.len(), 2);
    assert_eq!(paras[0].field("Package"), Some("foo".to_string()));
    assert_eq!(paras[0].field("Version"), Some("1.0".to_string()));
    assert_eq!(
        paras[0].field("Description"),
        Some("first line\ncontinued here".to_string())
    );
    assert_eq!(paras[1].field("Package"), Some("bar".to_string()));
    assert_eq!(paras[1].field("Version"), None);
}

#[test]
fn control_parse_errors() {
    // A line with no colon is malformed.
    assert!(matches!(
        parse_paragraphs("Package foo\n"),
        Err(DebianError::ControlParseError(_))
    ));
    // A continuation with no preceding field is malformed.
    assert!(matches!(
        parse_paragraphs(" dangling\n"),
        Err(DebianError::ControlParseError(_))
    ));
}

#[test]
fn control_field_u64() {
    let paras = parse_paragraphs("Size: 42\nBad: 4x\n").unwrap();
    assert_eq!(paras[0].field_u64("Size").unwrap().unwrap(), 42);
    assert!(matches!(
        paras[0].field_u64("Bad"),
        Some(Err(DebianError::ControlFieldIntParse(_)))
    ));
    assert!(paras[0].field_u64("Absent").is_none());
}

#[test]
fn release_file_requires_one_paragraph() {
    assert!(matches!(
        ReleaseFile::from_string("A: 1\n\nB: 2\n"),
        Err(DebianError::ControlParseError(_))
    ));
    let rf = ReleaseFile::from_string("Suite: stable\n").unwrap();
    assert_eq!(rf.suite(), Some("stable".to_string()));
    assert!(rf.signature.is_none());
}

#[test]
fn release_file_getters() {
    let text = "Suite: test\nCodename: tst\nComponents: main contrib\nArchitectures: amd64 arm64\nDate: Sat, 01 Jan 2022 00:00:00 +0000\nAcquire-By-Hash: yes\n";
    let rf = ReleaseFile::from_string(text).unwrap();
    assert_eq!(rf.suite(), Some("test".to_string()));
    assert_eq!(rf.codename(), Some("tst".to_string()));
    assert_eq!(rf.components(), Some(vec!["main".to_string(), "contrib".to_string()]));
    assert_eq!(rf.architectures(), Some(vec!["amd64".to_string(), "arm64".to_string()]));
    assert_eq!(rf.acquire_by_hash(), Some(true));
    assert_eq!(rf.date().unwrap(), 1640995200);
    assert!(matches!(
        rf.valid_until(),
        Err(DebianError::ControlRequiredFieldMissing(_))
    ));
}

#[test]
fn checksum_table_parses_rows() {
    let value = format!("\n{} 10 main/binary-amd64/Packages.xz\n{} 20 pool/f.deb", H64, H64);
    let rows = parse_checksum_table(&value, ChecksumType::Sha256).unwrap();
    assert_eq!(rows.len(), 2);
    assert_eq!(rows[0].path, "main/binary-amd64/Packages.xz");
    assert_eq!(rows[0].size, 10);
    assert_eq!(rows[0].digest.hex_digest(), H64);
    assert_eq!(rows[1].path, "pool/f.deb");
}

#[test]
fn checksum_table_rejects_malformed_rows() {
    assert!(matches!(
        parse_checksum_table(&format!("{}", H64), ChecksumType::Sha256),
        Err(DebianError::ReleaseMissingSize)
    ));
    assert!(matches!(
        parse_checksum_table(&format!("{} 10", H64), ChecksumType::Sha256),
        Err(DebianError::ReleaseMissingPath)
    ));
    assert!(matches!(
        parse_checksum_table(&format!("{} 10 a b", H64), ChecksumType::Sha256),
        Err(DebianError::PathWithSpaces(_))
    ));
    assert!(matches!(
        parse_checksum_table("nothex 10 path", ChecksumType::Sha256),
        Err(DebianError::BadHex(_))
    ));
    // A digest of the wrong width for the algorithm is also BadHex.
    assert!(matches!(
        parse_checksum_table(&format!("{} 10 path", H64), ChecksumType::Md5),
        Err(DebianError::BadHex(_))
    ));
    assert!(matches!(
        parse_checksum_table(&format!("{} 99999999999999999999 path", H64), ChecksumType::Sha256),
        Err(DebianError::ControlFieldIntParse(_))
    ));
}

#[test]
fn index_table_round_trips() {
    let value = format!("{} 10 main/binary-amd64/Packages.xz\n{} 20 pool/f.deb", H64, H64);
    let rows = parse_checksum_table(&value, ChecksumType::Sha256).unwrap();
    let formatted = format_checksum_table(&rows);
    let rows2 = parse_checksum_table(&formatted, ChecksumType::Sha256).unwrap();
    assert_eq!(rows.len(), rows2.len());
    for (a, b) in rows.iter().zip(rows2.iter()) {
        assert_eq!(a.path, b.path);
        assert_eq!(a.size, b.size);
        assert_eq!(a.digest.hex_digest(), b.digest.hex_digest());
    }
}

fn entry(path: &str) -> ReleaseFileEntry {
    ReleaseFileEntry { path: path.to_string(), size: 1, digest: digest256(H64) }
}

#[test]
fn classification_recognizes_the_path_grammar() {
    match classify_entry(entry("main/binary-amd64/Packages.xz")) {
        ClassifiedReleaseFileEntry::Packages(p) => {
            assert_eq!(p.component, "main");
            assert_eq!(p.architecture, "amd64");
            assert!(!p.is_installer);
            assert_eq!(p.compression, Compression::Xz);
        }
        other => panic!("expected Packages, got {:?}", other),
    }
    match classify_entry(entry("main/debian-installer/binary-arm64/Packages.gz")) {
        ClassifiedReleaseFileEntry::Packages(p) => {
            assert_eq!(p.component, "main");
            assert_eq!(p.architecture, "arm64");
            assert!(p.is_installer);
            assert_eq!(p.compression, Compression::Gzip);
        }
        other => panic!("expected installer Packages, got {:?}", other),
    }
    match classify_entry(entry("contrib/source/Sources.bz2")) {
        ClassifiedReleaseFileEntry::Sources(s) => {
            assert_eq!(s.component, "contrib");
            assert_eq!(s.compression, Compression::Bzip2);
        }
        other => panic!("expected Sources, got {:?}", other),
    }
    match classify_entry(entry("Contents-amd64.zst")) {
        ClassifiedReleaseFileEntry::Contents(c) => {
            assert!(c.component.is_none());
            assert_eq!(c.architecture, "amd64");
            assert!(!c.is_installer);
            assert_eq!(c.compression, Compression::Zstd);
        }
        other => panic!("expected Contents, got {:?}", other),
    }
    match classify_entry(entry("main/Contents-udeb-amd64")) {
        ClassifiedReleaseFileEntry::Contents(c) => {
            assert_eq!(c.component.as_deref(), Some("main"));
            assert!(c.is_installer);
            assert_eq!(c.compression, Compression::Plain);
        }
        other => panic!("expected udeb Contents, got {:?}", other),
    }
    match classify_entry(entry("main/i18n/Translation-de.xz")) {
        ClassifiedReleaseFileEntry::Translation(t) => {
            assert_eq!(t.component, "main");
            assert_eq!(t.language, "de");
        }
        other => panic!("expected Translation, got {:?}", other),
    }
    assert!(matches!(
        classify_entry(entry("main/binary-amd64/Packages.diff/Index")),
        ClassifiedReleaseFileEntry::DiffIndex(_)
    ));
    assert!(matches!(
        classify_entry(entry("main/Release")),
        ClassifiedReleaseFileEntry::Other(_)
    ));
}

#[test]
fn by_hash_path_construction() {
    let e = ReleaseFileEntry {
        path: "main/binary-amd64/Packages.xz".to_string(),
        size: 7,
        digest: digest256(H64),
    };
    assert_eq!(
        e.by_hash_path(),
        format!("main/binary-amd64/by-hash/SHA256/{}", H64)
    );
    let bare = ReleaseFileEntry { path: "Packages".to_string(), size: 7, digest: digest256(H64) };
    assert_eq!(bare.by_hash_path(), format!("by-hash/SHA256/{}", H64));
}

#[test]
fn armored_release_parses_and_retains_signature() {
    let armored = "-----BEGIN PGP SIGNED MESSAGE-----\nHash: SHA256\n\n- Suite: escaped\nCodename: tst\n\n-----BEGIN PGP SIGNATURE-----\nabc\ndef\n-----END PGP SIGNATURE-----\n";
    let rf = ReleaseFile::from_armored_string(armored).unwrap();
    // The dash-escaped message line decodes to a normal field line.
    assert_eq!(rf.field("Suite"), Some("escaped".to_string()));
    assert_eq!(rf.codename(), Some("tst".to_string()));
    assert_eq!(rf.signature.as_deref(), Some("abc\ndef"));
}

#[test]
fn armored_release_rejects_bad_envelopes() {
    assert!(matches!(
        ReleaseFile::from_armored_string("Suite: test\n"),
        Err(DebianError::Pgp(_))
    ));
    assert!(matches!(
        ReleaseFile::from_armored_string(
            "-----BEGIN PGP SIGNED MESSAGE-----\nHash: X\n\nSuite: t\n"
        ),
        Err(DebianError::Pgp(_))
    ));
}

#[test]
fn utf8_is_checked_on_decoded_bytes() {
    assert_eq!(
        debian_packaging::io::bytes_to_string(b"Suite: x".to_vec()).unwrap(),
        "Suite: x"
    );
    assert!(matches!(
        debian_packaging::io::bytes_to_string(vec![0xff, 0xfe, 0x01]),
        Err(DebianError::ControlParseError(_))
    ));
    // The digest helper used across these tests matches the known
    // SHA-256 of the empty input.
    assert_eq!(sha256_hex(b""), H64);
}
