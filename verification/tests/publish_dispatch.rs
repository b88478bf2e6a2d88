//! Digest verification, verified copy, publish events, backend
//! dispatch, compression, and install locations.

use debian_packaging::checksum::{compute_digest, ChecksumType, ContentDigest};
use debian_packaging::compression::{decompress, Compression, DebCompression};
use debian_packaging::dispatch::{reader_from_str, writer_from_str, ReaderBackend, WriterBackend};
use debian_packaging::error::DebianError;
use debian_packaging::install_location::{resolve_install_location, InstallLocation};
use debian_packaging::io::{verify_content, DigestVerifier, MemoryRepositoryReader};
use sha2::Digest;
use std::io::Read;
use debian_packaging::publish::{
    copy_from, parse_sink_verify_behavior, CopyPhase, MemoryRepositoryWriter, PublishEvent,
    RepositoryPathVerificationState, RepositoryWriteOperation, RepositoryWriter, SinkWriter,
    SinkWriterVerifyBehavior,
};

fn sha256_digest(data: &[u8]) -> ContentDigest {
    ContentDigest::from_hex_digest(
        ChecksumType::Sha256,
        &hex::encode(sha2::Sha256::digest(data)),
    )
    .unwrap()
}

#[test]
fn verified_wrapper_releases_matching_bytes() {
    let data = b"some index bytes".to_vec();
    let digest = sha256_digest(&data);
    let out = verify_content(data.clone(), "p", data.len() as u64, &digest).unwrap();
    assert_eq!(out, data);
    // Mutating any byte yields IntegrityMismatch with both digests.
    let mut bad = data.clone();
    bad[3] ^= 0xff;
    match verify_content(bad.clone(), "p", data.len() as u64, &digest) {
        Err(DebianError::IntegrityMismatch { path, expected, actual }) => {
            assert_eq!(path, "p");
            assert_eq!(expected, digest.hex_digest());
            assert_eq!(actual, sha256_digest(&bad).hex_digest());
        }
        other => panic!("expected IntegrityMismatch, got {:?}", other),
    }
    // A byte-count mismatch reports the two counts in decimal.
    match verify_content(data.clone(), "p", 3, &digest) {
        Err(DebianError::IntegrityMismatch { expected, actual, .. }) => {
            assert_eq!(expected, "3");
            assert_eq!(actual, data.len().to_string());
        }
        other => panic!("expected IntegrityMismatch, got {:?}", other),
    }
}

#[test]
fn digest_verifier_streams_chunks() {
    let digest = sha256_digest(b"hello world");
    let mut v = DigestVerifier::new(11, digest);
    v.update(&b"hello ".to_vec());
    v.update(&b"world".to_vec());
    assert_eq!(v.finish("x").unwrap(), b"hello world".to_vec());
    // All three algorithms compute real digests.
    assert_eq!(
        hex::encode(compute_digest(ChecksumType::Md5, &b"abc".to_vec())),
        "900150983cd24fb0d6963f7d28e17f72"
    );
    assert_eq!(
        hex::encode(compute_digest(ChecksumType::Sha1, &b"abc".to_vec())),
        "a9993e364706816aba3e25717850c26c9cd0d89d"
    );
    assert_eq!(
        hex::encode(compute_digest(ChecksumType::Sha256, &b"abc".to_vec())),
        "ba7816bf8f01cfea414140de5dae2223b00361a396177a9cb410ff61f20015ad"
    );
}

#[test]
fn copy_noop_when_destination_verified() {
    // The sink reports ExistsIntegrityVerified: copy_from is a no-op,
    // emits only the verification event, and never touches the reader
    // (which does not hold the source path at all).
    let mut sink = SinkWriter::new();
    sink.set_verify_behavior(SinkWriterVerifyBehavior::ExistsIntegrityVerified);
    let reader = MemoryRepositoryReader::new();
    let expected = Some((42u64, sha256_digest(b"irrelevant")));
    let mut events: Vec<PublishEvent> = Vec::new();
    match copy_from(&mut sink, &reader, "src/p", &expected, "dst/p", &mut events) {
        Ok(RepositoryWriteOperation::Noop(path, size)) => {
            assert_eq!(path, "dst/p");
            assert_eq!(size, 42);
        }
        other => panic!("expected Noop, got {:?}", other),
    }
    assert_eq!(events.len(), 1);
    assert!(matches!(&events[0], PublishEvent::VerifyingDestinationPath(p) if p == "dst/p"));
}

#[test]
fn copy_twice_writes_then_noops() {
    let data = b"artifact".to_vec();
    let digest = sha256_digest(&data);
    let expected = Some((data.len() as u64, digest));
    let mut reader = MemoryRepositoryReader::new();
    reader.add("pool/a".to_string(), data.clone());
    let mut writer = MemoryRepositoryWriter::new();
    let mut events: Vec<PublishEvent> = Vec::new();
    match copy_from(&mut writer, &reader, "pool/a", &expected, "pool/a", &mut events) {
        Ok(RepositoryWriteOperation::PathWritten(w)) => {
            assert_eq!(w.path, "pool/a");
            assert_eq!(w.bytes_written, data.len() as u64);
        }
        other => panic!("expected PathWritten, got {:?}", other),
    }
    assert_eq!(events.len(), 2);
    assert!(matches!(&events[1], PublishEvent::CopyingPath(s, d) if s == "pool/a" && d == "pool/a"));
    // Second run: the honest writer now verifies the content, so the
    // copy is a no-op.
    let mut events2: Vec<PublishEvent> = Vec::new();
    match copy_from(&mut writer, &reader, "pool/a", &expected, "pool/a", &mut events2) {
        Ok(RepositoryWriteOperation::Noop(path, size)) => {
            assert_eq!(path, "pool/a");
            assert_eq!(size, data.len() as u64);
        }
        other => panic!("expected Noop, got {:?}", other),
    }
    assert_eq!(events2.len(), 1);
}

#[test]
fn memory_writer_reports_honest_states() {
    let data = b"bytes".to_vec();
    let digest = sha256_digest(&data);
    let mut w = MemoryRepositoryWriter::new();
    let missing = w.verify_path("p", &None).unwrap();
    assert!(matches!(missing.state, RepositoryPathVerificationState::Missing));
    w.write_path("p", data.clone()).unwrap();
    let unchecked = w.verify_path("p", &None).unwrap();
    assert!(matches!(unchecked.state, RepositoryPathVerificationState::ExistsNoIntegrityCheck));
    let verified = w
        .verify_path("p", &Some((data.len() as u64, digest)))
        .unwrap();
    assert!(matches!(verified.state, RepositoryPathVerificationState::ExistsIntegrityVerified));
    let mismatch = w
        .verify_path("p", &Some((data.len() as u64, sha256_digest(b"other"))))
        .unwrap();
    assert!(matches!(mismatch.state, RepositoryPathVerificationState::ExistsIntegrityMismatch));
    assert_eq!(
        verified.describe(),
        "p exists (integrity verified)"
    );
    assert_eq!(missing.describe(), "p missing");
}

#[test]
fn publish_event_descriptions() {
    assert_eq!(
        PublishEvent::ResolvedPoolArtifacts(3).describe(),
        "resolved 3 needed pool artifacts"
    );
    assert_eq!(
        PublishEvent::PoolArtifactCreated("pool/a".to_string(), 17).describe(),
        "wrote 17 bytes to pool/a"
    );
    assert_eq!(
        PublishEvent::CopyPhaseBegin(CopyPhase::BinaryPackages).describe(),
        "beginning copying of binary packages"
    );
    assert_eq!(
        PublishEvent::CopyPhaseEnd(CopyPhase::ReleaseFiles).describe(),
        "finished copying of release files"
    );
    assert_eq!(
        PublishEvent::CopyingPath("a".to_string(), "b".to_string()).describe(),
        "copying a to b"
    );
    assert_eq!(
        PublishEvent::PathCopyNoop("x".to_string()).describe(),
        "copy of x was a no-op"
    );
    assert_eq!(PublishEvent::WriteSequenceFinished.describe(), "");
}

#[test]
fn progress_events_are_not_loggable() {
    assert!(PublishEvent::WriteSequenceBeginWithTotalBytes(9).is_progress());
    assert!(PublishEvent::WriteSequenceProgressBytes(1).is_progress());
    assert!(PublishEvent::WriteSequenceFinished.is_progress());
    assert!(!PublishEvent::WriteSequenceFinished.is_loggable());
    assert!(!PublishEvent::PathCopyNoop("x".to_string()).is_progress());
    assert!(PublishEvent::PathCopyNoop("x".to_string()).is_loggable());
    let op = RepositoryWriteOperation::Noop("p".to_string(), 5);
    assert_eq!(op.bytes_written(), 5);
}

#[test]
fn reader_dispatch() {
    assert!(matches!(
        reader_from_str("/srv/repo"),
        Ok(ReaderBackend::Filesystem { root }) if root == "/srv/repo"
    ));
    assert!(matches!(
        reader_from_str("file:///srv/repo"),
        Ok(ReaderBackend::Filesystem { root }) if root == "/srv/repo"
    ));
    assert!(matches!(
        reader_from_str("http://example.com/debian"),
        Ok(ReaderBackend::Http { url }) if url == "http://example.com/debian"
    ));
    assert!(matches!(
        reader_from_str("https://example.com"),
        Ok(ReaderBackend::Http { .. })
    ));
    assert!(matches!(
        reader_from_str("ftp://example.com"),
        Err(DebianError::ReaderUnrecognizedUrl(_))
    ));
    assert!(matches!(
        reader_from_str("http://["),
        Err(DebianError::Url(_))
    ));
}

#[test]
fn writer_dispatch() {
    assert!(matches!(
        writer_from_str("/srv/out"),
        Ok(WriterBackend::Filesystem { root }) if root == "/srv/out"
    ));
    assert!(matches!(
        writer_from_str("file:///srv/out"),
        Ok(WriterBackend::Filesystem { root }) if root == "/srv/out"
    ));
    assert!(matches!(
        writer_from_str("null://missing"),
        Ok(WriterBackend::Null { behavior: SinkWriterVerifyBehavior::Missing })
    ));
    assert!(matches!(
        writer_from_str("null://exists-integrity-verified"),
        Ok(WriterBackend::Null { behavior: SinkWriterVerifyBehavior::ExistsIntegrityVerified })
    ));
    assert!(matches!(
        writer_from_str("null://nonsense"),
        Err(DebianError::SinkWriterVerifyBehaviorUnknown(h)) if h == "nonsense"
    ));
    assert!(matches!(
        writer_from_str("gopher://x"),
        Err(DebianError::WriterUnrecognizedUrl(_))
    ));
    match writer_from_str("s3:///bucket/some/prefix") {
        Ok(WriterBackend::S3 { bucket, prefix }) => {
            assert_eq!(bucket, "bucket");
            assert_eq!(prefix.as_deref(), Some("some/prefix"));
        }
        other => panic!("expected S3, got {:?}", other),
    }
    assert!(matches!(
        parse_sink_verify_behavior("exists-no-integrity-check"),
        Ok(SinkWriterVerifyBehavior::ExistsNoIntegrityCheck)
    ));
}

#[test]
fn compression_round_trips() {
    let data: Vec<u8> = (0u8..=255).cycle().take(4096).collect();
    // Uncompressed passes bytes through.
    assert_eq!(DebCompression::Uncompressed.compress(&data).unwrap(), data);
    assert_eq!(DebCompression::Uncompressed.extension(), "");
    // Each encoder's output decodes back to the input.
    let gz = DebCompression::Gzip.compress(&data).unwrap();
    assert_ne!(gz, data);
    assert_eq!(decompress(Compression::Gzip, &gz).unwrap(), data);
    let xz = DebCompression::Xz(6).compress(&data).unwrap();
    assert_eq!(decompress(Compression::Xz, &xz).unwrap(), data);
    assert_eq!(DebCompression::Xz(6).extension(), ".xz");
    let zst = DebCompression::Zstandard(3).compress(&data).unwrap();
    assert_eq!(decompress(Compression::Zstd, &zst).unwrap(), data);
    assert_eq!(DebCompression::Zstandard(3).extension(), ".zst");
    // Plain "decompression" is the identity.
    assert_eq!(decompress(Compression::Plain, &data).unwrap(), data);
    // Malformed input is rejected, not passed through.
    assert!(decompress(Compression::Gzip, &data).is_none());
    assert!(decompress(Compression::Xz, &data).is_none());
    assert!(decompress(Compression::Zstd, &data).is_none());
}

#[test]
fn bzip2_decodes_external_streams() {
    let data = b"bzip2 round trip payload".to_vec();
    let mut encoder =
        bzip2::read::BzEncoder::new(std::io::Cursor::new(&data), bzip2::Compression::best());
    let mut bz = Vec::new();
    encoder.read_to_end(&mut bz).unwrap();
    assert_eq!(decompress(Compression::Bzip2, &bz).unwrap(), data);
    assert_eq!(Compression::Bzip2.extension(), ".bz2");
}

#[test]
fn lzma_decodes_external_streams() {
    let data = b"legacy lzma container payload".to_vec();
    let opts = xz2::stream::LzmaOptions::new_preset(6).unwrap();
    let stream = xz2::stream::Stream::new_lzma_encoder(&opts).unwrap();
    let mut encoder = xz2::bufread::XzEncoder::new_stream(std::io::Cursor::new(&data), stream);
    let mut lz = Vec::new();
    encoder.read_to_end(&mut lz).unwrap();
    assert_eq!(decompress(Compression::Lzma, &lz).unwrap(), data);
}

#[test]
fn compression_metadata() {
    assert_eq!(Compression::Plain.extension(), "");
    assert_eq!(Compression::Lzma.extension(), ".lzma");
    let order = Compression::default_preferred_order();
    assert_eq!(
        order,
        vec![
            Compression::Xz,
            Compression::Bzip2,
            Compression::Gzip,
            Compression::Lzma,
            Compression::Plain,
            Compression::Zstd,
        ]
    );
    let co = ChecksumType::preferred_order();
    assert_eq!(
        co,
        vec![ChecksumType::Sha256, ChecksumType::Sha1, ChecksumType::Md5]
    );
    assert_eq!(ChecksumType::Sha256.field_name(), "SHA256");
    assert_eq!(ChecksumType::Md5.field_name(), "MD5Sum");
    assert_eq!(ChecksumType::Md5.package_field_name(), "MD5sum");
}

#[test]
fn install_locations_parse() {
    assert!(matches!(
        resolve_install_location("embedded"),
        Ok(InstallLocation::Embedded)
    ));
    assert!(matches!(
        resolve_install_location("app-relative:lib/app"),
        Ok(InstallLocation::AppRelative { path }) if path == "lib/app"
    ));
    match resolve_install_location("elsewhere") {
        Err(m) => assert_eq!(m, "invalid install_location: elsewhere"),
        Ok(_) => panic!("expected an error"),
    }
}
