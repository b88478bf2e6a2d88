//! End-to-end reading scenarios against an in-memory repository.

use debian_packaging::checksum::{ChecksumType, ContentDigest};
use debian_packaging::compression::Compression;
use debian_packaging::control::ControlParagraph;
use debian_packaging::error::{DebianError, IoErrorKind};
use debian_packaging::io::{DataResolver, MemoryRepositoryReader, PrefixedResolver};
use debian_packaging::reader::{
    BinaryPackageControlFile, BinaryPackageFetch, ReleaseReader, RepositoryRootReader,
};
use debian_packaging::release::ReleaseFile;
use debian_packaging::release::ClassifiedReleaseFileEntry as ClassifiedEntry;
use debian_packaging::reader::binary_package_fetch;
use sha2::Digest;

fn sha256_hex(data: &[u8]) -> String {
    hex::encode(sha2::Sha256::digest(data))
}

fn digest256(hexstr: &str) -> ContentDigest {
    ContentDigest::from_hex_digest(ChecksumType::Sha256, hexstr).unwrap()
}

const H64: &str = "e3b0c44298fc1c149afbf4c8996fb92427ae41e4649b934ca495991b7852b855";

/// A minimal repository: `dists/test/Release` names one `Packages`
/// index, whose (uncompressed) content lists `packages` entries.
fn minimal_repo(acquire_by_hash: bool, by_hash_only: bool) -> (MemoryRepositoryReader, String) {
    let pkg_data = b"payload".to_vec();
    let pkg_hex = sha256_hex(&pkg_data);
    let packages_text = format!(
        "Package: foo\nVersion: 1.0\nFilename: pool/main/f/foo.deb\nSize: {}\nSHA256: {}\n",
        pkg_data.len(),
        pkg_hex
    );
    let packages_bytes = packages_text.as_bytes().to_vec();
    let idx_hex = sha256_hex(&packages_bytes);
    let release_text = format!(
        "Suite: test\n{}SHA256:\n {} {} main/binary-amd64/Packages\n",
        if acquire_by_hash { "Acquire-By-Hash: yes\n" } else { "" },
        idx_hex,
        packages_bytes.len()
    );
    let mut mem = MemoryRepositoryReader::new();
    mem.add("dists/test/Release".to_string(), release_text.as_bytes().to_vec());
    if by_hash_only {
        mem.add(
            format!("dists/test/main/binary-amd64/by-hash/SHA256/{}", idx_hex),
            packages_bytes,
        );
    } else {
        mem.add("dists/test/main/binary-amd64/Packages".to_string(), packages_bytes);
    }
    mem.add("pool/main/f/foo.deb".to_string(), pkg_data);
    (mem, idx_hex)
}

#[test]
fn minimal_repo_packages_entry() {
    let (mem, idx_hex) = minimal_repo(false, false);
    let root = RepositoryRootReader::new(mem);
    let rr = root.release_reader("test").unwrap();
    assert_eq!(rr.root_relative_path(), "dists/test");
    let entry = rr.packages_entry("main", "amd64", false).unwrap();
    assert_eq!(entry.entry.path, "main/binary-amd64/Packages");
    assert_eq!(entry.entry.digest.hex_digest(), idx_hex);
    assert_eq!(entry.compression, Compression::Plain);
    assert!(matches!(
        rr.packages_entry("main", "s390x", false),
        Err(DebianError::PackagesIndicesEntryNotFound)
    ));
}

#[test]
fn retrieve_checksum_prefers_sha256() {
    let rf = ReleaseFile::from_string(&format!("SHA256:\n {} 1 a\nMD5Sum:\n\n", H64)).unwrap();
    let rr = ReleaseReader {
        root_relative_path: "dists/test".to_string(),
        release: rf,
        preferred_compression: Compression::Xz,
    };
    assert!(matches!(rr.retrieve_checksum(), Ok(ChecksumType::Sha256)));

    let rf1 = ReleaseFile::from_string("SHA1:\n\n").unwrap();
    let rr1 = ReleaseReader {
        root_relative_path: String::new(),
        release: rf1,
        preferred_compression: Compression::Xz,
    };
    assert!(matches!(rr1.retrieve_checksum(), Ok(ChecksumType::Sha1)));

    let rf2 = ReleaseFile::from_string("Suite: x\n").unwrap();
    let rr2 = ReleaseReader {
        root_relative_path: String::new(),
        release: rf2,
        preferred_compression: Compression::Xz,
    };
    assert!(matches!(rr2.retrieve_checksum(), Err(DebianError::NoKnownChecksum)));
}

#[test]
fn preferred_compression_falls_back_in_default_order() {
    // Release advertises Packages.gz and plain Packages but no .xz;
    // with Xz preferred the .gz variant wins (first in fallback order).
    let release_text = format!(
        "SHA256:\n {} 10 main/binary-amd64/Packages.gz\n {} 20 main/binary-amd64/Packages\n",
        H64, H64
    );
    let rf = ReleaseFile::from_string(&release_text).unwrap();
    let mut rr = ReleaseReader {
        root_relative_path: "dists/test".to_string(),
        release: rf,
        preferred_compression: Compression::Xz,
    };
    assert_eq!(rr.preferred_compression(), Compression::Xz);
    let winners = rr.packages_indices_entries_preferred_compression().unwrap();
    assert_eq!(winners.len(), 1);
    assert_eq!(winners[0].compression, Compression::Gzip);
    // With the plain variant preferred, it wins directly.
    rr.set_preferred_compression(Compression::Plain);
    let winners = rr.packages_indices_entries_preferred_compression().unwrap();
    assert_eq!(winners[0].compression, Compression::Plain);
}

#[test]
fn preferred_compression_winner_is_returned_when_published() {
    // Both .xz and .gz variants exist; with Xz preferred the .xz
    // variant is the winner.
    let release_text = format!(
        "SHA256:\n {} 10 main/binary-amd64/Packages.xz\n {} 20 main/binary-amd64/Packages.gz\n",
        H64, H64
    );
    let rf = ReleaseFile::from_string(&release_text).unwrap();
    let rr = ReleaseReader {
        root_relative_path: "dists/test".to_string(),
        release: rf,
        preferred_compression: Compression::Xz,
    };
    let winners = rr.packages_indices_entries_preferred_compression().unwrap();
    assert_eq!(winners.len(), 1);
    assert_eq!(winners[0].compression, Compression::Xz);
    assert_eq!(winners[0].entry.size, 10);
}

#[test]
fn resolve_packages_fetches_and_parses() {
    let (mem, _) = minimal_repo(false, false);
    let root = RepositoryRootReader::new(mem);
    let rr = root.release_reader("test").unwrap();
    let scoped = PrefixedResolver::new(root.resolver(), "dists/test".to_string());
    let pkgs = rr.resolve_packages(&scoped, "main", "amd64", false).unwrap();
    assert_eq!(pkgs.len(), 1);
    let fetch = binary_package_fetch(pkgs.into_iter().next().unwrap()).unwrap();
    assert_eq!(fetch.path, "pool/main/f/foo.deb");
    assert_eq!(fetch.size, 7);
    assert_eq!(root.fetch_binary_package_generic(&fetch).unwrap(), b"payload".to_vec());
}

#[test]
fn digest_mismatch_surfaces_at_fetch() {
    let (mem, _) = minimal_repo(false, false);
    let root = RepositoryRootReader::new(mem);
    // Expect a digest other than what the backend returns.
    let wrong = H64;
    let fetch = BinaryPackageFetch {
        control_file: BinaryPackageControlFile { paragraph: ControlParagraph { fields: vec![] } },
        path: "pool/main/f/foo.deb".to_string(),
        size: 7,
        digest: digest256(wrong),
    };
    match root.fetch_binary_package_generic(&fetch) {
        Err(DebianError::IntegrityMismatch { path, expected, actual }) => {
            assert_eq!(path, "pool/main/f/foo.deb");
            assert_eq!(expected, wrong);
            assert_eq!(actual, sha256_hex(b"payload"));
        }
        other => panic!("expected IntegrityMismatch, got {:?}", other),
    }
    // With the right digest the bytes come back.
    let good = BinaryPackageFetch {
        digest: digest256(&sha256_hex(b"payload")),
        ..fetch
    };
    assert_eq!(root.fetch_binary_package_generic(&good).unwrap(), b"payload".to_vec());
}

#[test]
fn by_hash_routes_index_fetches() {
    // The index content exists only under its by-hash path; resolution
    // succeeds exactly because Acquire-By-Hash routes there.
    let (mem, _) = minimal_repo(true, true);
    let root = RepositoryRootReader::new(mem);
    let rr = root.release_reader("test").unwrap();
    let entry = rr.packages_entry("main", "amd64", false).unwrap();
    let scoped = PrefixedResolver::new(root.resolver(), "dists/test".to_string());
    let pkgs = rr.resolve_packages_from_entry(&scoped, &entry).unwrap();
    assert_eq!(pkgs.len(), 1);
    assert_eq!(pkgs[0].paragraph.field("Package"), Some("foo".to_string()));
    // Without Acquire-By-Hash the nominal path is fetched, which this
    // repository does not hold.
    let (mem2, _) = minimal_repo(false, true);
    let root2 = RepositoryRootReader::new(mem2);
    let rr2 = root2.release_reader("test").unwrap();
    let entry2 = rr2.packages_entry("main", "amd64", false).unwrap();
    let scoped2 = PrefixedResolver::new(root2.resolver(), "dists/test".to_string());
    assert!(matches!(
        rr2.resolve_packages_from_entry(&scoped2, &entry2),
        Err(DebianError::IoPath(_, IoErrorKind::NotFound))
    ));
}

#[test]
fn inrelease_is_preferred_and_notfound_falls_back() {
    // Only Release exists: the reader falls back.
    let (mem, _) = minimal_repo(false, false);
    let root = RepositoryRootReader::new(mem);
    assert!(root.release_reader("test").is_ok());
    // A present but malformed InRelease surfaces its own error instead
    // of falling back.
    let (mut mem2, _) = {
        let (m, h) = minimal_repo(false, false);
        (m, h)
    };
    mem2.add("dists/test/InRelease".to_string(), b"not armored".to_vec());
    let root2 = RepositoryRootReader::new(mem2);
    assert!(matches!(root2.release_reader("test"), Err(DebianError::Pgp(_))));
}

#[test]
fn parallel_filter_selects_only_matching_components() {
    // Ten Packages indices across five components and two
    // architectures; the filter keeps only component "main".
    let mut release_rows = String::new();
    let mut mem = MemoryRepositoryReader::new();
    let components = ["main", "c1", "c2", "c3", "c4"];
    for comp in components {
        for arch in ["amd64", "arm64"] {
            let text = format!(
                "Package: {}-{}\nFilename: pool/{}/{}.deb\nSize: 1\nSHA256: {}\n",
                comp, arch, comp, arch, H64
            );
            let bytes = text.as_bytes().to_vec();
            let path = format!("{}/binary-{}/Packages", comp, arch);
            release_rows.push_str(&format!(
                " {} {} {}\n",
                sha256_hex(&bytes),
                bytes.len(),
                path
            ));
            mem.add(format!("dists/test/{}", path), bytes);
        }
    }
    let release_text = format!("Suite: test\nSHA256:\n{}", release_rows);
    mem.add("dists/test/Release".to_string(), release_text.as_bytes().to_vec());
    let root = RepositoryRootReader::new(mem);
    let rr = root.release_reader("test").unwrap();
    let scoped = PrefixedResolver::new(root.resolver(), "dists/test".to_string());
    let fetches = rr
        .resolve_package_fetches(
            &scoped,
            |e| e.component == "main",
            |_| true,
            3,
        )
        .unwrap();
    assert_eq!(fetches.len(), 2);
    let mut names: Vec<String> = fetches
        .iter()
        .map(|f| f.control_file.paragraph.field("Package").unwrap())
        .collect();
    names.sort();
    assert_eq!(names, vec!["main-amd64".to_string(), "main-arm64".to_string()]);
    // Every fetch carries the fields of its own paragraph.
    for f in &fetches {
        assert_eq!(f.size, 1);
        assert_eq!(f.digest.hex_digest(), H64);
        assert!(f.path.starts_with("pool/main/"));
    }
}

#[test]
fn missing_package_fields_surface_their_errors() {
    let para = |text: &str| BinaryPackageControlFile {
        paragraph: debian_packaging::control::parse_paragraphs(text)
            .unwrap()
            .remove(0),
    };
    assert!(matches!(
        binary_package_fetch(para("Package: x\n")),
        Err(DebianError::ControlRequiredFieldMissing(f)) if f == "Filename"
    ));
    assert!(matches!(
        binary_package_fetch(para("Filename: f\n")),
        Err(DebianError::ControlRequiredFieldMissing(f)) if f == "Size"
    ));
    assert!(matches!(
        binary_package_fetch(para("Filename: f\nSize: 4x\n")),
        Err(DebianError::ControlFieldIntParse(_))
    ));
    assert!(matches!(
        binary_package_fetch(para("Filename: f\nSize: 4\n")),
        Err(DebianError::CouldNotDeterminePackageDigest)
    ));
    assert!(matches!(
        binary_package_fetch(para("Filename: f\nSize: 4\nSHA256: zz\n")),
        Err(DebianError::BadHex(_))
    ));
    // The strongest digest field present is chosen.
    let md5 = "d41d8cd98f00b204e9800998ecf8427e";
    let f = binary_package_fetch(para(&format!(
        "Filename: f\nSize: 4\nMD5sum: {}\nSHA256: {}\n",
        md5, H64
    )))
    .unwrap();
    assert_eq!(f.digest.algorithm, ChecksumType::Sha256);
    let f2 = binary_package_fetch(para(&format!("Filename: f\nSize: 4\nMD5sum: {}\n", md5)))
        .unwrap();
    assert_eq!(f2.digest.algorithm, ChecksumType::Md5);
}

#[test]
fn source_file_fetches_expand_checksum_rows() {
    let text = format!(
        "Package: src\nDirectory: pool/main/s/src\nChecksums-Sha256:\n {} 5 src_1.0.dsc\n {} 9 src_1.0.tar.xz\n",
        H64, H64
    );
    let cf = debian_packaging::reader::DebianSourceControlFile {
        paragraph: debian_packaging::control::parse_paragraphs(&text).unwrap().remove(0),
    };
    let fetches = cf.file_fetches(ChecksumType::Sha256).unwrap();
    assert_eq!(fetches.len(), 2);
    assert_eq!(fetches[0].path, "pool/main/s/src/src_1.0.dsc");
    assert_eq!(fetches[0].size, 5);
    assert_eq!(fetches[1].path, "pool/main/s/src/src_1.0.tar.xz");
    // The MD5 flavor reads the Files field, which this paragraph lacks.
    assert!(matches!(
        cf.file_fetches(ChecksumType::Md5),
        Err(DebianError::ControlRequiredFieldMissing(f)) if f == "Files"
    ));
}

#[test]
fn sources_resolution_end_to_end() {
    let sources_text = format!(
        "Package: src\nDirectory: pool/main/s/src\nChecksums-Sha256:\n {} 5 src_1.0.dsc\n",
        H64
    );
    let sources_bytes = sources_text.as_bytes().to_vec();
    let release_text = format!(
        "Suite: test\nSHA256:\n {} {} main/source/Sources\n",
        sha256_hex(&sources_bytes),
        sources_bytes.len()
    );
    let mut mem = MemoryRepositoryReader::new();
    mem.add("dists/test/Release".to_string(), release_text.as_bytes().to_vec());
    mem.add("dists/test/main/source/Sources".to_string(), sources_bytes);
    let root = RepositoryRootReader::new(mem);
    let rr = root.release_reader("test").unwrap();
    let entry = rr.sources_entry("main").unwrap();
    assert_eq!(entry.component, "main");
    let scoped = PrefixedResolver::new(root.resolver(), "dists/test".to_string());
    let sources = rr.resolve_sources(&scoped, "main").unwrap();
    assert_eq!(sources.len(), 1);
    let fetches = rr
        .resolve_source_fetches(&scoped, |_| true, |_| true, 1)
        .unwrap();
    assert_eq!(fetches.len(), 1);
    assert_eq!(fetches[0].fetch.path, "pool/main/s/src/src_1.0.dsc");
    assert!(matches!(
        rr.sources_entry("contrib"),
        Err(DebianError::SourcesIndicesEntryNotFound)
    ));
}

#[test]
fn contents_resolution_end_to_end() {
    let contents_text = "usr/bin/foo utils/foo\nusr/share/doc admin/bar,utils/foo\n";
    let contents_bytes = contents_text.as_bytes().to_vec();
    let release_text = format!(
        "Suite: test\nSHA256:\n {} {} main/Contents-amd64\n",
        sha256_hex(&contents_bytes),
        contents_bytes.len()
    );
    let mut mem = MemoryRepositoryReader::new();
    mem.add("dists/test/Release".to_string(), release_text.as_bytes().to_vec());
    mem.add("dists/test/main/Contents-amd64".to_string(), contents_bytes);
    let root = RepositoryRootReader::new(mem);
    let rr = root.release_reader("test").unwrap();
    let entry = rr.contents_entry(Some("main"), "amd64", false).unwrap();
    assert_eq!(entry.architecture, "amd64");
    let scoped = PrefixedResolver::new(root.resolver(), "dists/test".to_string());
    let contents = rr.resolve_contents(&scoped, Some("main"), "amd64", false).unwrap();
    assert_eq!(contents.lines.len(), 2);
    assert_eq!(contents.lines[0].file_path, "usr/bin/foo");
    assert_eq!(contents.lines[1].packages, vec!["admin/bar".to_string(), "utils/foo".to_string()]);
    assert!(matches!(
        rr.contents_entry(None, "amd64", false),
        Err(DebianError::ContentsIndicesEntryNotFound)
    ));
}

#[test]
fn classified_entries_cover_the_table() {
    let release_text = format!(
        "SHA256:\n {} 1 main/binary-amd64/Packages.xz\n {} 2 main/source/Sources.gz\n {} 3 Contents-amd64\n {} 4 odd/path\n",
        H64, H64, H64, H64
    );
    let rf = ReleaseFile::from_string(&release_text).unwrap();
    let rr = ReleaseReader {
        root_relative_path: String::new(),
        release: rf,
        preferred_compression: Compression::Xz,
    };
    let classified = rr.classified_indices_entries().unwrap();
    assert_eq!(classified.len(), 4);
    assert!(matches!(classified[0], ClassifiedEntry::Packages(_)));
    assert!(matches!(classified[1], ClassifiedEntry::Sources(_)));
    assert!(matches!(classified[2], ClassifiedEntry::Contents(_)));
    assert!(matches!(classified[3], ClassifiedEntry::Other(_)));
    // A resolver is not consulted for classification.
    let _ = MemoryRepositoryReader::new().get_path("x").unwrap_err();
}
