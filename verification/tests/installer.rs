//! Archive checks and extraction layout.

use std::io::Write as _;

use tusk::installer::{
    detect_common_prefix, download_outcome, entry_destination, extraction_plan, strip_prefix, verify_shasum, Cache, CurlError,
    DownloadError, InstallError,
};

fn sha1_of(bytes: &[u8]) -> String {
    let mut hasher = sha1_smol::Sha1::new();
    hasher.update(bytes);
    hasher.digest().to_string()
}

fn make_zip(entries: &[(&str, &[u8])]) -> Vec<u8> {
    let mut zip = zip::ZipWriter::new(std::io::Cursor::new(Vec::new()));
    let opts = zip::write::SimpleFileOptions::default();
    for (name, body) in entries {
        if name.ends_with('/') {
            zip.add_directory(*name, opts).unwrap();
        } else {
            zip.start_file(*name, opts).unwrap();
            zip.write_all(body).unwrap();
        }
    }
    zip.finish().unwrap().into_inner()
}

#[test]
fn verify_shasum_accepts_matching_digest() {
    let bytes = make_zip(&[("composer.json", b"{\"name\": \"acme/foo\"}")]);
    let sha = sha1_of(&bytes);
    assert!(verify_shasum(&bytes, &sha).is_ok());
}

#[test]
fn verify_shasum_known_digest() {
    assert!(verify_shasum(b"abc", "a9993e364706816aba3e25717850c26c9cd0d89d").is_ok());
    let err = verify_shasum(b"abd", "a9993e364706816aba3e25717850c26c9cd0d89d").unwrap_err();
    match err {
        DownloadError::ShasumMismatch { expected, actual } => {
            assert_eq!(expected, "a9993e364706816aba3e25717850c26c9cd0d89d");
            assert_eq!(actual.len(), 40);
            assert_ne!(actual, "abd");
        }
        other => panic!("expected a shasum mismatch, got {other:?}"),
    }
}

#[test]
fn verify_shasum_rejects_tampered_archive() {
    let bytes = make_zip(&[("composer.json", b"{\"name\": \"acme/foo\"}")]);
    let sha = sha1_of(&bytes);
    let tampered = &bytes[..bytes.len() / 2];
    let err = verify_shasum(tampered, &sha).expect_err("tampered archive must be rejected (shasum mismatch)");
    assert!(err.message().starts_with("shasum mismatch: expected "));
}

#[test]
fn verify_shasum_accepts_anything_without_expected_digest() {
    assert!(verify_shasum(b"whatever", "").is_ok());
}

#[test]
fn download_error_messages() {
    assert_eq!(DownloadError::Http("boom".to_string()).message(), "http error: boom");
    let e = DownloadError::ShasumMismatch { expected: "aa".to_string(), actual: "bb".to_string() };
    assert_eq!(e.message(), "shasum mismatch: expected aa, got bb");
    assert_eq!(InstallError::Failed("x".to_string()).message(), "install failed: x");
    let c = CurlError::HttpStatus { status: 404, url: "https://e/x.zip".to_string() };
    assert_eq!(c.message(), "HTTP 404 for https://e/x.zip");
    assert_eq!(CurlError::Multi("m".to_string()).message(), "curl multi error: m");
    assert_eq!(CurlError::Easy("e".to_string()).message(), "curl easy error: e");
}

#[test]
fn common_prefix_of_single_directory_archive() {
    let names = vec![
        "acme-foo-1.2.3/".to_string(),
        "acme-foo-1.2.3/src/Foo.php".to_string(),
        "acme-foo-1.2.3/composer.json".to_string(),
    ];
    assert_eq!(detect_common_prefix(&names), "acme-foo-1.2.3/");
}

#[test]
fn common_prefix_absent_for_top_level_file_or_mixed_dirs() {
    let names = vec!["composer.json".to_string(), "src/Foo.php".to_string()];
    assert_eq!(detect_common_prefix(&names), "");
    let names = vec!["a/x".to_string(), "b/y".to_string()];
    assert_eq!(detect_common_prefix(&names), "");
    assert_eq!(detect_common_prefix(&Vec::new()), "");
}

#[test]
fn strip_prefix_and_destinations() {
    assert_eq!(strip_prefix("acme-foo/src/Foo.php", "acme-foo/"), "src/Foo.php");
    assert_eq!(strip_prefix("other/src/Foo.php", "acme-foo/"), "other/src/Foo.php");
    assert_eq!(strip_prefix("src/Foo.php", ""), "src/Foo.php");
    assert_eq!(entry_destination("acme-foo/", "acme-foo/"), None);
    assert_eq!(entry_destination("acme-foo/src/", "acme-foo/").as_deref(), Some("src/"));
    assert_eq!(entry_destination("/", ""), None);
}

#[test]
fn extraction_plan_strips_common_directory() {
    let bytes = make_zip(&[
        ("acme-foo-1.0/", b""),
        ("acme-foo-1.0/composer.json", b"{}"),
        ("acme-foo-1.0/src/Foo.php", b"<?php class Foo {}"),
    ]);
    let plan = extraction_plan(&bytes).expect("a valid archive");
    assert_eq!(plan, vec![None, Some("composer.json".to_string()), Some("src/Foo.php".to_string())]);
}

#[test]
fn extraction_plan_keeps_flat_archive() {
    let bytes = make_zip(&[("composer.json", b"{\"name\": \"acme/foo\"}")]);
    let plan = extraction_plan(&bytes).expect("a valid archive");
    assert_eq!(plan, vec![Some("composer.json".to_string())]);
}

#[test]
fn extraction_plan_rejects_garbage() {
    assert!(extraction_plan(b"not a zip archive").is_err());
}

#[test]
fn cache_handle_keeps_its_root() {
    let c = Cache::new("/tmp/cache".to_string());
    assert_eq!(c.root, "/tmp/cache");
}

#[test]
fn download_outcome_keeps_bodies_of_successful_transfers() {
    assert_eq!(download_outcome("https://x/a.zip", Ok(200), vec![1, 2, 3]).unwrap(), vec![1, 2, 3]);
    assert_eq!(download_outcome("https://x/a.zip", Ok(302), vec![4]).unwrap(), vec![4]);
    match download_outcome("https://x/a.zip", Ok(404), vec![9]) {
        Err(CurlError::HttpStatus { status, url }) => {
            assert_eq!(status, 404);
            assert_eq!(url, "https://x/a.zip");
        },
        other => panic!("unexpected {other:?}"),
    }
    match download_outcome("https://x/a.zip", Err("reset".to_owned()), vec![]) {
        Err(CurlError::Easy(m)) => assert_eq!(m, "reset"),
        other => panic!("unexpected {other:?}"),
    }
}

#[test]
fn entries_that_would_leave_the_package_directory_are_skipped() {
    assert_eq!(entry_destination("../x", ""), None);
    assert_eq!(entry_destination("pkg/../../x", "pkg/"), None);
    assert_eq!(entry_destination("pkg/src/..", "pkg/"), None);
    assert_eq!(entry_destination("/etc/passwd", ""), None);
    assert_eq!(entry_destination("pkg//etc/passwd", "pkg/"), None);
    assert_eq!(entry_destination("pkg/a/..b/c", "pkg/").as_deref(), Some("a/..b/c"));
    assert_eq!(entry_destination("pkg/a.../x", "pkg/").as_deref(), Some("a.../x"));
}
