//! The answers of a batch of p2 metadata transfers.

use tusk::curl_metadata::{batch_outcome, fetch_batch, metadata_from_response, missing_keys, CurlMetadataError, MetadataResponse};
use tusk::registry::{DistRef, PackageMetadata, PackageVersion, RegistryError};
use tusk::require_map::RequireMap;
use tusk::version::{Stability, Version};

const BODY: &str = r#"{"packages": {"acme/foo": [
    {"version": "1.2.0", "dist": {"url": "https://example.com/foo.zip", "shasum": "ab"}}
]}}"#;

fn ok(body: &str) -> MetadataResponse {
    MetadataResponse { code: Ok(200), body: body.as_bytes().to_vec() }
}

fn one_version(url: &str) -> PackageMetadata {
    PackageMetadata {
        versions: vec![PackageVersion {
            version: Version {
                major: 1,
                minor: 0,
                patch: 0,
                tweak: None,
                stability: Stability::Stable,
                stability_n: None,
                dev_branch: None,
                is_v_prefixed: false,
            },
            dist: DistRef { url: url.to_owned(), shasum: String::new(), kind: "zip".to_owned() },
            require: RequireMap::new(),
        }],
    }
}

#[test]
fn curl_metadata_test_empty_batch() {
    let result = fetch_batch("https://example.com", &vec![], &vec![]);
    assert!(result.is_empty());
}

#[test]
fn response_with_success_status_is_read_as_metadata() {
    let meta = metadata_from_response("https://repo.example", "acme/foo", &ok(BODY)).expect("metadata");
    assert_eq!(meta.versions.len(), 1);
    assert_eq!(meta.versions[0].version.minor, 2);
    assert_eq!(meta.versions[0].dist.url, "https://example.com/foo.zip");
    let redirect = MetadataResponse { code: Ok(304), body: BODY.as_bytes().to_vec() };
    assert!(metadata_from_response("https://repo.example", "acme/foo", &redirect).is_ok());
}

#[test]
fn response_404_means_package_not_found() {
    let r = MetadataResponse { code: Ok(404), body: Vec::new() };
    match metadata_from_response("https://repo.example", "acme/foo", &r) {
        Err(CurlMetadataError::Parse { url, source }) => {
            assert_eq!(url, "https://repo.example/p2/acme/foo.json");
            assert_eq!(source, RegistryError::NotFound("acme/foo".to_owned()));
        },
        other => panic!("unexpected {other:?}"),
    }
}

#[test]
fn response_with_other_status_names_the_url() {
    let r = MetadataResponse { code: Ok(500), body: Vec::new() };
    let e = metadata_from_response("https://repo.example", "acme/foo", &r).unwrap_err();
    assert_eq!(e.message(), "HTTP 500 for https://repo.example/p2/acme/foo.json");
    assert_eq!(e.into_registry_error(), RegistryError::Network("HTTP 500 for https://repo.example/p2/acme/foo.json".to_owned()));
    let r = MetadataResponse { code: Ok(199), body: Vec::new() };
    assert!(matches!(
        metadata_from_response("https://repo.example", "acme/foo", &r),
        Err(CurlMetadataError::HttpStatus { status: 199, .. })
    ));
}

#[test]
fn response_without_status_is_a_transfer_error() {
    let r = MetadataResponse { code: Err("timed out".to_owned()), body: Vec::new() };
    let e = metadata_from_response("https://repo.example", "acme/foo", &r).unwrap_err();
    assert_eq!(e.message(), "curl easy error: timed out");
    assert_eq!(e.into_registry_error(), RegistryError::Network("timed out".to_owned()));
}

#[test]
fn unreadable_bodies_are_parse_errors() {
    let e = metadata_from_response("https://repo.example", "acme/foo", &ok("not json")).unwrap_err();
    assert!(e.message().starts_with("parse error for https://repo.example/p2/acme/foo.json: parse error: "));
    let e = metadata_from_response("https://repo.example", "acme/bar", &ok(BODY)).unwrap_err();
    assert_eq!(
        e.message(),
        "parse error for https://repo.example/p2/acme/bar.json: parse error: missing packages.acme/bar array in response"
    );
    assert_eq!(
        e.into_registry_error(),
        RegistryError::Parse("missing packages.acme/bar array in response".to_owned())
    );
}

#[test]
fn multi_errors_read_as_network_errors() {
    let e = CurlMetadataError::Multi("boom".to_owned());
    assert_eq!(e.message(), "curl multi error: boom");
    assert_eq!(e.into_registry_error(), RegistryError::Network("boom".to_owned()));
}

#[test]
fn batch_keeps_one_result_per_key_in_order() {
    let keys = vec!["acme/foo".to_owned(), "acme/bar".to_owned()];
    let responses = vec![ok(BODY), MetadataResponse { code: Ok(404), body: Vec::new() }];
    let r = fetch_batch("https://repo.example", &keys, &responses);
    assert_eq!(r.len(), 2);
    assert!(r[0].is_ok());
    assert!(matches!(&r[1], Err(CurlMetadataError::Parse { source: RegistryError::NotFound(k), .. }) if k == "acme/bar"));
}

#[test]
fn only_keys_missing_from_the_cache_are_fetched() {
    let keys = vec!["a/a".to_owned(), "b/b".to_owned(), "c/c".to_owned()];
    let cached = vec![None, Some(one_version("b")), None];
    let missing = missing_keys(&keys, &cached);
    assert_eq!(missing, vec![(0, "a/a".to_owned()), (2, "c/c".to_owned())]);
}

#[test]
fn batch_combines_cache_and_fetched_answers() {
    let keys = vec!["a/a".to_owned(), "b/b".to_owned(), "c/c".to_owned()];
    let cached = vec![None, Some(one_version("b")), None];
    let fetched = vec![Ok(one_version("a")), Err(CurlMetadataError::Easy("x".to_owned()))];
    let (results, writes) = batch_outcome(&keys, &cached, &fetched);
    assert_eq!(results.len(), 3);
    assert_eq!(results[0].as_ref().unwrap().versions[0].dist.url, "a");
    assert_eq!(results[1].as_ref().unwrap().versions[0].dist.url, "b");
    assert_eq!(results[2].as_ref().unwrap_err(), &RegistryError::Network("x".to_owned()));
    assert_eq!(writes.len(), 1);
    assert_eq!(writes[0].0, "a/a");
    assert_eq!(writes[0].1.versions[0].dist.url, "a");
}

#[test]
fn batch_fully_cached_fetches_nothing() {
    let keys = vec!["b/b".to_owned()];
    let cached = vec![Some(one_version("b"))];
    assert!(missing_keys(&keys, &cached).is_empty());
    let (results, writes) = batch_outcome(&keys, &cached, &vec![]);
    assert!(results[0].is_ok());
    assert!(writes.is_empty());
}

#[test]
fn packagist_parser_skips_dev_branches_without_dist() {
    let body = r#"{
        "packages": {
            "acme/foo": [
                {
                    "version": "1.0.0",
                    "dist": {"url": "https://example.com/foo-1.0.0.zip", "shasum": "aaa", "type": "zip"},
                    "require": {}
                },
                {
                    "version": "dev-main",
                    "source": {"type": "git", "url": "https://github.com/acme/foo.git", "reference": "main"}
                },
                {
                    "version": "1.5.0",
                    "dist": {"url": "https://example.com/foo-1.5.0.zip", "shasum": "bbb", "type": "zip"},
                    "require": {}
                }
            ]
        }
    }"#;
    let meta = metadata_from_response("https://repo.example", "acme/foo", &ok(body)).expect("parser must not error on missing dist");
    assert_eq!(meta.versions.len(), 2);
    let majors: Vec<u32> = meta.versions.iter().map(|v| v.version.major).collect();
    assert!(majors.contains(&1));
    assert!(!meta.versions.iter().any(|v| v.version.major == 0));
}

#[test]
fn packagist_client_surfaces_not_found_for_404_response() {
    let r = MetadataResponse { code: Ok(404), body: Vec::new() };
    let err = metadata_from_response("https://repo.example", "missing/pkg", &r).expect_err("404 must error");
    assert_eq!(err.into_registry_error(), RegistryError::NotFound("missing/pkg".to_owned()));
}

#[test]
fn batch_keeps_the_fetch_error_of_each_key() {
    let keys = vec!["a/a".to_owned()];
    let cached = vec![None];
    let r = MetadataResponse { code: Ok(404), body: Vec::new() };
    let fetched = fetch_batch("https://repo.example", &keys, &vec![r]);
    let (results, writes) = batch_outcome(&keys, &cached, &fetched);
    assert_eq!(results[0].as_ref().unwrap_err(), &RegistryError::NotFound("a/a".to_owned()));
    assert!(writes.is_empty());
}
