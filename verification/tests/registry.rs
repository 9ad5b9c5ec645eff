//! The in-memory registry and the Packagist p2 response reader.

use std::sync::Arc;

use tusk::json::Json;
use tusk::registry::{
    parse_p2_response, status_error, DistRef, MockRegistry, PackageMetadata, PackageVersion, RegistryError,
};
use tusk::require_map::RequireMap;
use tusk::version::{Stability, Version};

fn stable_version(major: u32, minor: u32, patch: u32) -> Version {
    Version {
        major,
        minor,
        patch,
        tweak: None,
        stability: Stability::Stable,
        stability_n: None,
        dev_branch: None,
        is_v_prefixed: false,
    }
}

fn version(major: u32, minor: u32, patch: u32, url: &str, shasum: &str) -> PackageVersion {
    PackageVersion {
        version: stable_version(major, minor, patch),
        dist: DistRef {
            url: url.to_owned(),
            shasum: shasum.to_owned(),
            kind: "zip".to_owned(),
        },
        require: RequireMap::new(),
    }
}

fn metadata(versions: Vec<PackageVersion>) -> PackageMetadata {
    PackageMetadata { versions }
}

#[test]
fn mock_registry_returns_inserted_metadata() {
    let pkg = metadata(vec![version(
        1,
        2,
        3,
        "https://example.com/acme-foo-1.2.3.zip",
        "abc123",
    )]);
    let registry = MockRegistry::new().with_package("acme/foo", pkg);

    let fetched = registry
        .package_metadata("acme", "foo")
        .expect("mock should return inserted package");

    assert_eq!(fetched.versions.len(), 1);
    let v = &fetched.versions[0];
    assert_eq!(v.version.major, 1);
    assert_eq!(v.version.minor, 2);
    assert_eq!(v.version.patch, 3);
    assert_eq!(v.version.stability, Stability::Stable);
    assert_eq!(v.dist.url, "https://example.com/acme-foo-1.2.3.zip");
    assert_eq!(v.dist.shasum, "abc123");
    assert_eq!(v.dist.kind, "zip");
    assert!(v.require.is_empty());
}

#[test]
fn mock_registry_returns_not_found_for_unknown_package() {
    let registry = MockRegistry::new();
    let err = registry
        .package_metadata("unknown", "ghost")
        .expect_err("unknown package must error");
    match err {
        RegistryError::NotFound(name) => assert_eq!(name, "unknown/ghost"),
        other => panic!("expected NotFound, got {other:?}"),
    }
}

#[test]
fn mock_registry_distinguishes_vendor_and_package_names() {
    let pkg = metadata(vec![version(1, 0, 0, "https://example.com/foo.zip", "h1")]);
    let registry = MockRegistry::new().with_package("acme/foo", pkg);

    let err = registry
        .package_metadata("othercorp", "foo")
        .expect_err("different vendor must be unknown");
    assert!(matches!(err, RegistryError::NotFound(name) if name == "othercorp/foo"));

    let err = registry
        .package_metadata("acme", "bar")
        .expect_err("different package must be unknown");
    assert!(matches!(err, RegistryError::NotFound(name) if name == "acme/bar"));
}

#[test]
fn mock_registry_supports_concurrent_fetch() {
    let pkg = metadata(vec![version(
        2,
        0,
        0,
        "https://example.com/concurrent-2.0.0.zip",
        "deadbeef",
    )]);
    let registry = Arc::new(MockRegistry::new().with_package("acme/shared", pkg));

    let mut results = Vec::new();
    for _ in 0..8 {
        let reg = Arc::clone(&registry);
        results.push(reg.package_metadata("acme", "shared"));
    }

    for r in results {
        let md = r.expect("mock should return inserted package");
        assert_eq!(md.versions.len(), 1);
        assert_eq!(md.versions[0].version.major, 2);
        assert_eq!(md.versions[0].dist.shasum, "deadbeef");
    }
}

#[test]
fn mock_registry_compiles_as_send_sync() {
    fn assert_send_sync<T: Send + Sync + ?Sized>() {}
    assert_send_sync::<MockRegistry>();
}

#[test]
fn with_package_replaces_previous_metadata() {
    let registry = MockRegistry::new()
        .with_package("acme/foo", metadata(vec![version(1, 0, 0, "u1", "s1")]))
        .with_package("acme/foo", metadata(vec![version(2, 0, 0, "u2", "s2")]));
    let md = registry.package_metadata("acme", "foo").unwrap();
    assert_eq!(md.versions.len(), 1);
    assert_eq!(md.versions[0].version.major, 2);
}

const P2_WITH_DEV_BRANCH: &str = r#"{
    "packages": {
        "acme/foo": [
            {
                "version": "1.0.0",
                "dist": {
                    "url": "https://example.com/foo-1.0.0.zip",
                    "shasum": "abc123",
                    "type": "zip"
                },
                "require": {}
            },
            {
                "version": "dev-main",
                "source": {
                    "type": "git",
                    "url": "https://github.com/acme/foo.git",
                    "reference": "main"
                }
            },
            {
                "version": "1.5.0",
                "dist": {
                    "url": "https://example.com/foo-1.5.0.zip",
                    "shasum": "def456",
                    "type": "zip"
                },
                "require": {}
            }
        ]
    }
}"#;

#[test]
fn parse_p2_skips_versions_without_dist() {
    let body = Json::parse(P2_WITH_DEV_BRANCH).expect("fixture is JSON");
    let packages = body
        .get("packages")
        .and_then(|p| p.get("acme/foo"))
        .and_then(|v| v.as_array())
        .unwrap();
    assert_eq!(packages.len(), 3, "fixture has 3 versions");
    let dev_entry = &packages[1];
    assert_eq!(dev_entry.get("version").and_then(|v| v.as_str()), Some("dev-main"));
    assert!(dev_entry.get("dist").is_none(), "dev-main should have no dist field");

    let meta = parse_p2_response("acme/foo", &body).expect("entries without dist are skipped");
    assert_eq!(meta.versions.len(), 2);
    assert_eq!(meta.versions[0].version, Version::parse("1.0.0").unwrap());
    assert_eq!(meta.versions[1].version, Version::parse("1.5.0").unwrap());
    assert_eq!(meta.versions[1].dist.shasum, "def456");
}

#[test]
fn parse_p2_errors_on_missing_version() {
    let body = Json::parse(
        r#"{"packages":{"acme/foo":[{"dist":{"url":"https://example.com/x.zip","shasum":"abc","type":"zip"}}]}}"#,
    )
    .unwrap();
    let entry = &body.get("packages").unwrap().get("acme/foo").unwrap().as_array().unwrap()[0];
    assert!(entry.get("version").is_none());

    match parse_p2_response("acme/foo", &body) {
        Err(RegistryError::Parse(m)) => assert_eq!(m, "missing version field"),
        other => panic!("expected a parse error, got {other:?}"),
    }
}

#[test]
fn parse_p2_reports_missing_package_array() {
    let body = Json::parse(r#"{"packages":{}}"#).unwrap();
    match parse_p2_response("acme/foo", &body) {
        Err(RegistryError::Parse(m)) => {
            assert_eq!(m, "missing packages.acme/foo array in response")
        }
        other => panic!("expected a parse error, got {other:?}"),
    }
}

#[test]
fn parse_p2_defaults_and_requirements() {
    let body = Json::parse(
        r#"{"packages":{"acme/foo":[{"version":"v2.1","dist":{"url":"https://e/x.zip"},
            "require":{"php":">=8.1","acme/bar":"^1.0","weird":5}}]}}"#,
    )
    .unwrap();
    let meta = parse_p2_response("acme/foo", &body).unwrap();
    assert_eq!(meta.versions.len(), 1);
    let v = &meta.versions[0];
    assert_eq!(v.version.to_composer_string(), "2.1.0");
    assert_eq!(v.dist.shasum, "");
    assert_eq!(v.dist.kind, "zip");
    assert_eq!(v.require.len(), 2);
    assert_eq!(v.require.get("acme/bar").map(String::as_str), Some("^1.0"));
}

#[test]
fn parse_p2_empty_package_list() {
    let body = Json::parse(r#"{"packages":{"acme/foo":[]}}"#).unwrap();
    let meta = parse_p2_response("acme/foo", &body).unwrap();
    assert!(meta.versions.is_empty());
}

#[test]
fn http_statuses_of_metadata_requests() {
    let url = "https://repo.example/p2/acme/foo.json";
    assert_eq!(status_error("acme/foo", url, 200, "200 OK"), None);
    assert_eq!(status_error("acme/foo", url, 204, "204 No Content"), None);
    assert_eq!(status_error("acme/foo", url, 404, "404 Not Found"), Some(RegistryError::NotFound("acme/foo".to_owned())));
    assert_eq!(
        status_error("acme/foo", url, 503, "503 Service Unavailable"),
        Some(RegistryError::Network("HTTP 503 Service Unavailable for https://repo.example/p2/acme/foo.json".to_owned()))
    );
    assert_eq!(
        status_error("acme/foo", url, 301, "301 Moved Permanently"),
        Some(RegistryError::Network("HTTP 301 Moved Permanently for https://repo.example/p2/acme/foo.json".to_owned()))
    );
}

#[test]
fn reply_bodies_are_read_as_metadata() {
    let body = r#"{"packages": {"acme/foo": [{"version": "1.0.0", "dist": {"url": "u", "shasum": "s"}}]}}"#;
    let m = tusk::registry::metadata_from_body("acme/foo", body).unwrap();
    assert_eq!(m.versions.len(), 1);
    assert!(matches!(tusk::registry::metadata_from_body("acme/foo", "<html>"), Err(RegistryError::Network(_))));
    assert!(matches!(tusk::registry::metadata_from_body("acme/bar", body), Err(RegistryError::Parse(_))));
}

#[test]
fn parse_p2_keeps_usable_entries_in_order_and_fails_on_any_missing_version() {
    let body = Json::parse(
        r#"{"packages":{"acme/foo":[
            {"version":"2.0.0","dist":{"url":"u2"}},
            {"version":"not a version","dist":{"url":"ux"}},
            {"version":"1.0.0","dist":{"url":""}},
            {"version":"1.5.0","dist":{"url":"u15"}}
        ]}}"#,
    )
    .unwrap();
    let meta = parse_p2_response("acme/foo", &body).unwrap();
    let urls: Vec<&str> = meta.versions.iter().map(|v| v.dist.url.as_str()).collect();
    assert_eq!(urls, vec!["u2", "u15"]);
    let late = Json::parse(
        r#"{"packages":{"acme/foo":[{"version":"2.0.0","dist":{"url":"u2"}},{"dist":{"url":"u3"}}]}}"#,
    )
    .unwrap();
    match parse_p2_response("acme/foo", &late) {
        Err(RegistryError::Parse(m)) => assert_eq!(m, "missing version field"),
        other => panic!("expected a parse error, got {other:?}"),
    }
}
