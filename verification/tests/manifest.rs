//! Reading `composer.json` and reading and writing `composer.lock`.

use tusk::json::Json;
use tusk::lock::ComposerLock;
use tusk::manifest::{ComposerJson, ManifestError};
use tusk::require_map::RequireMap;

const MINIMAL: &str = r#"{
    "name": "foo/bar",
    "description": "A minimal package",
    "type": "library",
    "require": {
        "php": "^8.1"
    }
}"#;

const MULTIPATH_PSR4: &str = r#"{
    "name": "acme/core",
    "autoload": {
        "psr-4": {
            "Acme\\Core\\": "src/Core/",
            "Acme\\Tests\\": ["tests/Core/", "tests/Integration/"]
        }
    }
}"#;

const SIMPLE_LOCK: &str = r#"{
    "_readme": [
        "This file locks the dependencies of your project to a known state"
    ],
    "content-hash": "0123456789abcdef0123456789abcdef",
    "packages": [
        {
            "name": "acme/foo",
            "version": "1.2.3",
            "dist": {
                "type": "zip",
                "url": "https://example.com/acme-foo-1.2.3.zip",
                "shasum": "abc123def456"
            },
            "require": {
                "php": ">=8.1"
            },
            "type": "library"
        }
    ],
    "packages-dev": [],
    "aliases": [],
    "minimum-stability": "stable",
    "stability-flags": {},
    "prefer-stable": false,
    "prefer-lowest": false,
    "plugin-api-version": "2.6.0"
}"#;

fn get<'a>(m: &'a RequireMap, k: &str) -> Option<&'a str> {
    m.get(k).map(String::as_str)
}

#[test]
fn from_str_minimal_succeeds_and_exposes_php_require() {
    let parsed = ComposerJson::from_str(MINIMAL).expect("minimal.json should parse");

    assert_eq!(parsed.name.as_deref(), Some("foo/bar"));
    assert_eq!(
        get(&parsed.require, "php"),
        Some("^8.1"),
        "the php constraint from the fixture should be preserved"
    );
    assert!(!parsed.require.contains_key("ext-json"));
}

#[test]
fn from_str_parses_require_dev_separately_from_require() {
    let input = r#"{
        "name": "acme/widget",
        "require": {
            "php": "^8.1"
        },
        "require-dev": {
            "phpunit/phpunit": "^10.0"
        }
    }"#;

    let parsed = ComposerJson::from_str(input).expect("manifest with require-dev should parse");

    assert_eq!(get(&parsed.require, "php"), Some("^8.1"));
    assert_eq!(
        get(&parsed.require_dev, "phpunit/phpunit"),
        Some("^10.0"),
        "require-dev must populate its own map and not leak into require"
    );
    assert!(
        !parsed.require.contains_key("phpunit/phpunit"),
        "require-dev entries must not be in require"
    );
}

#[test]
fn from_str_parses_multipath_psr4_autoload() {
    let parsed = ComposerJson::from_str(MULTIPATH_PSR4).expect("multipath-psr4.json should parse");

    let psr4 = parsed
        .autoload
        .get("psr-4")
        .expect("autoload should have a psr-4 section")
        .as_object()
        .expect("autoload.psr-4 should be a JSON object");

    let core = psr4
        .get("Acme\\Core\\")
        .expect("Acme\\Core\\ must be present")
        .as_str()
        .expect("Acme\\Core\\ value must be a string");
    assert_eq!(core, "src/Core/");

    let tests = psr4
        .get("Acme\\Tests\\")
        .expect("Acme\\Tests\\ must be present")
        .as_array()
        .expect("Acme\\Tests\\ value must be a JSON array of paths");
    let tests_paths: Vec<&str> = tests.iter().filter_map(Json::as_str).collect();
    assert_eq!(tests_paths, vec!["tests/Core/", "tests/Integration/"]);
}

#[test]
fn from_str_defaults_absent_sections() {
    let parsed = ComposerJson::from_str("{}").expect("an empty object is a manifest");
    assert_eq!(parsed.name, None);
    assert!(parsed.require.is_empty());
    assert!(parsed.require_dev.is_empty());
    assert!(parsed.autoload.entries.is_empty());
    assert!(parsed.repositories.is_empty());
    assert!(parsed.config.is_null());
    assert_eq!(parsed.minimum_stability, None);
    assert!(!parsed.prefer_stable);
}

#[test]
fn from_str_ignores_unknown_members() {
    let parsed = ComposerJson::from_str(r#"{"name":"a/b","extra":{"x":1},"scripts":[]}"#).expect("unknown members are ignored");
    assert_eq!(parsed.name.as_deref(), Some("a/b"));
}

#[test]
fn from_str_rejects_invalid_json() {
    let err = ComposerJson::from_str("{ not json").expect_err("invalid JSON must be refused");
    let ManifestError::Json(detail) = &err;
    assert!(!detail.is_empty());
    assert!(err.message().starts_with("invalid composer.json: "));
}

#[test]
fn from_str_reads_sections_of_another_type_as_absent() {
    let m = ComposerJson::from_str(r#"{"require": 5, "name": "a/b"}"#).expect("valid JSON is accepted");
    assert!(m.require.is_empty());
    assert_eq!(m.name.as_deref(), Some("a/b"));
    let m = ComposerJson::from_str(r#"{"require": ["php"], "prefer-stable": "yes", "require-dev": {"x/y": "1"}}"#).unwrap();
    assert!(m.require.is_empty());
    assert!(!m.prefer_stable);
    assert_eq!(m.require_dev.get("x/y").map(String::as_str), Some("1"));
    let m = ComposerJson::from_str("[1, 2]").expect("a document that is not an object reads as empty");
    assert!(m.require.is_empty() && m.name.is_none() && m.autoload.entries.is_empty());
    assert!(ComposerJson::from_str(r#"{"extra-weird-field":"x"}"#).is_ok());
}

#[test]
fn default_manifest_is_empty() {
    let m = ComposerJson::default();
    assert!(m.name.is_none());
    assert!(m.require.is_empty());
    assert!(!m.prefer_stable);
}

#[test]
fn lock_from_str_parses_packages() {
    let lock = ComposerLock::deserialize_str(SIMPLE_LOCK).expect("simple-lock.json should parse");

    assert_eq!(lock.packages.len(), 1);
    let pkg = &lock.packages[0];
    assert_eq!(pkg.name, "acme/foo");
    assert_eq!(pkg.version, "1.2.3");
    assert_eq!(pkg.dist.url, "https://example.com/acme-foo-1.2.3.zip");
    assert_eq!(pkg.dist.shasum, "abc123def456");
    assert_eq!(pkg.dist.kind, "zip");
}

#[test]
fn lock_roundtrip_preserves_structure() {
    let lock = ComposerLock::deserialize_str(SIMPLE_LOCK).expect("should parse");
    let serialized = lock.serialize_to_string().expect("should serialize");
    let reparsed = ComposerLock::deserialize_str(&serialized).expect("should re-parse");

    assert_eq!(lock.packages.len(), reparsed.packages.len());
    assert_eq!(lock.packages[0].name, reparsed.packages[0].name);
    assert_eq!(lock.packages[0].version, reparsed.packages[0].version);
    assert_eq!(lock.packages[0].dist.shasum, reparsed.packages[0].dist.shasum);
}

#[test]
fn lock_serialization_includes_required_fields() {
    let lock = ComposerLock::deserialize_str(SIMPLE_LOCK).expect("should parse");
    let json = lock.serialize_to_string().expect("should serialize");
    let parsed: serde_json::Value = serde_json::from_str(&json).expect("should be valid JSON");

    assert!(parsed.get("packages").is_some(), "packages must be present");
    assert!(parsed.get("content-hash").is_some(), "content-hash must be present");
}

#[test]
fn lock_serialization_leaves_out_empty_sections() {
    let lock = ComposerLock::deserialize_str(SIMPLE_LOCK).expect("should parse");
    let json = lock.serialize_to_string().expect("should serialize");
    let parsed: serde_json::Value = serde_json::from_str(&json).expect("should be valid JSON");
    assert!(parsed.get("packages-dev").is_none());
    assert!(parsed.get("aliases").is_none());
    assert!(parsed.get("stability-flags").is_none());
    assert_eq!(parsed["minimum-stability"], "stable");
    assert_eq!(parsed["prefer-stable"], false);
    let keys: Vec<&str> = parsed.as_object().unwrap().keys().map(String::as_str).collect();
    assert_eq!(
        keys,
        vec!["_readme", "content-hash", "packages", "minimum-stability", "prefer-stable", "prefer-lowest", "plugin-api-version"]
    );
    let pkg_keys: Vec<&str> = parsed["packages"][0].as_object().unwrap().keys().map(String::as_str).collect();
    assert_eq!(pkg_keys, vec!["name", "version", "dist", "require", "type"]);
}

#[test]
fn lock_defaults_minimum_stability_to_stable() {
    let lock = ComposerLock::deserialize_str(r#"{"packages": []}"#).expect("should parse");
    assert_eq!(lock.minimum_stability, "stable");
    assert!(lock.packages.is_empty());
    assert!(lock.content_hash.is_none());
}

#[test]
fn lock_reads_stability_flags() {
    let lock = ComposerLock::deserialize_str(r#"{"stability-flags": {"acme/foo": 20}}"#).expect("should parse");
    assert_eq!(lock.stability_flags.get("acme/foo"), Some(&20));
    let out = lock.serialize_to_string().unwrap();
    let back = ComposerLock::deserialize_str(&out).unwrap();
    assert_eq!(back.stability_flags.get("acme/foo"), Some(&20));
    assert!(ComposerLock::deserialize_str(r#"{"stability-flags": {"acme/foo": -1}}"#).is_err());
    assert!(ComposerLock::deserialize_str(r#"{"stability-flags": {"acme/foo": 1.5}}"#).is_err());
}

#[test]
fn lock_rejects_package_without_dist() {
    let err = ComposerLock::deserialize_str(r#"{"packages": [{"name": "a/b", "version": "1.0.0"}]}"#)
        .expect_err("dist is required");
    assert_eq!(err.message(), "invalid composer.lock: missing or invalid `dist`");
    let err = ComposerLock::deserialize_str(r#"{"packages": [{"name": "a/b", "version": "1.0.0", "dist": {"type": "zip"}}]}"#)
        .expect_err("dist.url is required");
    assert_eq!(err.message(), "invalid composer.lock: missing or invalid `url`");
}

const FULL_LOCK: &str = r#"{
    "_readme": ["locked"],
    "content-hash": "ffff",
    "packages": [
        {
            "name": "acme/foo",
            "version": "1.2.3",
            "source": {"type": "git", "url": "https://example.com/foo.git"},
            "dist": {"type": "zip", "url": "https://example.com/foo.zip", "shasum": "aa", "reference": "abc"},
            "require": {"php": ">=8.1", "acme/bar": "^2.0"},
            "require-dev": {"phpunit/phpunit": "^10"},
            "conflict": {"acme/old": "*"},
            "replace": {"acme/foo-lite": "self.version"},
            "provide": {"psr/log-implementation": "1.0"},
            "suggest": {"ext-intl": "for locales"},
            "type": "library",
            "autoload": {"psr-4": {"Acme\\Foo\\": "src/"}},
            "autoload-dev": {"files": ["tests/helpers.php"]},
            "license": ["MIT"],
            "authors": [{"name": "Jane"}],
            "description": "Foo",
            "homepage": "https://example.com",
            "keywords": ["foo", "bar"],
            "time": "2024-01-01T00:00:00+00:00",
            "notification_url": "https://example.com/notify"
        }
    ],
    "packages-dev": [
        {
            "name": "acme/dev",
            "version": "0.1.0",
            "dist": {"type": "zip", "url": "https://example.com/dev.zip", "shasum": ""}
        }
    ],
    "aliases": [{"alias": "1.0.0", "package": "acme/foo"}],
    "minimum-stability": "dev",
    "stability-flags": {"acme/dev": 20},
    "prefer-stable": true,
    "prefer-lowest": true,
    "platform": {"php": "^8.1"},
    "platform-dev": {"ext-xdebug": "*"},
    "plugin-api-version": "2.6.0"
}"#;

#[test]
fn lock_written_then_read_gives_the_same_lock() {
    let lock = ComposerLock::deserialize_str(FULL_LOCK).expect("should parse");
    let first = lock.serialize_to_string().expect("should serialize");
    let back = ComposerLock::deserialize_str(&first).expect("should re-parse");
    let second = back.serialize_to_string().expect("should serialize again");
    assert_eq!(first, second);
    assert_eq!(back.packages.len(), 1);
    assert_eq!(back.packages_dev.len(), 1);
    assert_eq!(back.packages[0].require.get("acme/bar").map(String::as_str), Some("^2.0"));
    assert_eq!(back.packages[0].keywords, vec!["foo".to_string(), "bar".to_string()]);
    assert_eq!(back.packages[0].dist.reference.as_deref(), Some("abc"));
    assert_eq!(back.minimum_stability, "dev");
    assert!(back.prefer_stable && back.prefer_lowest);
    assert_eq!(back.stability_flags.get("acme/dev"), Some(&20));
    assert_eq!(back.platform_dev.get("ext-xdebug").map(String::as_str), Some("*"));
    assert_eq!(back.plugin_api_version.as_deref(), Some("2.6.0"));
    assert!(back.packages[0].to_json() == lock.packages[0].to_json());
    assert!(back.to_json() == lock.to_json());
}
