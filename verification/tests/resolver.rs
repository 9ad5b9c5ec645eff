//! Dependency resolution against the in-memory registry.

use std::collections::BTreeSet;

use tusk::registry::{DistRef, MockRegistry, PackageMetadata, PackageVersion};
use tusk::require_map::RequireMap;
use tusk::resolver::{ResolveError, ResolveOptions, Resolver};
use tusk::version::{Stability, Version};

fn v(major: u32, minor: u32, patch: u32) -> Version {
    Version {
        major,
        minor,
        patch,
        tweak: None,
        stability: Stability::Stable,
        stability_n: None,
        dev_branch: None,
        is_v_prefixed: false,
    }
}

fn pkg_version(ver: Version, url: &str, shasum: &str, require: &[(&str, &str)]) -> PackageVersion {
    let mut req = RequireMap::new();
    for (k, v) in require {
        req.insert((*k).to_string(), (*v).to_string());
    }
    PackageVersion {
        version: ver,
        dist: DistRef {
            url: url.to_string(),
            shasum: shasum.to_string(),
            kind: "zip".to_string(),
        },
        require: req,
    }
}

fn metadata(versions: Vec<PackageVersion>) -> PackageMetadata {
    PackageMetadata { versions }
}

fn req_map(pairs: &[(&str, &str)]) -> RequireMap {
    let mut m = RequireMap::new();
    for (k, v) in pairs {
        m.insert((*k).to_string(), (*v).to_string());
    }
    m
}

#[test]
fn resolves_single_package_picks_highest_matching() {
    let registry = MockRegistry::new().with_package(
        "acme/foo",
        metadata(vec![
            pkg_version(v(1, 0, 0), "url-1.0", "s1", &[]),
            pkg_version(v(1, 1, 0), "url-1.1", "s2", &[]),
            pkg_version(v(1, 2, 0), "url-1.2", "s3", &[]),
        ]),
    );

    let resolver = Resolver::new(registry);
    let resolved = resolver
        .resolve(
            req_map(&[("acme/foo", "^1.0")]),
            RequireMap::new(),
            ResolveOptions::default(),
        )
        .expect("should resolve");

    assert_eq!(resolved.len(), 1);
    assert_eq!(resolved[0].name, "acme/foo");
    assert_eq!(resolved[0].version, v(1, 2, 0));
}

#[test]
fn resolves_transitive_dependencies() {
    let registry = MockRegistry::new()
        .with_package(
            "acme/app",
            metadata(vec![pkg_version(v(1, 0, 0), "app-1.0", "sa", &[("acme/lib", "^1.0")])]),
        )
        .with_package(
            "acme/lib",
            metadata(vec![pkg_version(v(1, 2, 0), "lib-1.2", "sl", &[("acme/util", "^2.0")])]),
        )
        .with_package(
            "acme/util",
            metadata(vec![pkg_version(v(2, 1, 0), "util-2.1", "su", &[])]),
        );

    let resolver = Resolver::new(registry);
    let resolved = resolver
        .resolve(
            req_map(&[("acme/app", "^1.0")]),
            RequireMap::new(),
            ResolveOptions::default(),
        )
        .expect("should resolve transitively");

    let names: Vec<&str> = resolved.iter().map(|d| d.name.as_str()).collect();
    assert!(names.contains(&"acme/app"));
    assert!(names.contains(&"acme/lib"));
    assert!(names.contains(&"acme/util"));
    assert_eq!(resolved.len(), 3, "exactly 3 packages should be resolved");
}

#[test]
fn picks_version_satisfying_all_constraints() {
    let registry = MockRegistry::new()
        .with_package(
            "acme/a",
            metadata(vec![pkg_version(v(1, 0, 0), "a", "sa", &[("acme/shared", "^1.0")])]),
        )
        .with_package(
            "acme/b",
            metadata(vec![pkg_version(v(1, 0, 0), "b", "sb", &[("acme/shared", ">=1.2 <1.4")])]),
        )
        .with_package(
            "acme/shared",
            metadata(vec![
                pkg_version(v(1, 1, 0), "s1", "s1", &[]),
                pkg_version(v(1, 2, 0), "s2", "s2", &[]),
                pkg_version(v(1, 3, 0), "s3", "s3", &[]),
                pkg_version(v(1, 4, 0), "s4", "s4", &[]),
            ]),
        );

    let resolver = Resolver::new(registry);
    let resolved = resolver
        .resolve(
            req_map(&[("acme/a", "^1.0"), ("acme/b", "^1.0")]),
            RequireMap::new(),
            ResolveOptions::default(),
        )
        .expect("should resolve");

    let shared = resolved
        .iter()
        .find(|d| d.name == "acme/shared")
        .expect("acme/shared must be resolved");
    assert_eq!(
        shared.version,
        v(1, 3, 0),
        "should pick 1.3.0 (highest satisfying both constraints)"
    );
}

#[test]
fn conflict_produces_error_naming_packages() {
    let registry = MockRegistry::new()
        .with_package(
            "acme/x",
            metadata(vec![pkg_version(v(1, 0, 0), "x", "sx", &[("acme/core", "^1.0")])]),
        )
        .with_package(
            "acme/y",
            metadata(vec![pkg_version(v(1, 0, 0), "y", "sy", &[("acme/core", "^2.0")])]),
        )
        .with_package(
            "acme/core",
            metadata(vec![
                pkg_version(v(1, 5, 0), "c1", "sc1", &[]),
                pkg_version(v(2, 0, 0), "c2", "sc2", &[]),
            ]),
        );

    let resolver = Resolver::new(registry);
    let err = resolver
        .resolve(
            req_map(&[("acme/x", "^1.0"), ("acme/y", "^1.0")]),
            RequireMap::new(),
            ResolveOptions::default(),
        )
        .expect_err("conflicting constraints should fail");

    let msg = err.message();
    assert!(msg.contains("acme/core"), "error must name the conflicting package: {msg}");
}

#[test]
fn dev_dependencies_excluded_with_no_dev() {
    let registry = MockRegistry::new()
        .with_package("acme/app", metadata(vec![pkg_version(v(1, 0, 0), "app", "sa", &[])]))
        .with_package(
            "phpunit/phpunit",
            metadata(vec![pkg_version(v(10, 0, 0), "pu", "sp", &[])]),
        );

    let resolver = Resolver::new(registry);
    let opts = ResolveOptions {
        include_dev: false,
        ..Default::default()
    };
    let resolved = resolver
        .resolve(
            req_map(&[("acme/app", "^1.0")]),
            req_map(&[("phpunit/phpunit", "^10.0")]),
            opts,
        )
        .expect("should resolve");

    let names: Vec<&str> = resolved.iter().map(|d| d.name.as_str()).collect();
    assert!(
        !names.contains(&"phpunit/phpunit"),
        "dev dependency must be excluded with --no-dev"
    );
}

#[test]
fn dev_dependencies_included_by_default() {
    let registry = MockRegistry::new()
        .with_package("acme/app", metadata(vec![pkg_version(v(1, 0, 0), "app", "sa", &[])]))
        .with_package(
            "phpunit/phpunit",
            metadata(vec![pkg_version(v(10, 0, 0), "pu", "sp", &[])]),
        );

    let resolver = Resolver::new(registry);
    let opts = ResolveOptions {
        include_dev: true,
        ..Default::default()
    };
    let resolved = resolver
        .resolve(
            req_map(&[("acme/app", "^1.0")]),
            req_map(&[("phpunit/phpunit", "^10.0")]),
            opts,
        )
        .expect("should resolve");

    let names: Vec<&str> = resolved.iter().map(|d| d.name.as_str()).collect();
    assert!(
        names.contains(&"phpunit/phpunit"),
        "dev dependency must be included by default"
    );
}

#[test]
fn identical_inputs_produce_identical_resolution() {
    let registry = MockRegistry::new()
        .with_package(
            "acme/app",
            metadata(vec![pkg_version(v(1, 0, 0), "app", "sa", &[("acme/lib", "^1.0")])]),
        )
        .with_package(
            "acme/lib",
            metadata(vec![
                pkg_version(v(1, 0, 0), "l1", "s1", &[]),
                pkg_version(v(1, 2, 0), "l2", "s2", &[]),
            ]),
        );

    let resolver1 = Resolver::new(registry.clone());
    let resolver2 = Resolver::new(registry.clone());

    let resolved1 = resolver1
        .resolve(
            req_map(&[("acme/app", "^1.0")]),
            RequireMap::new(),
            ResolveOptions::default(),
        )
        .expect("first resolve");
    let resolved2 = resolver2
        .resolve(
            req_map(&[("acme/app", "^1.0")]),
            RequireMap::new(),
            ResolveOptions::default(),
        )
        .expect("second resolve");

    assert_eq!(resolved1.len(), resolved2.len(), "same number of packages resolved");
    for (a, b) in resolved1.iter().zip(resolved2.iter()) {
        assert_eq!(a.name, b.name);
        assert_eq!(a.version, b.version);
    }
}

fn chain_registry(n: usize) -> MockRegistry {
    let mut registry = MockRegistry::new();
    for i in 0..n {
        let mut require = RequireMap::new();
        if i + 1 < n {
            require.insert(format!("acme/pkg{:03}", i + 1), "^1.0".to_string());
        }
        registry = registry.with_package(
            &format!("acme/pkg{i:03}"),
            PackageMetadata {
                versions: vec![PackageVersion {
                    version: v(1, 0, 0),
                    dist: DistRef {
                        url: format!("https://example.com/{i}.zip"),
                        shasum: String::new(),
                        kind: "zip".to_string(),
                    },
                    require,
                }],
            },
        );
    }
    registry
}

#[test]
fn resolver_fetches_metadata_in_parallel() {
    let resolver = Resolver::new(chain_registry(50));
    let mut root = RequireMap::new();
    root.insert("acme/pkg000".to_string(), "^1.0".to_string());

    let start = std::time::Instant::now();
    let resolved = resolver
        .resolve(root, RequireMap::new(), ResolveOptions::default())
        .expect("resolve must succeed");
    let elapsed = start.elapsed();

    assert_eq!(resolved.len(), 50, "expected 50 packages, got {}", resolved.len());
    assert!(
        elapsed < std::time::Duration::from_secs(2),
        "resolver too slow ({elapsed:?})"
    );
}

#[test]
fn resolver_resolves_diamond_dependency_correctly() {
    let mut registry = MockRegistry::new();
    for (name, deps) in &[
        ("acme/a", vec!["acme/b", "acme/c"]),
        ("acme/b", vec!["acme/d"]),
        ("acme/c", vec!["acme/d"]),
        ("acme/d", vec![]),
    ] {
        let mut require = RequireMap::new();
        for d in deps {
            require.insert((*d).to_string(), "^1.0".to_string());
        }
        registry = registry.with_package(
            name,
            PackageMetadata {
                versions: vec![PackageVersion {
                    version: v(1, 0, 0),
                    dist: DistRef {
                        url: format!("https://example.com/{name}.zip"),
                        shasum: String::new(),
                        kind: "zip".to_string(),
                    },
                    require,
                }],
            },
        );
    }

    let resolver = Resolver::new(registry);
    let mut root = RequireMap::new();
    root.insert("acme/a".to_string(), "^1.0".to_string());

    let resolved = resolver
        .resolve(root, RequireMap::new(), ResolveOptions::default())
        .expect("resolve must succeed");

    assert_eq!(resolved.len(), 4, "expected 4 unique packages, got {}", resolved.len());
    let names: BTreeSet<&str> = resolved.iter().map(|r| r.name.as_str()).collect();
    assert!(names.contains("acme/a"));
    assert!(names.contains("acme/b"));
    assert!(names.contains("acme/c"));
    assert!(names.contains("acme/d"));
}

#[test]
fn resolution_is_sorted_by_name() {
    let resolver = Resolver::new(
        MockRegistry::new()
            .with_package("zeta/z", metadata(vec![pkg_version(v(1, 0, 0), "z", "sz", &[("alpha/a", "^1.0")])]))
            .with_package("alpha/a", metadata(vec![pkg_version(v(1, 0, 0), "a", "sa", &[])])),
    );
    let resolved = resolver
        .resolve(req_map(&[("zeta/z", "^1.0")]), RequireMap::new(), ResolveOptions::default())
        .expect("should resolve");
    let names: Vec<&str> = resolved.iter().map(|d| d.name.as_str()).collect();
    assert_eq!(names, vec!["alpha/a", "zeta/z"]);
}

#[test]
fn platform_requirements_are_skipped() {
    let resolver = Resolver::new(
        MockRegistry::new().with_package(
            "acme/app",
            metadata(vec![pkg_version(v(1, 0, 0), "app", "sa", &[("php", ">=8.1"), ("ext-json", "*")])]),
        ),
    );
    let resolved = resolver
        .resolve(
            req_map(&[("php", "^8.1"), ("acme/app", "^1.0"), ("lib-icu", "*")]),
            RequireMap::new(),
            ResolveOptions::default(),
        )
        .expect("should resolve");
    assert_eq!(resolved.len(), 1);
    assert_eq!(resolved[0].name, "acme/app");
}

#[test]
fn unknown_package_is_not_found() {
    let resolver = Resolver::new(MockRegistry::new());
    let err = resolver
        .resolve(req_map(&[("acme/missing", "^1.0")]), RequireMap::new(), ResolveOptions::default())
        .expect_err("unknown package must fail");
    assert!(matches!(err, ResolveError::NotFound(_) | ResolveError::Registry { .. }));
    assert!(err.message().contains("acme/missing"));
}

#[test]
fn no_matching_version_is_an_error() {
    let resolver = Resolver::new(
        MockRegistry::new().with_package("acme/foo", metadata(vec![pkg_version(v(1, 0, 0), "u", "s", &[])])),
    );
    let err = resolver
        .resolve(req_map(&[("acme/foo", "^2.0")]), RequireMap::new(), ResolveOptions::default())
        .expect_err("no version matches ^2.0");
    assert!(err.message().contains("acme/foo"));
}

#[test]
fn a_constraint_found_after_resolution_is_checked() {
    let registry = MockRegistry::new()
        .with_package(
            "acme/core",
            metadata(vec![pkg_version(v(1, 0, 0), "c1", "s1", &[]), pkg_version(v(2, 0, 0), "c2", "s2", &[])]),
        )
        .with_package("acme/a", metadata(vec![pkg_version(v(1, 0, 0), "a1", "s3", &[("acme/core", "^1.0")])]));
    let err = Resolver::new(registry)
        .resolve(req_map(&[("acme/core", "*"), ("acme/a", "*")]), RequireMap::new(), ResolveOptions::default())
        .expect_err("core 2.0 misses a's ^1.0");
    match err {
        ResolveError::Conflict(m) => {
            assert!(m.contains("acme/a requires acme/core: ^1.0"), "{m}");
            assert!(m.contains("<root> requires acme/core: *"), "{m}");
            assert!(m.contains("2.0.0"), "{m}");
        },
        other => panic!("unexpected {other:?}"),
    }
}

#[test]
fn a_later_constraint_that_holds_is_accepted() {
    let registry = MockRegistry::new()
        .with_package(
            "acme/core",
            metadata(vec![pkg_version(v(1, 0, 0), "c1", "s1", &[]), pkg_version(v(2, 0, 0), "c2", "s2", &[])]),
        )
        .with_package("acme/a", metadata(vec![pkg_version(v(1, 0, 0), "a1", "s3", &[("acme/core", ">=1.5")])]));
    let r = Resolver::new(registry)
        .resolve(req_map(&[("acme/core", "*"), ("acme/a", "*")]), RequireMap::new(), ResolveOptions::default())
        .expect("core 2.0 meets a's >=1.5");
    assert_eq!(r.len(), 2);
    assert_eq!(r[1].version, v(2, 0, 0));
}

fn beta(major: u32, minor: u32, patch: u32) -> Version {
    Version { stability: Stability::Beta, stability_n: Some(1), ..v(major, minor, patch) }
}

fn opts(minimum_stability: &str, prefer_stable: bool) -> ResolveOptions {
    ResolveOptions { include_dev: false, minimum_stability: minimum_stability.to_string(), prefer_stable }
}

fn foo_registry() -> MockRegistry {
    MockRegistry::new().with_package(
        "acme/foo",
        metadata(vec![pkg_version(v(1, 0, 0), "f1", "s1", &[]), pkg_version(beta(1, 1, 0), "f2", "s2", &[])]),
    )
}

#[test]
fn minimum_stability_stable_skips_prereleases() {
    let r = Resolver::new(foo_registry())
        .resolve(req_map(&[("acme/foo", "*")]), RequireMap::new(), opts("stable", false))
        .expect("1.0.0 is stable");
    assert_eq!(r.len(), 1);
    assert_eq!(r[0].version, v(1, 0, 0));
    let r = Resolver::new(foo_registry())
        .resolve(req_map(&[("acme/foo", "*")]), RequireMap::new(), ResolveOptions::default())
        .unwrap();
    assert_eq!(r[0].version, v(1, 0, 0));
}

#[test]
fn lower_minimum_stability_allows_prereleases() {
    let r = Resolver::new(foo_registry())
        .resolve(req_map(&[("acme/foo", "*")]), RequireMap::new(), opts("beta", false))
        .unwrap();
    assert_eq!(r[0].version, beta(1, 1, 0));
    let r = Resolver::new(foo_registry())
        .resolve(req_map(&[("acme/foo", "*")]), RequireMap::new(), opts("DEV", false))
        .unwrap();
    assert_eq!(r[0].version, beta(1, 1, 0));
}

#[test]
fn prefer_stable_takes_the_stable_release() {
    let r = Resolver::new(foo_registry())
        .resolve(req_map(&[("acme/foo", "*")]), RequireMap::new(), opts("dev", true))
        .unwrap();
    assert_eq!(r[0].version, v(1, 0, 0));
    let only_beta = MockRegistry::new().with_package("acme/foo", metadata(vec![pkg_version(beta(1, 1, 0), "f2", "s2", &[])]));
    let r = Resolver::new(only_beta)
        .resolve(req_map(&[("acme/foo", "*")]), RequireMap::new(), opts("dev", true))
        .unwrap();
    assert_eq!(r[0].version, beta(1, 1, 0));
}

#[test]
fn no_stable_enough_version_is_a_conflict() {
    let only_beta = MockRegistry::new().with_package("acme/foo", metadata(vec![pkg_version(beta(1, 1, 0), "f2", "s2", &[])]));
    let e = Resolver::new(only_beta)
        .resolve(req_map(&[("acme/foo", "*")]), RequireMap::new(), opts("stable", false))
        .expect_err("the beta is below minimum-stability");
    assert!(matches!(e, ResolveError::Conflict(_)));
}

#[test]
fn only_packages_reachable_from_the_root_are_resolved() {
    let registry = MockRegistry::new()
        .with_package("acme/app", metadata(vec![pkg_version(v(1, 0, 0), "app", "s1", &[("acme/lib", "^1.0")])]))
        .with_package("acme/lib", metadata(vec![pkg_version(v(1, 0, 0), "lib", "s2", &[])]))
        .with_package("acme/x", metadata(vec![pkg_version(v(1, 0, 0), "x", "s3", &[("acme/y", "*")])]))
        .with_package("acme/y", metadata(vec![pkg_version(v(1, 0, 0), "y", "s4", &[("acme/x", "*")])]));
    let r = Resolver::new(registry)
        .resolve(req_map(&[("acme/app", "^1.0")]), RequireMap::new(), ResolveOptions::default())
        .unwrap();
    let names: Vec<&str> = r.iter().map(|d| d.name.as_str()).collect();
    assert_eq!(names, vec!["acme/app", "acme/lib"]);
}
