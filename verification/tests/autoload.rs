//! Autoloader generation: gathering sections and rendering the PHP files.

use tusk::autoload::{
    classmap_file_entry, classmap_insert, classmap_source_entry, extract_class_name, is_php_file, psr4_insert, resolve_path, AutoloadError, AutoloadGenerator, AutoloadSpec,
    InstalledPackage, AUTOLOAD_PHP,
};
use tusk::json::Json;
use tusk::manifest::ComposerJson;

fn package(name: &str, autoload_json: &str) -> InstalledPackage {
    let cj_json = format!(r#"{{"name":"{name}","autoload":{autoload_json}}}"#);
    let _cj = ComposerJson::from_str(&cj_json).unwrap();
    InstalledPackage { name: name.to_string(), autoload: Json::parse(autoload_json).unwrap() }
}

fn spec(vendor: &str, packages: Vec<InstalledPackage>) -> AutoloadSpec {
    AutoloadSpec { vendor_dir: vendor.to_string(), root_autoload: Json::Null, packages }
}

#[test]
fn generate_psr4_autoload() {
    let s = spec("/tmp/p/vendor", vec![package("acme/foo", r#"{"psr-4":{"Acme\\Foo\\":"src/"}}"#)]);
    let c = AutoloadGenerator::collect(&s);
    let psr4_content = AutoloadGenerator::render_psr4(&c.psr4);
    assert!(psr4_content.contains("Acme\\Foo\\"), "PSR-4 map must contain the namespace, got:\n{psr4_content}");
    assert!(psr4_content.contains("acme/foo/src"), "PSR-4 map must contain the package path, got:\n{psr4_content}");
    assert_eq!(
        psr4_content,
        "<?php\n\n// autoload_psr4.php @generated by Tusk\n\nreturn array(\n  'Acme\\Foo\\\\' => array('/tmp/p/vendor/acme/foo/src'),\n);\n"
    );
}

#[test]
fn generate_files_autoload() {
    let s = spec(
        "/tmp/p/vendor",
        vec![package("acme/foo", r#"{"psr-4":{"Acme\\Foo\\":"src/"},"files":["src/bootstrap.php"]}"#)],
    );
    let c = AutoloadGenerator::collect(&s);
    let content = AutoloadGenerator::render_files(&c.files);
    assert!(content.contains("bootstrap.php"), "files map must contain bootstrap.php, got:\n{content}");
    assert_eq!(c.files, vec!["/tmp/p/vendor/acme/foo/src/bootstrap.php".to_string()]);
}

#[test]
fn generate_deterministic_output() {
    let pkgs = || {
        vec![
            package("zzz/last", r#"{"psr-4":{"Zzz\\Last\\":"src/"}}"#),
            package("aaa/first", r#"{"psr-4":{"Aaa\\First\\":"src/"}}"#),
        ]
    };
    let psr4_1 = AutoloadGenerator::render_psr4(&AutoloadGenerator::collect(&spec("/t/v1/vendor", pkgs())).psr4);
    let psr4_2 = AutoloadGenerator::render_psr4(&AutoloadGenerator::collect(&spec("/t/v2/vendor", pkgs())).psr4);
    let rel1 = psr4_1.replace("/v1/", "/VENDOR/");
    let rel2 = psr4_2.replace("/v2/", "/VENDOR/");
    assert_eq!(rel1, rel2, "PSR-4 map must be deterministic (same ordering) regardless of path");
    let first = psr4_1.find("Aaa").unwrap();
    let last = psr4_1.find("Zzz").unwrap();
    assert!(first < last, "prefixes are sorted");
}

#[test]
fn autoload_php_is_valid_php() {
    assert!(AUTOLOAD_PHP.starts_with("<?php"), "autoload.php must start with <?php");
    assert!(AUTOLOAD_PHP.contains("spl_autoload_register"), "autoload.php must register an autoloader");
}

#[test]
fn root_autoload_is_relative_to_project_dir() {
    let s = AutoloadSpec {
        vendor_dir: "/proj/vendor".to_string(),
        root_autoload: Json::parse(r#"{"psr-4":{"App\\":"src/"},"classmap":["lib/"],"psr-0":{"Old_":"legacy"}}"#).unwrap(),
        packages: vec![package("acme/foo", r#"{"psr-4":{"App\\":["extra/"]}}"#)],
    };
    let c = AutoloadGenerator::collect(&s);
    assert_eq!(c.psr4.len(), 2);
    assert_eq!(c.psr4[0].0, "App\\");
    assert_eq!(c.psr4[0].1, vec!["/proj/src".to_string(), "/proj/vendor/acme/foo/extra".to_string()]);
    assert_eq!(c.psr4[1].0, "Old_");
    assert_eq!(c.psr4[1].1, vec!["/proj/legacy".to_string()]);
    assert_eq!(c.classmap_paths, vec!["/proj/lib".to_string()]);
}

#[test]
fn non_object_sections_add_nothing() {
    let s = AutoloadSpec { vendor_dir: "vendor".to_string(), root_autoload: Json::Null, packages: vec![] };
    let c = AutoloadGenerator::collect(&s);
    assert!(c.psr4.is_empty() && c.classmap_paths.is_empty() && c.files.is_empty());
}

#[test]
fn resolve_path_joins_like_path() {
    assert_eq!(resolve_path("/a/b", "src/"), "/a/b/src");
    assert_eq!(resolve_path("/a/b/", "src///"), "/a/b/src");
    assert_eq!(resolve_path("", "src/"), "src");
    assert_eq!(resolve_path("/a", "/abs/dir/"), "/abs/dir");
    assert_eq!(resolve_path("/a", "/"), "/a/");
}

#[test]
fn maps_stay_sorted_and_merge() {
    let mut m: Vec<(String, Vec<String>)> = Vec::new();
    psr4_insert(&mut m, "B\\".to_string(), vec!["b1".to_string()]);
    psr4_insert(&mut m, "A\\".to_string(), vec!["a1".to_string()]);
    psr4_insert(&mut m, "B\\".to_string(), vec!["b2".to_string()]);
    psr4_insert(&mut m, "C\\".to_string(), vec![]);
    let keys: Vec<&str> = m.iter().map(|e| e.0.as_str()).collect();
    assert_eq!(keys, vec!["A\\", "B\\", "C\\"]);
    assert_eq!(m[1].1, vec!["b1".to_string(), "b2".to_string()]);

    let mut cm: Vec<(String, String)> = Vec::new();
    classmap_insert(&mut cm, "Zed".to_string(), "z.php".to_string());
    classmap_insert(&mut cm, "Alpha".to_string(), "a.php".to_string());
    classmap_insert(&mut cm, "Zed".to_string(), "z2.php".to_string());
    assert_eq!(cm, vec![("Alpha".to_string(), "a.php".to_string()), ("Zed".to_string(), "z2.php".to_string())]);
    let out = AutoloadGenerator::render_classmap(&cm);
    assert_eq!(
        out,
        "<?php\n\n// autoload_classmap.php @generated by Tusk\n\nreturn array(\n  'Alpha' => 'a.php',\n  'Zed' => 'z2.php',\n);\n"
    );
}

#[test]
fn rendering_writes_literals_that_php_reads_back() {
    let m = vec![("X\\".to_string(), vec!["C:\\dir\\".to_string(), "it's".to_string()])];
    let out = AutoloadGenerator::render_psr4(&m);
    assert!(out.contains("  'X\\\\' => array('C:\\dir\\\\', 'it\\'s'),\n"), "{out}");
    let cm = vec![("A\\B".to_string(), "a\\\\b.php".to_string())];
    let out = AutoloadGenerator::render_classmap(&cm);
    assert!(out.contains("  'A\\B' => 'a\\\\\\b.php',\n"), "{out}");
}

#[test]
fn rendering_escapes_quotes() {
    let out = AutoloadGenerator::render_files(&vec!["it's.php".to_string()]);
    assert!(out.contains("  'it\\'s.php',\n"));
}

#[test]
fn class_names_from_php_source() {
    let php = "<?php\n\nnamespace Acme\\Foo;\n\nfinal class Bar extends Base\n{\n}\n";
    assert_eq!(extract_class_name(php).as_deref(), Some("Acme\\Foo\\Bar"));
    assert_eq!(extract_class_name("<?php\nabstract class Thing {}\n").as_deref(), Some("Thing"));
    assert_eq!(extract_class_name("<?php\n  class   Spaced  {}\r\n").as_deref(), Some("Spaced"));
    assert_eq!(extract_class_name("<?php\nnamespace A;\nfunction f() {}\n"), None);
    assert_eq!(extract_class_name("<?php\nclass \nclass Real {}\n").as_deref(), Some("Real"));
    assert_eq!(extract_class_name("namespace X\\Y ;;\nclass Z"), Some("X\\Y\\Z".to_string()));
}

#[test]
fn autoload_error_messages() {
    assert_eq!(AutoloadError::Io("disk".to_string()).message(), "io error: disk");
    let e = AutoloadError::Parse { package: "a/b".to_string(), detail: "bad".to_string() };
    assert_eq!(e.message(), "autoload parse error in a/b: bad");
}

#[test]
fn classmap_entries_of_files() {
    assert!(is_php_file("/p/lib/Foo.php"));
    assert!(is_php_file("/p/lib/Foo.PHP"));
    assert!(!is_php_file("/p/lib/Foo.inc"));
    assert!(!is_php_file("/p/lib/php"));
    assert_eq!(
        classmap_file_entry("/p/lib/Helper.php"),
        Some(("Helper".to_string(), "/p/lib/Helper.php".to_string()))
    );
    assert_eq!(
        classmap_source_entry("/p/lib/a.php", "<?php\nnamespace A\\B;\nclass C {}\n"),
        Some(("A\\B\\C".to_string(), "/p/lib/a.php".to_string()))
    );
    assert_eq!(classmap_source_entry("/p/lib/a.php", "<?php\nfunction f() {}\n"), None);
}

#[test]
fn files_text_differs_only_in_the_vendor_directory() {
    let pkgs = || {
        vec![
            package("acme/foo", r#"{"files":["src/boot.php","/abs/helpers.php"]}"#),
            package("/opt/local", r#"{"files":["init.php"]}"#),
        ]
    };
    let root = || Json::parse(r#"{"files":["app/boot.php"]}"#).unwrap();
    let a = AutoloadSpec { vendor_dir: "/t/vendor".to_string(), root_autoload: root(), packages: pkgs() };
    let b = AutoloadSpec { vendor_dir: "/t/vendor2/".to_string(), root_autoload: root(), packages: pkgs() };
    let fa = AutoloadGenerator::render_files(&AutoloadGenerator::collect(&a).files);
    let fb = AutoloadGenerator::render_files(&AutoloadGenerator::collect(&b).files);
    assert_eq!(fa.replace("/t/vendor/", "<V>"), fb.replace("/t/vendor2/", "<V>"));
    assert!(fa.contains("'/t/app/boot.php'") && fa.contains("'/abs/helpers.php'") && fa.contains("'/opt/local/init.php'"));
    assert!(fa.contains("'/t/vendor/acme/foo/src/boot.php'"));
}

/// Reads the PHP single-quoted literal that starts at `t` (after its
/// opening quote): its value and the rest of the text.
fn php_literal(t: &str) -> (String, &str) {
    let mut value = String::new();
    let mut it = t.char_indices().peekable();
    while let Some((i, c)) = it.next() {
        match c {
            '\'' => return (value, &t[i + 1..]),
            '\\' if matches!(it.peek(), Some((_, '\\')) | Some((_, '\''))) => {
                value.push(it.next().unwrap().1);
            }
            _ => value.push(c),
        }
    }
    panic!("unterminated literal");
}

#[test]
fn psr4_file_reads_back_as_the_map() {
    let mut m: Vec<(String, Vec<String>)> = Vec::new();
    psr4_insert(&mut m, "Acme\\".to_string(), vec!["/p/it's".to_string(), "/p/b\\".to_string()]);
    psr4_insert(&mut m, "B\\\\C\\".to_string(), vec![]);
    let text = AutoloadGenerator::render_psr4(&m);
    let mut rest = text.strip_prefix("<?php\n\n// autoload_psr4.php @generated by Tusk\n\nreturn array(\n").unwrap();
    let mut read: Vec<(String, Vec<String>)> = Vec::new();
    while let Some(r) = rest.strip_prefix("  '") {
        let (key, r) = php_literal(r);
        let mut r = r.strip_prefix(" => array(").unwrap();
        let mut paths = Vec::new();
        if let Some(r1) = r.strip_prefix('\'') {
            let (p, r2) = php_literal(r1);
            paths.push(p);
            r = r2;
            while let Some(r1) = r.strip_prefix(", '") {
                let (p, r2) = php_literal(r1);
                paths.push(p);
                r = r2;
            }
        }
        rest = r.strip_prefix("),\n").unwrap();
        read.push((key, paths));
    }
    assert_eq!(rest, ");\n");
    assert_eq!(read, m);
}
