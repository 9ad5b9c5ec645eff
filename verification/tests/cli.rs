//! Command arguments and JSON document edits.

use tusk::cli::{add_requirements, remove_requirements, split_package_arg, InstallArgs, UpdateArgs};
use tusk::json::{Json, JsonObject};
use tusk::resolver::{is_platform_requirement, split_name};

#[test]
fn package_arguments_split_at_first_colon() {
    assert_eq!(split_package_arg("acme/foo:^1.0"), ("acme/foo".to_string(), Some("^1.0".to_string())));
    assert_eq!(split_package_arg("acme/foo"), ("acme/foo".to_string(), None));
    assert_eq!(split_package_arg("a/b:>=1.0:x"), ("a/b".to_string(), Some(">=1.0:x".to_string())));
    assert_eq!(split_package_arg("a/b:"), ("a/b".to_string(), Some(String::new())));
}

#[test]
fn no_dev_turns_off_dev_requirements() {
    let a = InstallArgs { no_dev: true, ..Default::default() };
    assert!(!a.resolve_options().include_dev);
    let a = InstallArgs::default();
    assert!(a.resolve_options().include_dev);
    let u = UpdateArgs { no_dev: true, ..Default::default() };
    assert!(!u.resolve_options().include_dev);
}

#[test]
fn names_split_into_vendor_and_package() {
    assert_eq!(split_name("acme/foo"), ("acme".to_string(), "foo".to_string()));
    assert_eq!(split_name("acme/foo/bar"), ("acme".to_string(), "foo/bar".to_string()));
    assert_eq!(split_name("php"), ("php".to_string(), String::new()));
}

#[test]
fn platform_requirements() {
    for n in ["php", "ext-json", "lib-icu", "composer-plugin-api", "noslash"] {
        assert!(is_platform_requirement(n), "{n}");
    }
    assert!(!is_platform_requirement("acme/foo"));
}

#[test]
fn json_members_set_and_removed_in_place() {
    let mut doc = Json::parse(r#"{"name":"a/b","require":{"x/y":"^1.0"},"z":1}"#).unwrap();
    let obj = match &mut doc {
        Json::Object(o) => o,
        _ => panic!("object expected"),
    };
    obj.set("name".to_string(), Json::Str("c/d".to_string()));
    obj.set("new".to_string(), Json::Bool(true));
    let removed = obj.remove("z");
    assert!(matches!(removed, Some(Json::Number(ref n)) if n == "1"));
    assert!(obj.remove("missing").is_none());
    let keys: Vec<&str> = obj.entries.iter().map(|e| e.0.as_str()).collect();
    assert_eq!(keys, vec!["name", "require", "new"]);
    let text = Json::to_string_pretty(&doc);
    let back = Json::parse(&text).unwrap();
    assert_eq!(back, doc);
}

fn doc(text: &str) -> JsonObject {
    match Json::parse(text).unwrap() {
        Json::Object(o) => o,
        _ => panic!("not an object"),
    }
}

fn text(o: JsonObject) -> String {
    Json::to_string_pretty(&Json::Object(o))
}

#[test]
fn require_adds_constraints_to_the_right_section() {
    let mut d = doc(r#"{"name": "a/b", "require": {"php": "^8.1"}}"#);
    add_requirements(&mut d, false, &vec!["acme/foo:^1.0".to_owned(), "acme/bar".to_owned()]);
    assert_eq!(text(d), text(doc(r#"{"name": "a/b", "require": {"php": "^8.1", "acme/foo": "^1.0", "acme/bar": "*"}}"#)));

    let mut d = doc(r#"{"require": {"acme/foo": "^1.0"}}"#);
    add_requirements(&mut d, true, &vec!["phpunit/phpunit:^10".to_owned()]);
    assert_eq!(
        text(d),
        text(doc(r#"{"require": {"acme/foo": "^1.0"}, "require-dev": {"phpunit/phpunit": "^10"}}"#))
    );
}

#[test]
fn require_replaces_an_existing_constraint_in_place() {
    let mut d = doc(r#"{"require": {"acme/foo": "^1.0", "php": ">=8"}}"#);
    add_requirements(&mut d, false, &vec!["acme/foo:^2.0".to_owned()]);
    assert_eq!(text(d), text(doc(r#"{"require": {"acme/foo": "^2.0", "php": ">=8"}}"#)));
}

#[test]
fn remove_takes_packages_out_of_both_sections() {
    let mut d = doc(r#"{"require": {"acme/foo": "^1.0", "php": ">=8"}, "require-dev": {"acme/foo": "*", "x/y": "1"}}"#);
    remove_requirements(&mut d, &vec!["acme/foo".to_owned(), "not/there".to_owned()]);
    assert_eq!(text(d), text(doc(r#"{"require": {"php": ">=8"}, "require-dev": {"x/y": "1"}}"#)));

    let mut d = doc(r#"{"name": "a/b"}"#);
    remove_requirements(&mut d, &vec!["acme/foo".to_owned()]);
    assert_eq!(text(d), text(doc(r#"{"name": "a/b"}"#)));
}
