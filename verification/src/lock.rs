//! `composer.lock`: the resolved package set, in Composer's layout.
//!
//! Writing leaves out empty maps and lists, absent optional values and
//! `null` free-form values, as Composer does; reading fills the same
//! defaults back in.
use vstd::prelude::*;
use indexmap::IndexMap;
use crate::decode::{
    all_str, all_str_values, all_u32_values, dec_u32, str_pairs, strs_of, u32_pairs, dec_bool, dec_json, dec_json_vec, dec_opt_str, dec_opt_str_vec, dec_req_str, dec_str_map, dec_str_or,
    dec_str_vec, dec_u32_map, decode_bool, decode_json, decode_json_vec, decode_opt_str, decode_opt_str_vec,
    decode_req_str, decode_str_map, decode_str_or, decode_str_vec, decode_u32_map, strings_view,
};
use crate::json::{
    elements_view, get_member, json_to_string_pretty, lemma_elements_view, parse_json, serde_json_pretty,
    serde_json_read, Json, JsonObject, JsonView,
};
use crate::registry::opt_json_view;
use crate::json::{lemma_member_index, member};
use crate::require_map::{
    entries_from_pairs, flag_entries, fm_entries, fm_new, key_index, keys_distinct, lemma_key_index, require_entries, rm_clone,
    rm_entries, rm_new, RequireMap,
};
use crate::text::{chars_to_string, nat_chars, push_str, push_u32};
use crate::version::{opt_string_view, parse_number, version_chars};
use crate::resolver::{deps_view, DepView, ResolvedDependency};

verus! {

/// A lock file's content hash.
pub type LockContentHash = String;

/// Why a lock file was refused.
#[derive(Debug)]
pub enum LockError {
    Json(String),
}

impl LockError {
    /// The error as text: `invalid composer.lock: <detail>`.
    pub fn message(&self) -> (r: String)
        ensures
            r@ == "invalid composer.lock: "@ + match self {
                LockError::Json(m) => m@,
            },
    {
        let mut out: Vec<char> = Vec::new();
        proof {
            reveal_strlit("invalid composer.lock: ");
        }
        push_str(&mut out, "invalid composer.lock: ");
        match self {
            LockError::Json(m) => push_str(&mut out, m.as_str()),
        }
        chars_to_string(out.as_slice())
    }
}

/// Where a locked package's archive is.
#[derive(Debug)]
pub struct Dist {
    pub url: String,
    /// The archive kind (`zip`); written under the key `type`.
    pub kind: String,
    pub shasum: String,
    pub reference: Option<String>,
}

/// One package of a lock file.
#[derive(Debug)]
pub struct LockedPackage {
    pub name: String,
    pub version: String,
    pub source: Json,
    pub dist: Dist,
    pub require: RequireMap,
    pub require_dev: RequireMap,
    pub conflict: RequireMap,
    pub replace: RequireMap,
    pub provide: RequireMap,
    pub suggest: RequireMap,
    pub type_field: Option<String>,
    pub autoload: Json,
    pub autoload_dev: Json,
    pub license: Vec<String>,
    pub authors: Vec<Json>,
    pub description: Option<String>,
    pub homepage: Option<String>,
    pub keywords: Vec<String>,
    pub time: Option<String>,
    pub notification_url: Option<String>,
}

/// A lock file.
#[derive(Debug)]
pub struct ComposerLock {
    pub readme: Option<Vec<String>>,
    pub content_hash: Option<String>,
    pub packages: Vec<LockedPackage>,
    pub packages_dev: Vec<LockedPackage>,
    pub aliases: Vec<Json>,
    pub minimum_stability: String,
    pub stability_flags: IndexMap<String, u32>,
    pub prefer_stable: bool,
    pub prefer_lowest: bool,
    pub platform: RequireMap,
    pub platform_dev: RequireMap,
    pub plugin_api_version: Option<String>,
}

pub struct DistView {
    pub url: Seq<char>,
    pub kind: Seq<char>,
    pub shasum: Seq<char>,
    pub reference: Option<Seq<char>>,
}

pub struct LockedPackageView {
    pub name: Seq<char>,
    pub version: Seq<char>,
    pub source: JsonView,
    pub dist: DistView,
    pub require: Seq<(Seq<char>, Seq<char>)>,
    pub require_dev: Seq<(Seq<char>, Seq<char>)>,
    pub conflict: Seq<(Seq<char>, Seq<char>)>,
    pub replace: Seq<(Seq<char>, Seq<char>)>,
    pub provide: Seq<(Seq<char>, Seq<char>)>,
    pub suggest: Seq<(Seq<char>, Seq<char>)>,
    pub type_field: Option<Seq<char>>,
    pub autoload: JsonView,
    pub autoload_dev: JsonView,
    pub license: Seq<Seq<char>>,
    pub authors: Seq<JsonView>,
    pub description: Option<Seq<char>>,
    pub homepage: Option<Seq<char>>,
    pub keywords: Seq<Seq<char>>,
    pub time: Option<Seq<char>>,
    pub notification_url: Option<Seq<char>>,
}

pub struct ComposerLockView {
    pub readme: Option<Seq<Seq<char>>>,
    pub content_hash: Option<Seq<char>>,
    pub packages: Seq<LockedPackageView>,
    pub packages_dev: Seq<LockedPackageView>,
    pub aliases: Seq<JsonView>,
    pub minimum_stability: Seq<char>,
    pub stability_flags: Seq<(Seq<char>, u32)>,
    pub prefer_stable: bool,
    pub prefer_lowest: bool,
    pub platform: Seq<(Seq<char>, Seq<char>)>,
    pub platform_dev: Seq<(Seq<char>, Seq<char>)>,
    pub plugin_api_version: Option<Seq<char>>,
}

impl View for Dist {
    type V = DistView;

    open spec fn view(&self) -> DistView {
        DistView { url: self.url@, kind: self.kind@, shasum: self.shasum@, reference: opt_string_view(self.reference) }
    }
}

impl View for LockedPackage {
    type V = LockedPackageView;

    open spec fn view(&self) -> LockedPackageView {
        LockedPackageView {
            name: self.name@,
            version: self.version@,
            source: self.source@,
            dist: self.dist@,
            require: require_entries(self.require),
            require_dev: require_entries(self.require_dev),
            conflict: require_entries(self.conflict),
            replace: require_entries(self.replace),
            provide: require_entries(self.provide),
            suggest: require_entries(self.suggest),
            type_field: opt_string_view(self.type_field),
            autoload: self.autoload@,
            autoload_dev: self.autoload_dev@,
            license: strings_view(self.license@),
            authors: elements_view(self.authors),
            description: opt_string_view(self.description),
            homepage: opt_string_view(self.homepage),
            keywords: strings_view(self.keywords@),
            time: opt_string_view(self.time),
            notification_url: opt_string_view(self.notification_url),
        }
    }
}

pub open spec fn packages_view(v: Seq<LockedPackage>) -> Seq<LockedPackageView> {
    Seq::new(v.len(), |i: int| v[i]@)
}

pub open spec fn opt_strings_view(o: Option<Vec<String>>) -> Option<Seq<Seq<char>>> {
    match o {
        Some(v) => Some(strings_view(v@)),
        None => None,
    }
}

impl View for ComposerLock {
    type V = ComposerLockView;

    open spec fn view(&self) -> ComposerLockView {
        ComposerLockView {
            readme: opt_strings_view(self.readme),
            content_hash: opt_string_view(self.content_hash),
            packages: packages_view(self.packages@),
            packages_dev: packages_view(self.packages_dev@),
            aliases: elements_view(self.aliases),
            minimum_stability: self.minimum_stability@,
            stability_flags: flag_entries(self.stability_flags),
            prefer_stable: self.prefer_stable,
            prefer_lowest: self.prefer_lowest,
            platform: require_entries(self.platform),
            platform_dev: require_entries(self.platform_dev),
            plugin_api_version: opt_string_view(self.plugin_api_version),
        }
    }
}

// ---------------------------------------------------------------------------
// Reading
// ---------------------------------------------------------------------------

/// The archive location a JSON value describes, or the key at fault.
pub open spec fn dist_of(j: JsonView) -> Result<DistView, Seq<char>> {
    let g = |k: Seq<char>| get_member(j, k);
    if !(j is Object) {
        Err("dist"@)
    } else if dec_req_str(g("url"@)) is None {
        Err("url"@)
    } else if dec_req_str(g("type"@)) is None {
        Err("type"@)
    } else if dec_str_or(g("shasum"@), Seq::empty()) is None {
        Err("shasum"@)
    } else if dec_opt_str(g("reference"@)) is None {
        Err("reference"@)
    } else {
        Ok(DistView {
            url: dec_req_str(g("url"@))->Some_0,
            kind: dec_req_str(g("type"@))->Some_0,
            shasum: dec_str_or(g("shasum"@), Seq::empty())->Some_0,
            reference: dec_opt_str(g("reference"@))->Some_0,
        })
    }
}

/// The locked package a JSON value describes, or the key at fault.
pub open spec fn package_of(j: JsonView) -> Result<LockedPackageView, Seq<char>> {
    let g = |k: Seq<char>| get_member(j, k);
    if !(j is Object) {
        Err("packages"@)
    } else if dec_req_str(g("name"@)) is None {
        Err("name"@)
    } else if dec_req_str(g("version"@)) is None {
        Err("version"@)
    } else if g("dist"@) is None {
        Err("dist"@)
    } else if dist_of(g("dist"@)->Some_0) is Err {
        Err(dist_of(g("dist"@)->Some_0)->Err_0)
    } else if dec_str_map(g("require"@)) is None {
        Err("require"@)
    } else if dec_str_map(g("require-dev"@)) is None {
        Err("require-dev"@)
    } else if dec_str_map(g("conflict"@)) is None {
        Err("conflict"@)
    } else if dec_str_map(g("replace"@)) is None {
        Err("replace"@)
    } else if dec_str_map(g("provide"@)) is None {
        Err("provide"@)
    } else if dec_str_map(g("suggest"@)) is None {
        Err("suggest"@)
    } else if dec_opt_str(g("type"@)) is None {
        Err("type"@)
    } else if dec_str_vec(g("license"@)) is None {
        Err("license"@)
    } else if dec_json_vec(g("authors"@)) is None {
        Err("authors"@)
    } else if dec_opt_str(g("description"@)) is None {
        Err("description"@)
    } else if dec_opt_str(g("homepage"@)) is None {
        Err("homepage"@)
    } else if dec_str_vec(g("keywords"@)) is None {
        Err("keywords"@)
    } else if dec_opt_str(g("time"@)) is None {
        Err("time"@)
    } else if dec_opt_str(g("notification_url"@)) is None {
        Err("notification_url"@)
    } else {
        Ok(LockedPackageView {
            name: dec_req_str(g("name"@))->Some_0,
            version: dec_req_str(g("version"@))->Some_0,
            source: dec_json(g("source"@)),
            dist: dist_of(g("dist"@)->Some_0)->Ok_0,
            require: dec_str_map(g("require"@))->Some_0,
            require_dev: dec_str_map(g("require-dev"@))->Some_0,
            conflict: dec_str_map(g("conflict"@))->Some_0,
            replace: dec_str_map(g("replace"@))->Some_0,
            provide: dec_str_map(g("provide"@))->Some_0,
            suggest: dec_str_map(g("suggest"@))->Some_0,
            type_field: dec_opt_str(g("type"@))->Some_0,
            autoload: dec_json(g("autoload"@)),
            autoload_dev: dec_json(g("autoload-dev"@)),
            license: dec_str_vec(g("license"@))->Some_0,
            authors: dec_json_vec(g("authors"@))->Some_0,
            description: dec_opt_str(g("description"@))->Some_0,
            homepage: dec_opt_str(g("homepage"@))->Some_0,
            keywords: dec_str_vec(g("keywords"@))->Some_0,
            time: dec_opt_str(g("time"@))->Some_0,
            notification_url: dec_opt_str(g("notification_url"@))->Some_0,
        })
    }
}

/// The packages a JSON array describes, in order, or the key at fault in
/// the first one refused.
pub open spec fn packages_of(a: Seq<JsonView>) -> Result<Seq<LockedPackageView>, Seq<char>>
    decreases a.len(),
{
    if a.len() == 0 {
        Ok(Seq::empty())
    } else {
        match packages_of(a.drop_last()) {
            Err(k) => Err(k),
            Ok(ps) => match package_of(a.last()) {
                Err(k) => Err(k),
                Ok(p) => Ok(ps.push(p)),
            },
        }
    }
}

/// A list-of-packages field that defaults to empty.
pub open spec fn dec_packages(o: Option<JsonView>, key: Seq<char>) -> Result<Seq<LockedPackageView>, Seq<char>> {
    match o {
        None => Ok(Seq::empty()),
        Some(JsonView::Array(a)) => packages_of(a),
        _ => Err(key),
    }
}

/// The lock a JSON document describes, or the key at fault.
pub open spec fn lock_of(j: JsonView) -> Result<ComposerLockView, Seq<char>> {
    let g = |k: Seq<char>| get_member(j, k);
    if !(j is Object) {
        Err(Seq::empty())
    } else if dec_opt_str_vec(g("_readme"@)) is None {
        Err("_readme"@)
    } else if dec_opt_str(g("content-hash"@)) is None {
        Err("content-hash"@)
    } else if dec_packages(g("packages"@), "packages"@) is Err {
        Err(dec_packages(g("packages"@), "packages"@)->Err_0)
    } else if dec_packages(g("packages-dev"@), "packages-dev"@) is Err {
        Err(dec_packages(g("packages-dev"@), "packages-dev"@)->Err_0)
    } else if dec_json_vec(g("aliases"@)) is None {
        Err("aliases"@)
    } else if dec_str_or(g("minimum-stability"@), "stable"@) is None {
        Err("minimum-stability"@)
    } else if dec_u32_map(g("stability-flags"@)) is None {
        Err("stability-flags"@)
    } else if dec_bool(g("prefer-stable"@)) is None {
        Err("prefer-stable"@)
    } else if dec_bool(g("prefer-lowest"@)) is None {
        Err("prefer-lowest"@)
    } else if dec_str_map(g("platform"@)) is None {
        Err("platform"@)
    } else if dec_str_map(g("platform-dev"@)) is None {
        Err("platform-dev"@)
    } else if dec_opt_str(g("plugin-api-version"@)) is None {
        Err("plugin-api-version"@)
    } else {
        Ok(ComposerLockView {
            readme: dec_opt_str_vec(g("_readme"@))->Some_0,
            content_hash: dec_opt_str(g("content-hash"@))->Some_0,
            packages: dec_packages(g("packages"@), "packages"@)->Ok_0,
            packages_dev: dec_packages(g("packages-dev"@), "packages-dev"@)->Ok_0,
            aliases: dec_json_vec(g("aliases"@))->Some_0,
            minimum_stability: dec_str_or(g("minimum-stability"@), "stable"@)->Some_0,
            stability_flags: dec_u32_map(g("stability-flags"@))->Some_0,
            prefer_stable: dec_bool(g("prefer-stable"@))->Some_0,
            prefer_lowest: dec_bool(g("prefer-lowest"@))->Some_0,
            platform: dec_str_map(g("platform"@))->Some_0,
            platform_dev: dec_str_map(g("platform-dev"@))->Some_0,
            plugin_api_version: dec_opt_str(g("plugin-api-version"@))->Some_0,
        })
    }
}

/// The detail of a refusal for the key at fault.
pub open spec fn lock_error_detail(key: Seq<char>) -> Seq<char> {
    if key.len() == 0 {
        "expected a JSON object"@
    } else {
        "missing or invalid `"@ + key + "`"@
    }
}

/// What `ComposerLock::deserialize_str` gives for a text that reads as `read`.
pub open spec fn lock_result(read: Result<JsonView, Seq<char>>) -> Result<ComposerLockView, Seq<char>> {
    match read {
        Err(e) => Err(e),
        Ok(j) => match lock_of(j) {
            Ok(l) => Ok(l),
            Err(k) => Err(lock_error_detail(k)),
        },
    }
}

pub open spec fn lock_result_view(r: Result<ComposerLock, LockError>) -> Result<ComposerLockView, Seq<char>> {
    match r {
        Ok(l) => Ok(l@),
        Err(LockError::Json(e)) => Err(e@),
    }
}

fn lock_error(key: &str) -> (r: LockError)
    ensures
        r matches LockError::Json(m) && m@ == lock_error_detail(key@),
{
    proof {
        reveal_strlit("missing or invalid `");
        reveal_strlit("`");
        reveal_strlit("expected a JSON object");
    }
    let mut out: Vec<char> = Vec::new();
    if key.is_empty() {
        push_str(&mut out, "expected a JSON object");
    } else {
        push_str(&mut out, "missing or invalid `");
        push_str(&mut out, key);
        push_str(&mut out, "`");
    }
    LockError::Json(chars_to_string(out.as_slice()))
}

fn decode_dist(j: &Json) -> (r: Result<Dist, &'static str>)
    ensures
        match r {
            Ok(d) => dist_of(j@) == Ok::<DistView, Seq<char>>(d@),
            Err(k) => dist_of(j@) == Err::<DistView, Seq<char>>(k@),
        },
{
    if j.as_object().is_none() {
        return Err("dist");
    }
    let url = match decode_req_str(j.get("url")) {
        Some(v) => v,
        None => return Err("url"),
    };
    let kind = match decode_req_str(j.get("type")) {
        Some(v) => v,
        None => return Err("type"),
    };
    proof {
        reveal_strlit("");
    }
    assert(""@ =~= Seq::<char>::empty());
    let shasum = match decode_str_or(j.get("shasum"), "") {
        Some(v) => v,
        None => return Err("shasum"),
    };
    let reference = match decode_opt_str(j.get("reference")) {
        Some(v) => v,
        None => return Err("reference"),
    };
    Ok(Dist { url, kind, shasum, reference })
}

/// The conditions under which a package's identity and archive read.
pub open spec fn pkg_ids_ok(j: JsonView) -> bool {
    &&& j is Object
    &&& dec_req_str(get_member(j, "name"@)) is Some
    &&& dec_req_str(get_member(j, "version"@)) is Some
    &&& get_member(j, "dist"@) is Some
    &&& dist_of(get_member(j, "dist"@)->Some_0) is Ok
}

/// The conditions under which a package's requirement maps read too.
pub open spec fn pkg_maps_ok(j: JsonView) -> bool {
    &&& pkg_ids_ok(j)
    &&& dec_str_map(get_member(j, "require"@)) is Some
    &&& dec_str_map(get_member(j, "require-dev"@)) is Some
    &&& dec_str_map(get_member(j, "conflict"@)) is Some
    &&& dec_str_map(get_member(j, "replace"@)) is Some
    &&& dec_str_map(get_member(j, "provide"@)) is Some
    &&& dec_str_map(get_member(j, "suggest"@)) is Some
}

fn decode_pkg_ids(j: &Json) -> (r: Result<(String, String, Dist), &'static str>)
    requires
        j@ is Object,
    ensures
        match r {
            Ok((n, v, d)) => pkg_ids_ok(j@) && dec_req_str(get_member(j@, "name"@)) == Some(n@)
                && dec_req_str(get_member(j@, "version"@)) == Some(v@)
                && dist_of(get_member(j@, "dist"@)->Some_0) == Ok::<DistView, Seq<char>>(d@),
            Err(k) => package_of(j@) == Err::<LockedPackageView, Seq<char>>(k@),
        },
{
    let name = match decode_req_str(j.get("name")) {
        Some(v) => v,
        None => return Err("name"),
    };
    let version = match decode_req_str(j.get("version")) {
        Some(v) => v,
        None => return Err("version"),
    };
    let dist = match j.get("dist") {
        None => return Err("dist"),
        Some(d) => match decode_dist(d) {
            Ok(v) => v,
            Err(k) => return Err(k),
        },
    };
    Ok((name, version, dist))
}

fn decode_pkg_maps(j: &Json) -> (r: Result<(RequireMap, RequireMap, RequireMap, RequireMap, RequireMap, RequireMap), &'static str>)
    requires
        pkg_ids_ok(j@),
    ensures
        match r {
            Ok((a, b, c, d, e, f)) => pkg_maps_ok(j@)
                && dec_str_map(get_member(j@, "require"@)) == Some(require_entries(a))
                && dec_str_map(get_member(j@, "require-dev"@)) == Some(require_entries(b))
                && dec_str_map(get_member(j@, "conflict"@)) == Some(require_entries(c))
                && dec_str_map(get_member(j@, "replace"@)) == Some(require_entries(d))
                && dec_str_map(get_member(j@, "provide"@)) == Some(require_entries(e))
                && dec_str_map(get_member(j@, "suggest"@)) == Some(require_entries(f)),
            Err(k) => package_of(j@) == Err::<LockedPackageView, Seq<char>>(k@),
        },
{
    let a = match decode_str_map(j.get("require")) {
        Some(v) => v,
        None => return Err("require"),
    };
    let b = match decode_str_map(j.get("require-dev")) {
        Some(v) => v,
        None => return Err("require-dev"),
    };
    let c = match decode_str_map(j.get("conflict")) {
        Some(v) => v,
        None => return Err("conflict"),
    };
    let d = match decode_str_map(j.get("replace")) {
        Some(v) => v,
        None => return Err("replace"),
    };
    let e = match decode_str_map(j.get("provide")) {
        Some(v) => v,
        None => return Err("provide"),
    };
    let f = match decode_str_map(j.get("suggest")) {
        Some(v) => v,
        None => return Err("suggest"),
    };
    Ok((a, b, c, d, e, f))
}

/// The optional descriptive members of a package.
pub struct PackageInfo {
    pub type_field: Option<String>,
    pub license: Vec<String>,
    pub authors: Vec<Json>,
    pub description: Option<String>,
    pub homepage: Option<String>,
    pub keywords: Vec<String>,
    pub time: Option<String>,
    pub notification_url: Option<String>,
}

fn decode_pkg_info(j: &Json) -> (r: Result<PackageInfo, &'static str>)
    requires
        pkg_maps_ok(j@),
    ensures
        match r {
            Ok(i) => package_of(j@) is Ok
                && dec_opt_str(get_member(j@, "type"@)) == Some(opt_string_view(i.type_field))
                && dec_str_vec(get_member(j@, "license"@)) == Some(strings_view(i.license@))
                && dec_json_vec(get_member(j@, "authors"@)) == Some(elements_view(i.authors))
                && dec_opt_str(get_member(j@, "description"@)) == Some(opt_string_view(i.description))
                && dec_opt_str(get_member(j@, "homepage"@)) == Some(opt_string_view(i.homepage))
                && dec_str_vec(get_member(j@, "keywords"@)) == Some(strings_view(i.keywords@))
                && dec_opt_str(get_member(j@, "time"@)) == Some(opt_string_view(i.time))
                && dec_opt_str(get_member(j@, "notification_url"@)) == Some(opt_string_view(i.notification_url)),
            Err(k) => package_of(j@) == Err::<LockedPackageView, Seq<char>>(k@),
        },
{
    let type_field = match decode_opt_str(j.get("type")) {
        Some(v) => v,
        None => return Err("type"),
    };
    let license = match decode_str_vec(j.get("license")) {
        Some(v) => v,
        None => return Err("license"),
    };
    let authors = match decode_json_vec(j.get("authors")) {
        Some(v) => v,
        None => return Err("authors"),
    };
    let description = match decode_opt_str(j.get("description")) {
        Some(v) => v,
        None => return Err("description"),
    };
    let homepage = match decode_opt_str(j.get("homepage")) {
        Some(v) => v,
        None => return Err("homepage"),
    };
    let keywords = match decode_str_vec(j.get("keywords")) {
        Some(v) => v,
        None => return Err("keywords"),
    };
    let time = match decode_opt_str(j.get("time")) {
        Some(v) => v,
        None => return Err("time"),
    };
    let notification_url = match decode_opt_str(j.get("notification_url")) {
        Some(v) => v,
        None => return Err("notification_url"),
    };
    Ok(PackageInfo { type_field, license, authors, description, homepage, keywords, time, notification_url })
}

fn decode_package(j: &Json) -> (r: Result<LockedPackage, &'static str>)
    ensures
        match r {
            Ok(p) => package_of(j@) == Ok::<LockedPackageView, Seq<char>>(p@),
            Err(k) => package_of(j@) == Err::<LockedPackageView, Seq<char>>(k@),
        },
{
    if j.as_object().is_none() {
        return Err("packages");
    }
    let (name, version, dist) = match decode_pkg_ids(j) {
        Ok(t) => t,
        Err(k) => return Err(k),
    };
    let (require, require_dev, conflict, replace, provide, suggest) = match decode_pkg_maps(j) {
        Ok(t) => t,
        Err(k) => return Err(k),
    };
    let info = match decode_pkg_info(j) {
        Ok(i) => i,
        Err(k) => return Err(k),
    };
    let source = decode_json(j.get("source"));
    let autoload = decode_json(j.get("autoload"));
    let autoload_dev = decode_json(j.get("autoload-dev"));
    let p = LockedPackage {
        name,
        version,
        source,
        dist,
        require,
        require_dev,
        conflict,
        replace,
        provide,
        suggest,
        type_field: info.type_field,
        autoload,
        autoload_dev,
        license: info.license,
        authors: info.authors,
        description: info.description,
        homepage: info.homepage,
        keywords: info.keywords,
        time: info.time,
        notification_url: info.notification_url,
    };
    Ok(p)
}

fn decode_packages(o: Option<&Json>, key: &'static str) -> (r: Result<Vec<LockedPackage>, &'static str>)
    ensures
        match r {
            Ok(v) => dec_packages(opt_json_view(o), key@) == Ok::<Seq<LockedPackageView>, Seq<char>>(packages_view(v@)),
            Err(k) => dec_packages(opt_json_view(o), key@) == Err::<Seq<LockedPackageView>, Seq<char>>(k@),
        },
{
    match o {
        None => {
            let v: Vec<LockedPackage> = Vec::new();
            assert(packages_view(v@) =~= Seq::<LockedPackageView>::empty());
            Ok(v)
        },
        Some(Json::Array(a)) => {
            let ghost av = elements_view(*a);
            proof {
                lemma_elements_view(*a);
                assert(av.take(0) =~= Seq::<JsonView>::empty());
            }
            let mut out: Vec<LockedPackage> = Vec::new();
            let mut i: usize = 0;
            assert(packages_view(out@) =~= Seq::<LockedPackageView>::empty());
            assert(opt_json_view(o) == Some(JsonView::Array(av)));
            while i < a.len()
                invariant
                    i <= a.len(),
                    av == elements_view(*a),
                    opt_json_view(o) == Some(JsonView::Array(av)),
                    av.len() == a@.len(),
                    forall|k: int| 0 <= k < a@.len() ==> #[trigger] av[k] == a@[k]@,
                    packages_of(av.take(i as int)) == Ok::<Seq<LockedPackageView>, Seq<char>>(packages_view(out@)),
                decreases a.len() - i,
            {
                let ghost before = out@;
                match decode_package(&a[i]) {
                    Ok(p) => {
                        let ghost pv = p@;
                        out.push(p);
                        assert(packages_view(out@) =~= packages_view(before).push(pv));
                        assert(av.take(i + 1).drop_last() =~= av.take(i as int));
                    },
                    Err(k) => {
                        assert(av.take(i + 1).drop_last() =~= av.take(i as int));
                        assert(packages_of(av.take(i + 1)) == Err::<Seq<LockedPackageView>, Seq<char>>(k@));
                        proof {
                            lemma_packages_of_prefix_err(av, i + 1);
                        }
                        return Err(k);
                    },
                }
                i += 1;
            }
            assert(av.take(a.len() as int) =~= av);
            Ok(out)
        },
        _ => Err(key),
    }
}

/// A refusal among the first `n` elements is the refusal of the whole array.
proof fn lemma_packages_of_prefix_err(a: Seq<JsonView>, n: int)
    requires
        0 <= n <= a.len(),
        packages_of(a.take(n)) is Err,
    ensures
        packages_of(a) == packages_of(a.take(n)),
    decreases a.len() - n,
{
    if n < a.len() {
        assert(a.take(n + 1).drop_last() =~= a.take(n));
        lemma_packages_of_prefix_err(a, n + 1);
    } else {
        assert(a.take(n) =~= a);
    }
}

impl ComposerLock {
    /// The lock a JSON value describes.
    pub fn from_json(j: &Json) -> (r: Result<ComposerLock, LockError>)
        ensures
            lock_result_view(r) == match lock_of(j@) {
                Ok(l) => Ok(l),
                Err(k) => Err::<ComposerLockView, Seq<char>>(lock_error_detail(k)),
            },
    {
        proof {
            reveal_strlit("");
        }
        if j.as_object().is_none() {
            return Err(lock_error(""));
        }
        let readme = match decode_opt_str_vec(j.get("_readme")) {
            Some(v) => v,
            None => return Err(lock_error("_readme")),
        };
        let content_hash = match decode_opt_str(j.get("content-hash")) {
            Some(v) => v,
            None => return Err(lock_error("content-hash")),
        };
        let packages = match decode_packages(j.get("packages"), "packages") {
            Ok(v) => v,
            Err(k) => return Err(lock_error(k)),
        };
        let packages_dev = match decode_packages(j.get("packages-dev"), "packages-dev") {
            Ok(v) => v,
            Err(k) => return Err(lock_error(k)),
        };
        let aliases = match decode_json_vec(j.get("aliases")) {
            Some(v) => v,
            None => return Err(lock_error("aliases")),
        };
        let minimum_stability = match decode_str_or(j.get("minimum-stability"), "stable") {
            Some(v) => v,
            None => return Err(lock_error("minimum-stability")),
        };
        let stability_flags = match decode_u32_map(j.get("stability-flags")) {
            Some(v) => v,
            None => return Err(lock_error("stability-flags")),
        };
        let prefer_stable = match decode_bool(j.get("prefer-stable")) {
            Some(v) => v,
            None => return Err(lock_error("prefer-stable")),
        };
        let prefer_lowest = match decode_bool(j.get("prefer-lowest")) {
            Some(v) => v,
            None => return Err(lock_error("prefer-lowest")),
        };
        let platform = match decode_str_map(j.get("platform")) {
            Some(v) => v,
            None => return Err(lock_error("platform")),
        };
        let platform_dev = match decode_str_map(j.get("platform-dev")) {
            Some(v) => v,
            None => return Err(lock_error("platform-dev")),
        };
        let plugin_api_version = match decode_opt_str(j.get("plugin-api-version")) {
            Some(v) => v,
            None => return Err(lock_error("plugin-api-version")),
        };
        let r = ComposerLock {
            readme,
            content_hash,
            packages,
            packages_dev,
            aliases,
            minimum_stability,
            stability_flags,
            prefer_stable,
            prefer_lowest,
            platform,
            platform_dev,
            plugin_api_version,
        };
        assert(r@.readme == dec_opt_str_vec(get_member(j@, "_readme"@))->Some_0);
        Ok(r)
    }

    /// Parses a `composer.lock` document.
    pub fn deserialize_str(s: &str) -> (r: Result<ComposerLock, LockError>)
        ensures
            lock_result_view(r) == lock_result(serde_json_read(s@)),
    {
        match parse_json(s) {
            Err(e) => Err(LockError::Json(e)),
            Ok(j) => ComposerLock::from_json(&j),
        }
    }
}

// ---------------------------------------------------------------------------
// Writing
// ---------------------------------------------------------------------------

/// A member that is written only when `present`.
pub open spec fn opt_member(present: bool, k: Seq<char>, v: JsonView) -> Seq<(Seq<char>, JsonView)> {
    if present { seq![(k, v)] } else { Seq::empty() }
}

pub open spec fn str_map_json(m: Seq<(Seq<char>, Seq<char>)>) -> JsonView {
    JsonView::Object(Seq::new(m.len(), |i: int| (m[i].0, JsonView::Str(m[i].1))))
}

pub open spec fn strs_json(v: Seq<Seq<char>>) -> JsonView {
    JsonView::Array(Seq::new(v.len(), |i: int| JsonView::Str(v[i])))
}

pub open spec fn flags_json(m: Seq<(Seq<char>, u32)>) -> JsonView {
    JsonView::Object(Seq::new(m.len(), |i: int| (m[i].0, JsonView::Number(nat_chars(m[i].1 as nat)))))
}

pub open spec fn opt_str_json(o: Option<Seq<char>>) -> JsonView {
    match o {
        Some(s) => JsonView::Str(s),
        None => JsonView::Null,
    }
}

/// How an archive location is written.
pub open spec fn dist_json(d: DistView) -> JsonView {
    JsonView::Object(
        seq![("url"@, JsonView::Str(d.url))] + seq![("type"@, JsonView::Str(d.kind))] + seq![("shasum"@, JsonView::Str(d.shasum))]
            + opt_member(d.reference is Some, "reference"@, opt_str_json(d.reference)),
    )
}

/// The first member a locked package is written with.
#[verifier::opaque]
pub open spec fn package_through_name(p: LockedPackageView) -> Seq<(Seq<char>, JsonView)> {
    seq![("name"@, JsonView::Str(p.name))]
}

/// The members a locked package is written with, up to `version`.
#[verifier::opaque]
pub open spec fn package_through_version(p: LockedPackageView) -> Seq<(Seq<char>, JsonView)> {
    package_through_name(p) + seq![("version"@, JsonView::Str(p.version))]
}

/// The members a locked package is written with, up to `source`.
#[verifier::opaque]
pub open spec fn package_through_source(p: LockedPackageView) -> Seq<(Seq<char>, JsonView)> {
    package_through_version(p) + opt_member(!(p.source is Null), "source"@, p.source)
}

/// The members a locked package is written with, up to `dist`.
#[verifier::opaque]
pub open spec fn package_through_dist(p: LockedPackageView) -> Seq<(Seq<char>, JsonView)> {
    package_through_source(p) + seq![("dist"@, dist_json(p.dist))]
}

/// The members a locked package is written with, up to `require`.
#[verifier::opaque]
pub open spec fn package_through_require(p: LockedPackageView) -> Seq<(Seq<char>, JsonView)> {
    package_through_dist(p) + opt_member(p.require.len() > 0, "require"@, str_map_json(p.require))
}

/// The members a locked package is written with, up to `require-dev`.
#[verifier::opaque]
pub open spec fn package_through_require_dev(p: LockedPackageView) -> Seq<(Seq<char>, JsonView)> {
    package_through_require(p) + opt_member(p.require_dev.len() > 0, "require-dev"@, str_map_json(p.require_dev))
}

/// The members a locked package is written with, up to `conflict`.
#[verifier::opaque]
pub open spec fn package_through_conflict(p: LockedPackageView) -> Seq<(Seq<char>, JsonView)> {
    package_through_require_dev(p) + opt_member(p.conflict.len() > 0, "conflict"@, str_map_json(p.conflict))
}

/// The members a locked package is written with, up to `replace`.
#[verifier::opaque]
pub open spec fn package_through_replace(p: LockedPackageView) -> Seq<(Seq<char>, JsonView)> {
    package_through_conflict(p) + opt_member(p.replace.len() > 0, "replace"@, str_map_json(p.replace))
}

/// The members a locked package is written with, up to `provide`.
#[verifier::opaque]
pub open spec fn package_through_provide(p: LockedPackageView) -> Seq<(Seq<char>, JsonView)> {
    package_through_replace(p) + opt_member(p.provide.len() > 0, "provide"@, str_map_json(p.provide))
}

/// The members a locked package is written with, up to `suggest`.
#[verifier::opaque]
pub open spec fn package_through_suggest(p: LockedPackageView) -> Seq<(Seq<char>, JsonView)> {
    package_through_provide(p) + opt_member(p.suggest.len() > 0, "suggest"@, str_map_json(p.suggest))
}

/// The members a locked package is written with, up to `type`.
#[verifier::opaque]
pub open spec fn package_through_type(p: LockedPackageView) -> Seq<(Seq<char>, JsonView)> {
    package_through_suggest(p) + opt_member(p.type_field is Some, "type"@, opt_str_json(p.type_field))
}

/// The members a locked package is written with, up to `autoload`.
#[verifier::opaque]
pub open spec fn package_through_autoload(p: LockedPackageView) -> Seq<(Seq<char>, JsonView)> {
    package_through_type(p) + opt_member(!(p.autoload is Null), "autoload"@, p.autoload)
}

/// The members a locked package is written with, up to `autoload-dev`.
#[verifier::opaque]
pub open spec fn package_through_autoload_dev(p: LockedPackageView) -> Seq<(Seq<char>, JsonView)> {
    package_through_autoload(p) + opt_member(!(p.autoload_dev is Null), "autoload-dev"@, p.autoload_dev)
}

/// The members a locked package is written with, up to `license`.
#[verifier::opaque]
pub open spec fn package_through_license(p: LockedPackageView) -> Seq<(Seq<char>, JsonView)> {
    package_through_autoload_dev(p) + opt_member(p.license.len() > 0, "license"@, strs_json(p.license))
}

/// The members a locked package is written with, up to `authors`.
#[verifier::opaque]
pub open spec fn package_through_authors(p: LockedPackageView) -> Seq<(Seq<char>, JsonView)> {
    package_through_license(p) + opt_member(p.authors.len() > 0, "authors"@, JsonView::Array(p.authors))
}

/// The members a locked package is written with, up to `description`.
#[verifier::opaque]
pub open spec fn package_through_description(p: LockedPackageView) -> Seq<(Seq<char>, JsonView)> {
    package_through_authors(p) + opt_member(p.description is Some, "description"@, opt_str_json(p.description))
}

/// The members a locked package is written with, up to `homepage`.
#[verifier::opaque]
pub open spec fn package_through_homepage(p: LockedPackageView) -> Seq<(Seq<char>, JsonView)> {
    package_through_description(p) + opt_member(p.homepage is Some, "homepage"@, opt_str_json(p.homepage))
}

/// The members a locked package is written with, up to `keywords`.
#[verifier::opaque]
pub open spec fn package_through_keywords(p: LockedPackageView) -> Seq<(Seq<char>, JsonView)> {
    package_through_homepage(p) + opt_member(p.keywords.len() > 0, "keywords"@, strs_json(p.keywords))
}

/// The members a locked package is written with, up to `time`.
#[verifier::opaque]
pub open spec fn package_through_time(p: LockedPackageView) -> Seq<(Seq<char>, JsonView)> {
    package_through_keywords(p) + opt_member(p.time is Some, "time"@, opt_str_json(p.time))
}

/// The members a locked package is written with, up to `notification_url`.
#[verifier::opaque]
pub open spec fn package_through_notification_url(p: LockedPackageView) -> Seq<(Seq<char>, JsonView)> {
    package_through_time(p) + opt_member(p.notification_url is Some, "notification_url"@, opt_str_json(p.notification_url))
}

/// The members a locked package is written with, in Composer's order.
pub open spec fn package_members(p: LockedPackageView) -> Seq<(Seq<char>, JsonView)> {
    package_through_notification_url(p)
}

/// How a locked package is written.
pub open spec fn package_json(p: LockedPackageView) -> JsonView {
    JsonView::Object(package_members(p))
}

pub open spec fn packages_json(ps: Seq<LockedPackageView>) -> JsonView {
    JsonView::Array(Seq::new(ps.len(), |i: int| package_json(ps[i])))
}

/// The first member a lock is written with.
#[verifier::opaque]
pub open spec fn lock_through_readme(l: ComposerLockView) -> Seq<(Seq<char>, JsonView)> {
    opt_member(l.readme is Some, "_readme"@, strs_json(l.readme->Some_0))
}

/// The members a lock is written with, up to `content-hash`.
#[verifier::opaque]
pub open spec fn lock_through_content_hash(l: ComposerLockView) -> Seq<(Seq<char>, JsonView)> {
    lock_through_readme(l) + opt_member(l.content_hash is Some, "content-hash"@, opt_str_json(l.content_hash))
}

/// The members a lock is written with, up to `packages`.
#[verifier::opaque]
pub open spec fn lock_through_packages(l: ComposerLockView) -> Seq<(Seq<char>, JsonView)> {
    lock_through_content_hash(l) + seq![("packages"@, packages_json(l.packages))]
}

/// The members a lock is written with, up to `packages-dev`.
#[verifier::opaque]
pub open spec fn lock_through_packages_dev(l: ComposerLockView) -> Seq<(Seq<char>, JsonView)> {
    lock_through_packages(l) + opt_member(l.packages_dev.len() > 0, "packages-dev"@, packages_json(l.packages_dev))
}

/// The members a lock is written with, up to `aliases`.
#[verifier::opaque]
pub open spec fn lock_through_aliases(l: ComposerLockView) -> Seq<(Seq<char>, JsonView)> {
    lock_through_packages_dev(l) + opt_member(l.aliases.len() > 0, "aliases"@, JsonView::Array(l.aliases))
}

/// The members a lock is written with, up to `minimum-stability`.
#[verifier::opaque]
pub open spec fn lock_through_minimum_stability(l: ComposerLockView) -> Seq<(Seq<char>, JsonView)> {
    lock_through_aliases(l) + seq![("minimum-stability"@, JsonView::Str(l.minimum_stability))]
}

/// The members a lock is written with, up to `stability-flags`.
#[verifier::opaque]
pub open spec fn lock_through_stability_flags(l: ComposerLockView) -> Seq<(Seq<char>, JsonView)> {
    lock_through_minimum_stability(l) + opt_member(l.stability_flags.len() > 0, "stability-flags"@, flags_json(l.stability_flags))
}

/// The members a lock is written with, up to `prefer-stable`.
#[verifier::opaque]
pub open spec fn lock_through_prefer_stable(l: ComposerLockView) -> Seq<(Seq<char>, JsonView)> {
    lock_through_stability_flags(l) + seq![("prefer-stable"@, JsonView::Bool(l.prefer_stable))]
}

/// The members a lock is written with, up to `prefer-lowest`.
#[verifier::opaque]
pub open spec fn lock_through_prefer_lowest(l: ComposerLockView) -> Seq<(Seq<char>, JsonView)> {
    lock_through_prefer_stable(l) + seq![("prefer-lowest"@, JsonView::Bool(l.prefer_lowest))]
}

/// The members a lock is written with, up to `platform`.
#[verifier::opaque]
pub open spec fn lock_through_platform(l: ComposerLockView) -> Seq<(Seq<char>, JsonView)> {
    lock_through_prefer_lowest(l) + opt_member(l.platform.len() > 0, "platform"@, str_map_json(l.platform))
}

/// The members a lock is written with, up to `platform-dev`.
#[verifier::opaque]
pub open spec fn lock_through_platform_dev(l: ComposerLockView) -> Seq<(Seq<char>, JsonView)> {
    lock_through_platform(l) + opt_member(l.platform_dev.len() > 0, "platform-dev"@, str_map_json(l.platform_dev))
}

/// The members a lock is written with, up to `plugin-api-version`.
#[verifier::opaque]
pub open spec fn lock_through_plugin_api_version(l: ComposerLockView) -> Seq<(Seq<char>, JsonView)> {
    lock_through_platform_dev(l) + opt_member(l.plugin_api_version is Some, "plugin-api-version"@, opt_str_json(l.plugin_api_version))
}

/// The members a lock is written with, in Composer's order.
pub open spec fn lock_members(l: ComposerLockView) -> Seq<(Seq<char>, JsonView)> {
    lock_through_plugin_api_version(l)
}

/// How a lock is written.
pub open spec fn lock_json(l: ComposerLockView) -> JsonView {
    JsonView::Object(lock_members(l))
}

fn str_map_to_json(m: &RequireMap) -> (r: Json)
    ensures
        r@ == str_map_json(require_entries(*m)),
{
    let es = rm_entries(m);
    let mut o = JsonObject::new();
    let mut i: usize = 0;
    while i < es.len()
        invariant
            i <= es.len(),
            crate::require_map::pairs_view(es@) == require_entries(*m),
            o@ =~= Seq::new(i as nat, |k: int| (es@[k].0@, JsonView::Str(es@[k].1@))),
        decreases es.len() - i,
    {
        o.push(es[i].0.clone(), Json::Str(es[i].1.clone()));
        i += 1;
    }
    let r = Json::Object(o);
    assert(r@ == JsonView::Object(o@));
    let ghost m = require_entries(*m);
    assert(o@ =~= Seq::new(m.len(), |k: int| (m[k].0, JsonView::Str(m[k].1))));
    r
}

fn strings_to_json(v: &Vec<String>) -> (r: Json)
    ensures
        r@ == strs_json(strings_view(v@)),
{
    let mut out: Vec<Json> = Vec::new();
    let mut i: usize = 0;
    while i < v.len()
        invariant
            i <= v.len(),
            out@.len() == i,
            forall|k: int| 0 <= k < i ==> #[trigger] out@[k]@ == JsonView::Str(v@[k]@),
        decreases v.len() - i,
    {
        out.push(Json::Str(v[i].clone()));
        i += 1;
    }
    proof {
        lemma_elements_view(out);
    }
    let r = Json::Array(out);
    assert(elements_view(out) =~= Seq::new(v@.len(), |k: int| JsonView::Str(strings_view(v@)[k])));
    r
}

fn flags_to_json(m: &IndexMap<String, u32>) -> (r: Json)
    ensures
        r@ == flags_json(flag_entries(*m)),
{
    let es = fm_entries(m);
    let mut o = JsonObject::new();
    let mut i: usize = 0;
    while i < es.len()
        invariant
            i <= es.len(),
            crate::require_map::flag_pairs_view(es@) == flag_entries(*m),
            o@ =~= Seq::new(i as nat, |k: int| (es@[k].0@, JsonView::Number(nat_chars(es@[k].1 as nat)))),
        decreases es.len() - i,
    {
        let mut digits: Vec<char> = Vec::new();
        push_u32(&mut digits, es[i].1);
        assert(digits@ =~= nat_chars(es@[i as int].1 as nat));
        o.push(es[i].0.clone(), Json::Number(chars_to_string(digits.as_slice())));
        i += 1;
    }
    let r = Json::Object(o);
    assert(r@ == JsonView::Object(o@));
    let ghost m = flag_entries(*m);
    assert(o@ =~= Seq::new(m.len(), |k: int| (m[k].0, JsonView::Number(nat_chars(m[k].1 as nat)))));
    r
}

fn opt_str_to_json(o: &Option<String>) -> (r: Json)
    ensures
        r@ == opt_str_json(opt_string_view(*o)),
{
    match o {
        Some(s) => Json::Str(s.clone()),
        None => Json::Null,
    }
}

fn copy_json_vec(a: &Vec<Json>) -> (r: Json)
    ensures
        r@ == JsonView::Array(elements_view(*a)),
{
    let mut out: Vec<Json> = Vec::new();
    let mut i: usize = 0;
    while i < a.len()
        invariant
            i <= a.len(),
            out@.len() == i,
            forall|k: int| 0 <= k < i ==> #[trigger] out@[k]@ == a@[k]@,
        decreases a.len() - i,
    {
        out.push(a[i].copy());
        i += 1;
    }
    proof {
        lemma_elements_view(out);
        lemma_elements_view(*a);
    }
    assert(elements_view(out) =~= elements_view(*a));
    Json::Array(out)
}

impl Dist {
    pub fn copy(&self) -> (r: Dist)
        ensures
            r@ == self@,
    {
        Dist { url: self.url.clone(), kind: self.kind.clone(), shasum: self.shasum.clone(), reference: self.reference.clone() }
    }

    /// The archive location as JSON.
    pub fn to_json(&self) -> (r: Json)
        ensures
            r@ == dist_json(self@),
    {
        let mut o = JsonObject::new();
        o.push("url".to_string(), Json::Str(self.url.clone()));
        o.push("type".to_string(), Json::Str(self.kind.clone()));
        o.push("shasum".to_string(), Json::Str(self.shasum.clone()));
        if self.reference.is_some() {
            o.push("reference".to_string(), opt_str_to_json(&self.reference));
        }
        let r = Json::Object(o);
        assert(r@ == JsonView::Object(o@));
        assert(o@ =~= seq![("url"@, JsonView::Str(self.url@))] + seq![("type"@, JsonView::Str(self.kind@))] + seq![("shasum"@, JsonView::Str(self.shasum@))]
            + opt_member(self@.reference is Some, "reference"@, opt_str_json(self@.reference)));
        r
    }
}

fn push_map_member(o: &mut JsonObject, key: &str, m: &RequireMap)
    ensures
        final(o)@ == old(o)@ + opt_member(require_entries(*m).len() > 0, key@, str_map_json(require_entries(*m))),
{
    let es = rm_entries(m);
    if es.len() > 0 {
        o.push(key.to_string(), str_map_to_json(m));
        assert(final(o)@ =~= old(o)@ + opt_member(require_entries(*m).len() > 0, key@, str_map_json(require_entries(*m))));
    } else {
        assert(final(o)@ =~= old(o)@ + opt_member(require_entries(*m).len() > 0, key@, str_map_json(require_entries(*m))));
    }
}

fn push_opt_str_member(o: &mut JsonObject, key: &str, v: &Option<String>)
    ensures
        final(o)@ == old(o)@ + opt_member(v.is_some(), key@, opt_str_json(opt_string_view(*v))),
{
    if v.is_some() {
        o.push(key.to_string(), opt_str_to_json(v));
    }
    assert(final(o)@ =~= old(o)@ + opt_member(v.is_some(), key@, opt_str_json(opt_string_view(*v))));
}

fn push_json_member(o: &mut JsonObject, key: &str, v: &Json)
    ensures
        final(o)@ == old(o)@ + opt_member(!(v@ is Null), key@, v@),
{
    if !v.is_null() {
        o.push(key.to_string(), v.copy());
    }
    assert(final(o)@ =~= old(o)@ + opt_member(!(v@ is Null), key@, v@));
}

fn push_strs_member(o: &mut JsonObject, key: &str, v: &Vec<String>)
    ensures
        final(o)@ == old(o)@ + opt_member(strings_view(v@).len() > 0, key@, strs_json(strings_view(v@))),
{
    if v.len() > 0 {
        o.push(key.to_string(), strings_to_json(v));
    }
    assert(final(o)@ =~= old(o)@ + opt_member(strings_view(v@).len() > 0, key@, strs_json(strings_view(v@))));
}

fn push_member(o: &mut JsonObject, key: &str, v: Json)
    ensures
        final(o)@ == old(o)@ + seq![(key@, v@)],
{
    o.push(key.to_string(), v);
    assert(final(o)@ =~= old(o)@ + seq![(key@, v@)]);
}

fn push_json_vec_member(o: &mut JsonObject, key: &str, v: &Vec<Json>)
    ensures
        final(o)@ == old(o)@ + opt_member(elements_view(*v).len() > 0, key@, JsonView::Array(elements_view(*v))),
{
    proof {
        lemma_elements_view(*v);
    }
    if v.len() > 0 {
        o.push(key.to_string(), copy_json_vec(v));
    }
    assert(final(o)@ =~= old(o)@ + opt_member(elements_view(*v).len() > 0, key@, JsonView::Array(elements_view(*v))));
}

fn push_package_head(o: &mut JsonObject, pkg: &LockedPackage)
    requires
        old(o)@.len() == 0,
    ensures
        final(o)@ === package_through_dist(pkg@),
{
    let ghost p = pkg@;
    proof {
        reveal(package_through_name);
        reveal(package_through_version);
        reveal(package_through_source);
        reveal(package_through_dist);
        reveal(package_through_require);
        reveal(package_through_require_dev);
        reveal(package_through_conflict);
        reveal(package_through_replace);
        reveal(package_through_provide);
        reveal(package_through_suggest);
        reveal(package_through_type);
        reveal(package_through_autoload);
        reveal(package_through_autoload_dev);
        reveal(package_through_license);
        reveal(package_through_authors);
        reveal(package_through_description);
        reveal(package_through_homepage);
        reveal(package_through_keywords);
        reveal(package_through_time);
        reveal(package_through_notification_url);
    }
    push_member(o, "name", Json::Str(pkg.name.clone()));
    assert(o@ =~= package_through_name(p));
    push_member(o, "version", Json::Str(pkg.version.clone()));
    assert(o@ === package_through_version(p));
    push_json_member(o, "source", &pkg.source);
    assert(o@ === package_through_source(p));
    push_member(o, "dist", pkg.dist.to_json());
}

fn push_package_maps(o: &mut JsonObject, pkg: &LockedPackage)
    requires
        old(o)@ === package_through_dist(pkg@),
    ensures
        final(o)@ === package_through_suggest(pkg@),
{
    let ghost p = pkg@;
    proof {
        reveal(package_through_name);
        reveal(package_through_version);
        reveal(package_through_source);
        reveal(package_through_dist);
        reveal(package_through_require);
        reveal(package_through_require_dev);
        reveal(package_through_conflict);
        reveal(package_through_replace);
        reveal(package_through_provide);
        reveal(package_through_suggest);
        reveal(package_through_type);
        reveal(package_through_autoload);
        reveal(package_through_autoload_dev);
        reveal(package_through_license);
        reveal(package_through_authors);
        reveal(package_through_description);
        reveal(package_through_homepage);
        reveal(package_through_keywords);
        reveal(package_through_time);
        reveal(package_through_notification_url);
    }
    push_map_member(o, "require", &pkg.require);
    assert(o@ === package_through_require(p));
    push_map_member(o, "require-dev", &pkg.require_dev);
    assert(o@ === package_through_require_dev(p));
    push_map_member(o, "conflict", &pkg.conflict);
    assert(o@ === package_through_conflict(p));
    push_map_member(o, "replace", &pkg.replace);
    assert(o@ === package_through_replace(p));
    push_map_member(o, "provide", &pkg.provide);
    assert(o@ === package_through_provide(p));
    push_map_member(o, "suggest", &pkg.suggest);
}

fn push_package_loading(o: &mut JsonObject, pkg: &LockedPackage)
    requires
        old(o)@ === package_through_suggest(pkg@),
    ensures
        final(o)@ === package_through_authors(pkg@),
{
    let ghost p = pkg@;
    proof {
        reveal(package_through_name);
        reveal(package_through_version);
        reveal(package_through_source);
        reveal(package_through_dist);
        reveal(package_through_require);
        reveal(package_through_require_dev);
        reveal(package_through_conflict);
        reveal(package_through_replace);
        reveal(package_through_provide);
        reveal(package_through_suggest);
        reveal(package_through_type);
        reveal(package_through_autoload);
        reveal(package_through_autoload_dev);
        reveal(package_through_license);
        reveal(package_through_authors);
        reveal(package_through_description);
        reveal(package_through_homepage);
        reveal(package_through_keywords);
        reveal(package_through_time);
        reveal(package_through_notification_url);
    }
    push_opt_str_member(o, "type", &pkg.type_field);
    assert(o@ === package_through_type(p));
    push_json_member(o, "autoload", &pkg.autoload);
    assert(o@ === package_through_autoload(p));
    push_json_member(o, "autoload-dev", &pkg.autoload_dev);
    assert(o@ === package_through_autoload_dev(p));
    push_strs_member(o, "license", &pkg.license);
    assert(o@ === package_through_license(p));
    push_json_vec_member(o, "authors", &pkg.authors);
}

fn push_package_info(o: &mut JsonObject, pkg: &LockedPackage)
    requires
        old(o)@ === package_through_authors(pkg@),
    ensures
        final(o)@ === package_through_notification_url(pkg@),
{
    let ghost p = pkg@;
    proof {
        reveal(package_through_name);
        reveal(package_through_version);
        reveal(package_through_source);
        reveal(package_through_dist);
        reveal(package_through_require);
        reveal(package_through_require_dev);
        reveal(package_through_conflict);
        reveal(package_through_replace);
        reveal(package_through_provide);
        reveal(package_through_suggest);
        reveal(package_through_type);
        reveal(package_through_autoload);
        reveal(package_through_autoload_dev);
        reveal(package_through_license);
        reveal(package_through_authors);
        reveal(package_through_description);
        reveal(package_through_homepage);
        reveal(package_through_keywords);
        reveal(package_through_time);
        reveal(package_through_notification_url);
    }
    push_opt_str_member(o, "description", &pkg.description);
    assert(o@ === package_through_description(p));
    push_opt_str_member(o, "homepage", &pkg.homepage);
    assert(o@ === package_through_homepage(p));
    push_strs_member(o, "keywords", &pkg.keywords);
    assert(o@ === package_through_keywords(p));
    push_opt_str_member(o, "time", &pkg.time);
    assert(o@ === package_through_time(p));
    push_opt_str_member(o, "notification_url", &pkg.notification_url);
}

impl LockedPackage {
    /// The package as JSON, leaving out what Composer leaves out.
    pub fn to_json(&self) -> (r: Json)
        ensures
            r@ === package_json(self@),
    {
        let mut o = JsonObject::new();
        push_package_head(&mut o, self);
        push_package_maps(&mut o, self);
        push_package_loading(&mut o, self);
        push_package_info(&mut o, self);
        assert(o@ === package_members(self@));
        let r = Json::Object(o);
        assert(r@ === JsonView::Object(o@));
        r
    }
}

fn packages_to_json(ps: &Vec<LockedPackage>) -> (r: Json)
    ensures
        r@ == packages_json(packages_view(ps@)),
{
    let mut out: Vec<Json> = Vec::new();
    let mut i: usize = 0;
    while i < ps.len()
        invariant
            i <= ps.len(),
            out@.len() == i,
            forall|k: int| 0 <= k < i ==> #[trigger] out@[k]@ == package_json(ps@[k]@),
        decreases ps.len() - i,
    {
        out.push(ps[i].to_json());
        i += 1;
    }
    proof {
        lemma_elements_view(out);
    }
    assert(elements_view(out) =~= Seq::new(ps@.len(), |k: int| package_json(packages_view(ps@)[k])));
    Json::Array(out)
}

fn push_lock_head(o: &mut JsonObject, lock: &ComposerLock)
    requires
        old(o)@.len() == 0,
    ensures
        final(o)@ === lock_through_aliases(lock@),
{
    let ghost l = lock@;
    proof {
        reveal(lock_through_readme);
        reveal(lock_through_content_hash);
        reveal(lock_through_packages);
        reveal(lock_through_packages_dev);
        reveal(lock_through_aliases);
        reveal(lock_through_minimum_stability);
        reveal(lock_through_stability_flags);
        reveal(lock_through_prefer_stable);
        reveal(lock_through_prefer_lowest);
        reveal(lock_through_platform);
        reveal(lock_through_platform_dev);
        reveal(lock_through_plugin_api_version);
    }
    match &lock.readme {
        Some(v) => o.push("_readme".to_string(), strings_to_json(v)),
        None => {},
    }
    assert(o@ =~= lock_through_readme(l));
    push_opt_str_member(o, "content-hash", &lock.content_hash);
    assert(o@ === lock_through_content_hash(l));
    push_member(o, "packages", packages_to_json(&lock.packages));
    assert(o@ === lock_through_packages(l));
    let ghost s2 = o@;
    if lock.packages_dev.len() > 0 {
        o.push("packages-dev".to_string(), packages_to_json(&lock.packages_dev));
    }
    assert(o@ =~= s2 + opt_member(l.packages_dev.len() > 0, "packages-dev"@, packages_json(l.packages_dev)));
    assert(o@ === lock_through_packages_dev(l));
    push_json_vec_member(o, "aliases", &lock.aliases);
}

fn push_lock_settings(o: &mut JsonObject, lock: &ComposerLock)
    requires
        old(o)@ === lock_through_aliases(lock@),
    ensures
        final(o)@ === lock_through_plugin_api_version(lock@),
{
    let ghost l = lock@;
    proof {
        reveal(lock_through_readme);
        reveal(lock_through_content_hash);
        reveal(lock_through_packages);
        reveal(lock_through_packages_dev);
        reveal(lock_through_aliases);
        reveal(lock_through_minimum_stability);
        reveal(lock_through_stability_flags);
        reveal(lock_through_prefer_stable);
        reveal(lock_through_prefer_lowest);
        reveal(lock_through_platform);
        reveal(lock_through_platform_dev);
        reveal(lock_through_plugin_api_version);
    }
    push_member(o, "minimum-stability", Json::Str(lock.minimum_stability.clone()));
    assert(o@ === lock_through_minimum_stability(l));
    let ghost s4 = o@;
    let fl = fm_entries(&lock.stability_flags);
    if fl.len() > 0 {
        o.push("stability-flags".to_string(), flags_to_json(&lock.stability_flags));
    }
    assert(o@ =~= s4 + opt_member(l.stability_flags.len() > 0, "stability-flags"@, flags_json(l.stability_flags)));
    assert(o@ === lock_through_stability_flags(l));
    push_member(o, "prefer-stable", Json::Bool(lock.prefer_stable));
    assert(o@ === lock_through_prefer_stable(l));
    push_member(o, "prefer-lowest", Json::Bool(lock.prefer_lowest));
    assert(o@ === lock_through_prefer_lowest(l));
    push_map_member(o, "platform", &lock.platform);
    assert(o@ === lock_through_platform(l));
    push_map_member(o, "platform-dev", &lock.platform_dev);
    assert(o@ === lock_through_platform_dev(l));
    push_opt_str_member(o, "plugin-api-version", &lock.plugin_api_version);
}

impl ComposerLock {
    /// The lock as JSON, member by member in Composer's order.
    pub fn to_json(&self) -> (r: Json)
        ensures
            r@ === lock_json(self@),
    {
        let mut o = JsonObject::new();
        push_lock_head(&mut o, self);
        push_lock_settings(&mut o, self);
        assert(o@ === lock_members(self@));
        let r = Json::Object(o);
        assert(r@ === JsonView::Object(o@));
        r
    }

    /// Serializes the lock as indented JSON, as Composer writes it.
    pub fn serialize_to_string(&self) -> (r: Result<String, LockError>)
        ensures
            r matches Ok(s) && s@ == serde_json_pretty(lock_json(self@)),
    {
        let j = self.to_json();
        Ok(json_to_string_pretty(&j))
    }
}

// ---------------------------------------------------------------------------
// From a resolution
// ---------------------------------------------------------------------------

/// The lock entry of a resolved package: its name, its version as Composer
/// writes it, its archive and its requirements; every other member empty.
pub open spec fn locked_from(d: DepView) -> LockedPackageView {
    LockedPackageView {
        name: d.name,
        version: version_chars(d.pv.version),
        source: JsonView::Null,
        dist: DistView { url: d.pv.dist.url, kind: d.pv.dist.kind, shasum: d.pv.dist.shasum, reference: None },
        require: d.pv.require,
        require_dev: Seq::empty(),
        conflict: Seq::empty(),
        replace: Seq::empty(),
        provide: Seq::empty(),
        suggest: Seq::empty(),
        type_field: None,
        autoload: JsonView::Null,
        autoload_dev: JsonView::Null,
        license: Seq::empty(),
        authors: Seq::empty(),
        description: None,
        homepage: None,
        keywords: Seq::empty(),
        time: None,
        notification_url: None,
    }
}

/// The lock of a resolution: one package entry per resolved package, in
/// order, with the default settings.
pub open spec fn lock_from(ds: Seq<DepView>) -> ComposerLockView {
    ComposerLockView {
        readme: None,
        content_hash: None,
        packages: Seq::new(ds.len(), |i: int| locked_from(ds[i])),
        packages_dev: Seq::empty(),
        aliases: Seq::empty(),
        minimum_stability: "stable"@,
        stability_flags: Seq::empty(),
        prefer_stable: false,
        prefer_lowest: false,
        platform: Seq::empty(),
        platform_dev: Seq::empty(),
        plugin_api_version: None,
    }
}

impl LockedPackage {
    /// The lock entry of a resolved package.
    pub fn from_resolved(d: &ResolvedDependency) -> (r: LockedPackage)
        ensures
            r@ == locked_from(d@),
    {
        let license: Vec<String> = Vec::new();
        let authors: Vec<Json> = Vec::new();
        let keywords: Vec<String> = Vec::new();
        let r = LockedPackage {
            name: d.name.clone(),
            version: d.version.to_composer_string(),
            source: Json::Null,
            dist: Dist { url: d.dist.url.clone(), kind: d.dist.kind.clone(), shasum: d.dist.shasum.clone(), reference: None },
            require: rm_clone(&d.require),
            require_dev: rm_new(),
            conflict: rm_new(),
            replace: rm_new(),
            provide: rm_new(),
            suggest: rm_new(),
            type_field: None,
            autoload: Json::Null,
            autoload_dev: Json::Null,
            license,
            authors,
            description: None,
            homepage: None,
            keywords,
            time: None,
            notification_url: None,
        };
        proof {
            lemma_elements_view(r.authors);
        }
        assert(r@.license =~= Seq::<Seq<char>>::empty());
        assert(r@.keywords =~= Seq::<Seq<char>>::empty());
        assert(r@.authors =~= Seq::<JsonView>::empty());
        r
    }
}

impl ComposerLock {
    /// The lock of a resolution.
    pub fn from_resolved(deps: &Vec<ResolvedDependency>) -> (r: ComposerLock)
        ensures
            r@ == lock_from(deps_view(deps@)),
    {
        let mut packages: Vec<LockedPackage> = Vec::new();
        let mut i: usize = 0;
        while i < deps.len()
            invariant
                i <= deps.len(),
                packages@.len() == i,
                forall|k: int| 0 <= k < i ==> #[trigger] packages@[k]@ == locked_from(deps@[k]@),
            decreases deps.len() - i,
        {
            packages.push(LockedPackage::from_resolved(&deps[i]));
            i += 1;
        }
        let packages_dev: Vec<LockedPackage> = Vec::new();
        let aliases: Vec<Json> = Vec::new();
        let r = ComposerLock {
            readme: None,
            content_hash: None,
            packages,
            packages_dev,
            aliases,
            minimum_stability: "stable".to_string(),
            stability_flags: fm_new(),
            prefer_stable: false,
            prefer_lowest: false,
            platform: rm_new(),
            platform_dev: rm_new(),
            plugin_api_version: None,
        };
        proof {
            lemma_elements_view(r.aliases);
        }
        assert(r@.packages =~= Seq::new(deps_view(deps@).len(), |k: int| locked_from(deps_view(deps@)[k])));
        assert(r@.packages_dev =~= Seq::<LockedPackageView>::empty());
        assert(r@.aliases =~= Seq::<JsonView>::empty());
        r
    }
}

// ---------------------------------------------------------------------------
// What is written reads back
// ---------------------------------------------------------------------------

/// The maps of a package have distinct keys, as a map's keys are.
pub open spec fn package_wf(p: LockedPackageView) -> bool {
    &&& keys_distinct(p.require)
    &&& keys_distinct(p.require_dev)
    &&& keys_distinct(p.conflict)
    &&& keys_distinct(p.replace)
    &&& keys_distinct(p.provide)
    &&& keys_distinct(p.suggest)
}

/// The maps of a lock (and of its packages) have distinct keys.
pub open spec fn lock_wf(l: ComposerLockView) -> bool {
    &&& keys_distinct(l.stability_flags)
    &&& keys_distinct(l.platform)
    &&& keys_distinct(l.platform_dev)
    &&& forall|i: int| 0 <= i < l.packages.len() ==> package_wf(#[trigger] l.packages[i])
    &&& forall|i: int| 0 <= i < l.packages_dev.len() ==> package_wf(#[trigger] l.packages_dev[i])
}

proof fn lemma_member_push(m: Seq<(Seq<char>, JsonView)>, e: (Seq<char>, JsonView), k: Seq<char>)
    ensures
        member(m.push(e), k) === if member(m, k) is Some { member(m, k) } else if e.0 == k { Some(e.1) } else { None },
{
    let mp = m.push(e);
    assert(mp.drop_last() =~= m);
    reveal_with_fuel(crate::json::member_index, 2);
    reveal(member);
    lemma_member_index(m, k);
    lemma_member_index(mp, k);
}

proof fn lemma_member_append(a: Seq<(Seq<char>, JsonView)>, b: Seq<(Seq<char>, JsonView)>, k: Seq<char>)
    ensures
        member(a + b, k) === if member(a, k) is Some { member(a, k) } else { member(b, k) },
    decreases b.len(),
{
    if b.len() == 0 {
        assert(a + b =~= a);
        lemma_member_index(b, k);
        reveal(member);
    } else {
        let b0 = b.drop_last();
        lemma_member_append(a, b0, k);
        assert(a + b =~= (a + b0).push(b.last()));
        assert(b =~= b0.push(b.last()));
        lemma_member_push(a + b0, b.last(), k);
        lemma_member_push(b0, b.last(), k);
    }
}

proof fn lemma_member_single(k2: Seq<char>, v: JsonView, k: Seq<char>)
    ensures
        member(seq![(k2, v)], k) === if k2 == k { Some(v) } else { None::<JsonView> },
{
    lemma_member_push(Seq::empty(), (k2, v), k);
    reveal(member);
    assert(Seq::<(Seq<char>, JsonView)>::empty().push((k2, v)) =~= seq![(k2, v)]);
    lemma_member_index(Seq::<(Seq<char>, JsonView)>::empty(), k);
}

/// Member lookups through concatenations and single members.
proof fn lemma_member_facts()
    ensures
        forall|a: Seq<(Seq<char>, JsonView)>, b: Seq<(Seq<char>, JsonView)>, k: Seq<char>|
            #[trigger] member(a + b, k) == if member(a, k) is Some { member(a, k) } else { member(b, k) },
        forall|k2: Seq<char>, v: JsonView, k: Seq<char>|
            #[trigger] member(seq![(k2, v)], k) == if k2 == k { Some(v) } else { None::<JsonView> },
        forall|c: bool, k2: Seq<char>, v: JsonView, k: Seq<char>|
            #[trigger] member(opt_member(c, k2, v), k) == if c && k2 == k { Some(v) } else { None::<JsonView> },
{
    assert forall|a: Seq<(Seq<char>, JsonView)>, b: Seq<(Seq<char>, JsonView)>, k: Seq<char>|
        #[trigger] member(a + b, k) == if member(a, k) is Some { member(a, k) } else { member(b, k) } by {
        lemma_member_append(a, b, k);
    }
    assert forall|k2: Seq<char>, v: JsonView, k: Seq<char>|
        #[trigger] member(seq![(k2, v)], k) == if k2 == k { Some(v) } else { None::<JsonView> } by {
        lemma_member_single(k2, v, k);
    }
    assert forall|c: bool, k2: Seq<char>, v: JsonView, k: Seq<char>|
        #[trigger] member(opt_member(c, k2, v), k) == if c && k2 == k { Some(v) } else { None::<JsonView> } by {
        lemma_member_opt(c, k2, v, k);
    }
}

/// Inserting pairs with distinct keys, in order, gives them back.
proof fn lemma_entries_from_distinct<V>(e: Seq<(Seq<char>, V)>)
    requires
        keys_distinct(e),
    ensures
        entries_from_pairs(e) == e,
    decreases e.len(),
{
    if e.len() > 0 {
        let d = e.drop_last();
        assert(keys_distinct(d));
        lemma_entries_from_distinct(d);
        lemma_key_index(d, e.last().0);
        assert(key_index(d, e.last().0) == -1) by {
            if key_index(d, e.last().0) >= 0 {
                let i = key_index(d, e.last().0);
                assert(e[i].0 == e[e.len() - 1].0);
            }
        }
        assert(d.push(e.last()) =~= e);
    }
}

proof fn lemma_str_map_reads_back(m: Seq<(Seq<char>, Seq<char>)>)
    requires
        keys_distinct(m),
    ensures
        dec_str_map(if m.len() > 0 { Some(str_map_json(m)) } else { None }) == Some(m),
{
    if m.len() > 0 {
        let o = str_map_json(m)->Object_0;
        assert(all_str_values(o));
        assert(str_pairs(o) =~= m);
        lemma_entries_from_distinct(m);
    } else {
        assert(m =~= Seq::<(Seq<char>, Seq<char>)>::empty());
    }
}

proof fn lemma_flags_read_back(m: Seq<(Seq<char>, u32)>)
    requires
        keys_distinct(m),
    ensures
        dec_u32_map(if m.len() > 0 { Some(flags_json(m)) } else { None }) == Some(m),
{
    if m.len() > 0 {
        let o = flags_json(m)->Object_0;
        assert forall|i: int| 0 <= i < o.len() implies #[trigger] dec_u32(o[i].1) == Some(m[i].1) by {
            let t = nat_chars(m[i].1 as nat);
            assert forall|q: int| 0 <= q < t.len() implies #[trigger] t[0 + q] == t[q] by {}
            crate::version::lemma_nat_chars(m[i].1 as nat);
            lemma_u32_text(m[i].1);
        }
        assert(all_u32_values(o));
        assert(u32_pairs(o) =~= m);
        lemma_entries_from_distinct(m);
    } else {
        assert(m =~= Seq::<(Seq<char>, u32)>::empty());
    }
}

proof fn lemma_u32_text(x: u32)
    ensures
        parse_number(nat_chars(x as nat), 0) == Some((x, nat_chars(x as nat).len() as int)),
{
    crate::version::lemma_number_at_start(x);
}

proof fn lemma_strs_read_back(v: Seq<Seq<char>>)
    ensures
        dec_str_vec(if v.len() > 0 { Some(strs_json(v)) } else { None }) == Some(v),
        dec_opt_str_vec(Some(strs_json(v))) == Some(Some(v)),
{
    let a = strs_json(v)->Array_0;
    assert(all_str(a));
    assert(strs_of(a) =~= v);
    if v.len() == 0 {
        assert(v =~= Seq::<Seq<char>>::empty());
    }
}

proof fn lemma_json_vec_reads_back(v: Seq<JsonView>)
    ensures
        dec_json_vec(if v.len() > 0 { Some(JsonView::Array(v)) } else { None }) == Some(v),
{
    if v.len() == 0 {
        assert(v =~= Seq::<JsonView>::empty());
    }
}

proof fn lemma_dist_reads_back(d: DistView)
    ensures
        dist_of(dist_json(d)) == Ok::<DistView, Seq<char>>(d),
{
    lemma_member_facts();
    reveal_strlit("url");
    reveal_strlit("type");
    reveal_strlit("shasum");
    reveal_strlit("reference");
    reveal_strlit("dist");
    let a = seq![("url"@, JsonView::Str(d.url))];
    let b = seq![("type"@, JsonView::Str(d.kind))];
    let c = seq![("shasum"@, JsonView::Str(d.shasum))];
    let r = opt_member(d.reference is Some, "reference"@, opt_str_json(d.reference));
    let o = a + b + c + r;
    assert(dist_json(d) == JsonView::Object(o));
    assert("url"@.len() == 3);
    assert("type"@.len() == 4);
    assert("shasum"@.len() == 6);
    assert("reference"@.len() == 9);
}

/// The lengths and telling characters of the keys a package is written
/// with, so that they are seen to differ.
proof fn lemma_package_keys()
    ensures
        "name"@.len() == 4 && "dist"@.len() == 4 && "type"@.len() == 4 && "time"@.len() == 4,
        "name"@[0] == 'n' && "dist"@[0] == 'd' && "type"@[0] == 't' && "time"@[0] == 't',
        "type"@[1] == 'y' && "time"@[1] == 'i',
        "source"@.len() == 6,
        "version"@.len() == 7 && "require"@.len() == 7 && "replace"@.len() == 7 && "provide"@.len() == 7,
        "suggest"@.len() == 7 && "license"@.len() == 7 && "authors"@.len() == 7,
        "version"@[0] == 'v' && "require"@[0] == 'r' && "replace"@[0] == 'r' && "provide"@[0] == 'p',
        "suggest"@[0] == 's' && "license"@[0] == 'l' && "authors"@[0] == 'a',
        "require"@[2] == 'q' && "replace"@[2] == 'p',
        "conflict"@.len() == 8 && "autoload"@.len() == 8 && "homepage"@.len() == 8 && "keywords"@.len() == 8,
        "conflict"@[0] == 'c' && "autoload"@[0] == 'a' && "homepage"@[0] == 'h' && "keywords"@[0] == 'k',
        "require-dev"@.len() == 11 && "description"@.len() == 11,
        "require-dev"@[0] == 'r' && "description"@[0] == 'd',
        "autoload-dev"@.len() == 12,
        "notification_url"@.len() == 16,
{
    reveal_strlit("name");
    reveal_strlit("dist");
    reveal_strlit("type");
    reveal_strlit("time");
    reveal_strlit("source");
    reveal_strlit("version");
    reveal_strlit("require");
    reveal_strlit("replace");
    reveal_strlit("provide");
    reveal_strlit("suggest");
    reveal_strlit("license");
    reveal_strlit("authors");
    reveal_strlit("conflict");
    reveal_strlit("autoload");
    reveal_strlit("homepage");
    reveal_strlit("keywords");
    reveal_strlit("require-dev");
    reveal_strlit("description");
    reveal_strlit("autoload-dev");
    reveal_strlit("notification_url");
}

proof fn lemma_member_opt(c: bool, k2: Seq<char>, v: JsonView, k: Seq<char>)
    ensures
        member(opt_member(c, k2, v), k) === if c && k2 == k { Some(v) } else { None::<JsonView> },
{
    reveal(member);
    lemma_member_single(k2, v, k);
    lemma_member_index(Seq::<(Seq<char>, JsonView)>::empty(), k);
}

/// The lengths and telling characters of the keys a lock is written with.
proof fn lemma_lock_keys()
    ensures
        "_readme"@.len() == 7 && "aliases"@.len() == 7 && "_readme"@[0] == '_' && "aliases"@[0] == 'a',
        "packages"@.len() == 8 && "platform"@.len() == 8 && "packages"@[1] == 'a' && "platform"@[1] == 'l',
        "content-hash"@.len() == 12 && "packages-dev"@.len() == 12 && "platform-dev"@.len() == 12,
        "content-hash"@[0] == 'c' && "packages-dev"@[0] == 'p' && "platform-dev"@[0] == 'p',
        "packages-dev"@[1] == 'a' && "platform-dev"@[1] == 'l',
        "prefer-stable"@.len() == 13 && "prefer-lowest"@.len() == 13,
        "prefer-stable"@[7] == 's' && "prefer-lowest"@[7] == 'l',
        "stability-flags"@.len() == 15,
        "minimum-stability"@.len() == 17,
        "plugin-api-version"@.len() == 18,
{
    reveal_strlit("_readme");
    reveal_strlit("aliases");
    reveal_strlit("packages");
    reveal_strlit("platform");
    reveal_strlit("content-hash");
    reveal_strlit("packages-dev");
    reveal_strlit("platform-dev");
    reveal_strlit("prefer-stable");
    reveal_strlit("prefer-lowest");
    reveal_strlit("stability-flags");
    reveal_strlit("minimum-stability");
    reveal_strlit("plugin-api-version");
}

proof fn lemma_package_member_name(p: LockedPackageView)
    ensures
        member(package_through_notification_url(p), "name"@) === Some(JsonView::Str(p.name)),
{
    lemma_package_keys();
    reveal(package_through_name);
    reveal(package_through_version);
    reveal(package_through_source);
    reveal(package_through_dist);
    reveal(package_through_require);
    reveal(package_through_require_dev);
    reveal(package_through_conflict);
    reveal(package_through_replace);
    reveal(package_through_provide);
    reveal(package_through_suggest);
    reveal(package_through_type);
    reveal(package_through_autoload);
    reveal(package_through_autoload_dev);
    reveal(package_through_license);
    reveal(package_through_authors);
    reveal(package_through_description);
    reveal(package_through_homepage);
    reveal(package_through_keywords);
    reveal(package_through_time);
    reveal(package_through_notification_url);
    lemma_member_single("name"@, JsonView::Str(p.name), "name"@);
    lemma_member_append(package_through_name(p), seq![("version"@, JsonView::Str(p.version))], "name"@);
    lemma_member_single("version"@, JsonView::Str(p.version), "name"@);
    lemma_member_append(package_through_version(p), opt_member(!(p.source is Null), "source"@, p.source), "name"@);
    lemma_member_opt(!(p.source is Null), "source"@, p.source, "name"@);
    lemma_member_append(package_through_source(p), seq![("dist"@, dist_json(p.dist))], "name"@);
    lemma_member_single("dist"@, dist_json(p.dist), "name"@);
    lemma_member_append(package_through_dist(p), opt_member(p.require.len() > 0, "require"@, str_map_json(p.require)), "name"@);
    lemma_member_opt(p.require.len() > 0, "require"@, str_map_json(p.require), "name"@);
    lemma_member_append(package_through_require(p), opt_member(p.require_dev.len() > 0, "require-dev"@, str_map_json(p.require_dev)), "name"@);
    lemma_member_opt(p.require_dev.len() > 0, "require-dev"@, str_map_json(p.require_dev), "name"@);
    lemma_member_append(package_through_require_dev(p), opt_member(p.conflict.len() > 0, "conflict"@, str_map_json(p.conflict)), "name"@);
    lemma_member_opt(p.conflict.len() > 0, "conflict"@, str_map_json(p.conflict), "name"@);
    lemma_member_append(package_through_conflict(p), opt_member(p.replace.len() > 0, "replace"@, str_map_json(p.replace)), "name"@);
    lemma_member_opt(p.replace.len() > 0, "replace"@, str_map_json(p.replace), "name"@);
    lemma_member_append(package_through_replace(p), opt_member(p.provide.len() > 0, "provide"@, str_map_json(p.provide)), "name"@);
    lemma_member_opt(p.provide.len() > 0, "provide"@, str_map_json(p.provide), "name"@);
    lemma_member_append(package_through_provide(p), opt_member(p.suggest.len() > 0, "suggest"@, str_map_json(p.suggest)), "name"@);
    lemma_member_opt(p.suggest.len() > 0, "suggest"@, str_map_json(p.suggest), "name"@);
    lemma_member_append(package_through_suggest(p), opt_member(p.type_field is Some, "type"@, opt_str_json(p.type_field)), "name"@);
    lemma_member_opt(p.type_field is Some, "type"@, opt_str_json(p.type_field), "name"@);
    lemma_member_append(package_through_type(p), opt_member(!(p.autoload is Null), "autoload"@, p.autoload), "name"@);
    lemma_member_opt(!(p.autoload is Null), "autoload"@, p.autoload, "name"@);
    lemma_member_append(package_through_autoload(p), opt_member(!(p.autoload_dev is Null), "autoload-dev"@, p.autoload_dev), "name"@);
    lemma_member_opt(!(p.autoload_dev is Null), "autoload-dev"@, p.autoload_dev, "name"@);
    lemma_member_append(package_through_autoload_dev(p), opt_member(p.license.len() > 0, "license"@, strs_json(p.license)), "name"@);
    lemma_member_opt(p.license.len() > 0, "license"@, strs_json(p.license), "name"@);
    lemma_member_append(package_through_license(p), opt_member(p.authors.len() > 0, "authors"@, JsonView::Array(p.authors)), "name"@);
    lemma_member_opt(p.authors.len() > 0, "authors"@, JsonView::Array(p.authors), "name"@);
    lemma_member_append(package_through_authors(p), opt_member(p.description is Some, "description"@, opt_str_json(p.description)), "name"@);
    lemma_member_opt(p.description is Some, "description"@, opt_str_json(p.description), "name"@);
    lemma_member_append(package_through_description(p), opt_member(p.homepage is Some, "homepage"@, opt_str_json(p.homepage)), "name"@);
    lemma_member_opt(p.homepage is Some, "homepage"@, opt_str_json(p.homepage), "name"@);
    lemma_member_append(package_through_homepage(p), opt_member(p.keywords.len() > 0, "keywords"@, strs_json(p.keywords)), "name"@);
    lemma_member_opt(p.keywords.len() > 0, "keywords"@, strs_json(p.keywords), "name"@);
    lemma_member_append(package_through_keywords(p), opt_member(p.time is Some, "time"@, opt_str_json(p.time)), "name"@);
    lemma_member_opt(p.time is Some, "time"@, opt_str_json(p.time), "name"@);
    lemma_member_append(package_through_time(p), opt_member(p.notification_url is Some, "notification_url"@, opt_str_json(p.notification_url)), "name"@);
    lemma_member_opt(p.notification_url is Some, "notification_url"@, opt_str_json(p.notification_url), "name"@);
}

proof fn lemma_package_member_version(p: LockedPackageView)
    ensures
        member(package_through_notification_url(p), "version"@) === Some(JsonView::Str(p.version)),
{
    lemma_package_keys();
    reveal(package_through_name);
    reveal(package_through_version);
    reveal(package_through_source);
    reveal(package_through_dist);
    reveal(package_through_require);
    reveal(package_through_require_dev);
    reveal(package_through_conflict);
    reveal(package_through_replace);
    reveal(package_through_provide);
    reveal(package_through_suggest);
    reveal(package_through_type);
    reveal(package_through_autoload);
    reveal(package_through_autoload_dev);
    reveal(package_through_license);
    reveal(package_through_authors);
    reveal(package_through_description);
    reveal(package_through_homepage);
    reveal(package_through_keywords);
    reveal(package_through_time);
    reveal(package_through_notification_url);
    lemma_member_single("name"@, JsonView::Str(p.name), "version"@);
    lemma_member_append(package_through_name(p), seq![("version"@, JsonView::Str(p.version))], "version"@);
    lemma_member_single("version"@, JsonView::Str(p.version), "version"@);
    lemma_member_append(package_through_version(p), opt_member(!(p.source is Null), "source"@, p.source), "version"@);
    lemma_member_opt(!(p.source is Null), "source"@, p.source, "version"@);
    lemma_member_append(package_through_source(p), seq![("dist"@, dist_json(p.dist))], "version"@);
    lemma_member_single("dist"@, dist_json(p.dist), "version"@);
    lemma_member_append(package_through_dist(p), opt_member(p.require.len() > 0, "require"@, str_map_json(p.require)), "version"@);
    lemma_member_opt(p.require.len() > 0, "require"@, str_map_json(p.require), "version"@);
    lemma_member_append(package_through_require(p), opt_member(p.require_dev.len() > 0, "require-dev"@, str_map_json(p.require_dev)), "version"@);
    lemma_member_opt(p.require_dev.len() > 0, "require-dev"@, str_map_json(p.require_dev), "version"@);
    lemma_member_append(package_through_require_dev(p), opt_member(p.conflict.len() > 0, "conflict"@, str_map_json(p.conflict)), "version"@);
    lemma_member_opt(p.conflict.len() > 0, "conflict"@, str_map_json(p.conflict), "version"@);
    lemma_member_append(package_through_conflict(p), opt_member(p.replace.len() > 0, "replace"@, str_map_json(p.replace)), "version"@);
    lemma_member_opt(p.replace.len() > 0, "replace"@, str_map_json(p.replace), "version"@);
    lemma_member_append(package_through_replace(p), opt_member(p.provide.len() > 0, "provide"@, str_map_json(p.provide)), "version"@);
    lemma_member_opt(p.provide.len() > 0, "provide"@, str_map_json(p.provide), "version"@);
    lemma_member_append(package_through_provide(p), opt_member(p.suggest.len() > 0, "suggest"@, str_map_json(p.suggest)), "version"@);
    lemma_member_opt(p.suggest.len() > 0, "suggest"@, str_map_json(p.suggest), "version"@);
    lemma_member_append(package_through_suggest(p), opt_member(p.type_field is Some, "type"@, opt_str_json(p.type_field)), "version"@);
    lemma_member_opt(p.type_field is Some, "type"@, opt_str_json(p.type_field), "version"@);
    lemma_member_append(package_through_type(p), opt_member(!(p.autoload is Null), "autoload"@, p.autoload), "version"@);
    lemma_member_opt(!(p.autoload is Null), "autoload"@, p.autoload, "version"@);
    lemma_member_append(package_through_autoload(p), opt_member(!(p.autoload_dev is Null), "autoload-dev"@, p.autoload_dev), "version"@);
    lemma_member_opt(!(p.autoload_dev is Null), "autoload-dev"@, p.autoload_dev, "version"@);
    lemma_member_append(package_through_autoload_dev(p), opt_member(p.license.len() > 0, "license"@, strs_json(p.license)), "version"@);
    lemma_member_opt(p.license.len() > 0, "license"@, strs_json(p.license), "version"@);
    lemma_member_append(package_through_license(p), opt_member(p.authors.len() > 0, "authors"@, JsonView::Array(p.authors)), "version"@);
    lemma_member_opt(p.authors.len() > 0, "authors"@, JsonView::Array(p.authors), "version"@);
    lemma_member_append(package_through_authors(p), opt_member(p.description is Some, "description"@, opt_str_json(p.description)), "version"@);
    lemma_member_opt(p.description is Some, "description"@, opt_str_json(p.description), "version"@);
    lemma_member_append(package_through_description(p), opt_member(p.homepage is Some, "homepage"@, opt_str_json(p.homepage)), "version"@);
    lemma_member_opt(p.homepage is Some, "homepage"@, opt_str_json(p.homepage), "version"@);
    lemma_member_append(package_through_homepage(p), opt_member(p.keywords.len() > 0, "keywords"@, strs_json(p.keywords)), "version"@);
    lemma_member_opt(p.keywords.len() > 0, "keywords"@, strs_json(p.keywords), "version"@);
    lemma_member_append(package_through_keywords(p), opt_member(p.time is Some, "time"@, opt_str_json(p.time)), "version"@);
    lemma_member_opt(p.time is Some, "time"@, opt_str_json(p.time), "version"@);
    lemma_member_append(package_through_time(p), opt_member(p.notification_url is Some, "notification_url"@, opt_str_json(p.notification_url)), "version"@);
    lemma_member_opt(p.notification_url is Some, "notification_url"@, opt_str_json(p.notification_url), "version"@);
}

proof fn lemma_package_member_source(p: LockedPackageView)
    ensures
        member(package_through_notification_url(p), "source"@) === if !(p.source is Null) { Some(p.source) } else { None::<JsonView> },
{
    lemma_package_keys();
    reveal(package_through_name);
    reveal(package_through_version);
    reveal(package_through_source);
    reveal(package_through_dist);
    reveal(package_through_require);
    reveal(package_through_require_dev);
    reveal(package_through_conflict);
    reveal(package_through_replace);
    reveal(package_through_provide);
    reveal(package_through_suggest);
    reveal(package_through_type);
    reveal(package_through_autoload);
    reveal(package_through_autoload_dev);
    reveal(package_through_license);
    reveal(package_through_authors);
    reveal(package_through_description);
    reveal(package_through_homepage);
    reveal(package_through_keywords);
    reveal(package_through_time);
    reveal(package_through_notification_url);
    lemma_member_single("name"@, JsonView::Str(p.name), "source"@);
    lemma_member_append(package_through_name(p), seq![("version"@, JsonView::Str(p.version))], "source"@);
    lemma_member_single("version"@, JsonView::Str(p.version), "source"@);
    lemma_member_append(package_through_version(p), opt_member(!(p.source is Null), "source"@, p.source), "source"@);
    lemma_member_opt(!(p.source is Null), "source"@, p.source, "source"@);
    lemma_member_append(package_through_source(p), seq![("dist"@, dist_json(p.dist))], "source"@);
    lemma_member_single("dist"@, dist_json(p.dist), "source"@);
    lemma_member_append(package_through_dist(p), opt_member(p.require.len() > 0, "require"@, str_map_json(p.require)), "source"@);
    lemma_member_opt(p.require.len() > 0, "require"@, str_map_json(p.require), "source"@);
    lemma_member_append(package_through_require(p), opt_member(p.require_dev.len() > 0, "require-dev"@, str_map_json(p.require_dev)), "source"@);
    lemma_member_opt(p.require_dev.len() > 0, "require-dev"@, str_map_json(p.require_dev), "source"@);
    lemma_member_append(package_through_require_dev(p), opt_member(p.conflict.len() > 0, "conflict"@, str_map_json(p.conflict)), "source"@);
    lemma_member_opt(p.conflict.len() > 0, "conflict"@, str_map_json(p.conflict), "source"@);
    lemma_member_append(package_through_conflict(p), opt_member(p.replace.len() > 0, "replace"@, str_map_json(p.replace)), "source"@);
    lemma_member_opt(p.replace.len() > 0, "replace"@, str_map_json(p.replace), "source"@);
    lemma_member_append(package_through_replace(p), opt_member(p.provide.len() > 0, "provide"@, str_map_json(p.provide)), "source"@);
    lemma_member_opt(p.provide.len() > 0, "provide"@, str_map_json(p.provide), "source"@);
    lemma_member_append(package_through_provide(p), opt_member(p.suggest.len() > 0, "suggest"@, str_map_json(p.suggest)), "source"@);
    lemma_member_opt(p.suggest.len() > 0, "suggest"@, str_map_json(p.suggest), "source"@);
    lemma_member_append(package_through_suggest(p), opt_member(p.type_field is Some, "type"@, opt_str_json(p.type_field)), "source"@);
    lemma_member_opt(p.type_field is Some, "type"@, opt_str_json(p.type_field), "source"@);
    lemma_member_append(package_through_type(p), opt_member(!(p.autoload is Null), "autoload"@, p.autoload), "source"@);
    lemma_member_opt(!(p.autoload is Null), "autoload"@, p.autoload, "source"@);
    lemma_member_append(package_through_autoload(p), opt_member(!(p.autoload_dev is Null), "autoload-dev"@, p.autoload_dev), "source"@);
    lemma_member_opt(!(p.autoload_dev is Null), "autoload-dev"@, p.autoload_dev, "source"@);
    lemma_member_append(package_through_autoload_dev(p), opt_member(p.license.len() > 0, "license"@, strs_json(p.license)), "source"@);
    lemma_member_opt(p.license.len() > 0, "license"@, strs_json(p.license), "source"@);
    lemma_member_append(package_through_license(p), opt_member(p.authors.len() > 0, "authors"@, JsonView::Array(p.authors)), "source"@);
    lemma_member_opt(p.authors.len() > 0, "authors"@, JsonView::Array(p.authors), "source"@);
    lemma_member_append(package_through_authors(p), opt_member(p.description is Some, "description"@, opt_str_json(p.description)), "source"@);
    lemma_member_opt(p.description is Some, "description"@, opt_str_json(p.description), "source"@);
    lemma_member_append(package_through_description(p), opt_member(p.homepage is Some, "homepage"@, opt_str_json(p.homepage)), "source"@);
    lemma_member_opt(p.homepage is Some, "homepage"@, opt_str_json(p.homepage), "source"@);
    lemma_member_append(package_through_homepage(p), opt_member(p.keywords.len() > 0, "keywords"@, strs_json(p.keywords)), "source"@);
    lemma_member_opt(p.keywords.len() > 0, "keywords"@, strs_json(p.keywords), "source"@);
    lemma_member_append(package_through_keywords(p), opt_member(p.time is Some, "time"@, opt_str_json(p.time)), "source"@);
    lemma_member_opt(p.time is Some, "time"@, opt_str_json(p.time), "source"@);
    lemma_member_append(package_through_time(p), opt_member(p.notification_url is Some, "notification_url"@, opt_str_json(p.notification_url)), "source"@);
    lemma_member_opt(p.notification_url is Some, "notification_url"@, opt_str_json(p.notification_url), "source"@);
}

proof fn lemma_package_member_dist(p: LockedPackageView)
    ensures
        member(package_through_notification_url(p), "dist"@) === Some(dist_json(p.dist)),
{
    lemma_package_keys();
    reveal(package_through_name);
    reveal(package_through_version);
    reveal(package_through_source);
    reveal(package_through_dist);
    reveal(package_through_require);
    reveal(package_through_require_dev);
    reveal(package_through_conflict);
    reveal(package_through_replace);
    reveal(package_through_provide);
    reveal(package_through_suggest);
    reveal(package_through_type);
    reveal(package_through_autoload);
    reveal(package_through_autoload_dev);
    reveal(package_through_license);
    reveal(package_through_authors);
    reveal(package_through_description);
    reveal(package_through_homepage);
    reveal(package_through_keywords);
    reveal(package_through_time);
    reveal(package_through_notification_url);
    lemma_member_single("name"@, JsonView::Str(p.name), "dist"@);
    lemma_member_append(package_through_name(p), seq![("version"@, JsonView::Str(p.version))], "dist"@);
    lemma_member_single("version"@, JsonView::Str(p.version), "dist"@);
    lemma_member_append(package_through_version(p), opt_member(!(p.source is Null), "source"@, p.source), "dist"@);
    lemma_member_opt(!(p.source is Null), "source"@, p.source, "dist"@);
    lemma_member_append(package_through_source(p), seq![("dist"@, dist_json(p.dist))], "dist"@);
    lemma_member_single("dist"@, dist_json(p.dist), "dist"@);
    lemma_member_append(package_through_dist(p), opt_member(p.require.len() > 0, "require"@, str_map_json(p.require)), "dist"@);
    lemma_member_opt(p.require.len() > 0, "require"@, str_map_json(p.require), "dist"@);
    lemma_member_append(package_through_require(p), opt_member(p.require_dev.len() > 0, "require-dev"@, str_map_json(p.require_dev)), "dist"@);
    lemma_member_opt(p.require_dev.len() > 0, "require-dev"@, str_map_json(p.require_dev), "dist"@);
    lemma_member_append(package_through_require_dev(p), opt_member(p.conflict.len() > 0, "conflict"@, str_map_json(p.conflict)), "dist"@);
    lemma_member_opt(p.conflict.len() > 0, "conflict"@, str_map_json(p.conflict), "dist"@);
    lemma_member_append(package_through_conflict(p), opt_member(p.replace.len() > 0, "replace"@, str_map_json(p.replace)), "dist"@);
    lemma_member_opt(p.replace.len() > 0, "replace"@, str_map_json(p.replace), "dist"@);
    lemma_member_append(package_through_replace(p), opt_member(p.provide.len() > 0, "provide"@, str_map_json(p.provide)), "dist"@);
    lemma_member_opt(p.provide.len() > 0, "provide"@, str_map_json(p.provide), "dist"@);
    lemma_member_append(package_through_provide(p), opt_member(p.suggest.len() > 0, "suggest"@, str_map_json(p.suggest)), "dist"@);
    lemma_member_opt(p.suggest.len() > 0, "suggest"@, str_map_json(p.suggest), "dist"@);
    lemma_member_append(package_through_suggest(p), opt_member(p.type_field is Some, "type"@, opt_str_json(p.type_field)), "dist"@);
    lemma_member_opt(p.type_field is Some, "type"@, opt_str_json(p.type_field), "dist"@);
    lemma_member_append(package_through_type(p), opt_member(!(p.autoload is Null), "autoload"@, p.autoload), "dist"@);
    lemma_member_opt(!(p.autoload is Null), "autoload"@, p.autoload, "dist"@);
    lemma_member_append(package_through_autoload(p), opt_member(!(p.autoload_dev is Null), "autoload-dev"@, p.autoload_dev), "dist"@);
    lemma_member_opt(!(p.autoload_dev is Null), "autoload-dev"@, p.autoload_dev, "dist"@);
    lemma_member_append(package_through_autoload_dev(p), opt_member(p.license.len() > 0, "license"@, strs_json(p.license)), "dist"@);
    lemma_member_opt(p.license.len() > 0, "license"@, strs_json(p.license), "dist"@);
    lemma_member_append(package_through_license(p), opt_member(p.authors.len() > 0, "authors"@, JsonView::Array(p.authors)), "dist"@);
    lemma_member_opt(p.authors.len() > 0, "authors"@, JsonView::Array(p.authors), "dist"@);
    lemma_member_append(package_through_authors(p), opt_member(p.description is Some, "description"@, opt_str_json(p.description)), "dist"@);
    lemma_member_opt(p.description is Some, "description"@, opt_str_json(p.description), "dist"@);
    lemma_member_append(package_through_description(p), opt_member(p.homepage is Some, "homepage"@, opt_str_json(p.homepage)), "dist"@);
    lemma_member_opt(p.homepage is Some, "homepage"@, opt_str_json(p.homepage), "dist"@);
    lemma_member_append(package_through_homepage(p), opt_member(p.keywords.len() > 0, "keywords"@, strs_json(p.keywords)), "dist"@);
    lemma_member_opt(p.keywords.len() > 0, "keywords"@, strs_json(p.keywords), "dist"@);
    lemma_member_append(package_through_keywords(p), opt_member(p.time is Some, "time"@, opt_str_json(p.time)), "dist"@);
    lemma_member_opt(p.time is Some, "time"@, opt_str_json(p.time), "dist"@);
    lemma_member_append(package_through_time(p), opt_member(p.notification_url is Some, "notification_url"@, opt_str_json(p.notification_url)), "dist"@);
    lemma_member_opt(p.notification_url is Some, "notification_url"@, opt_str_json(p.notification_url), "dist"@);
}

proof fn lemma_package_member_require(p: LockedPackageView)
    ensures
        member(package_through_notification_url(p), "require"@) === if p.require.len() > 0 { Some(str_map_json(p.require)) } else { None::<JsonView> },
{
    lemma_package_keys();
    reveal(package_through_name);
    reveal(package_through_version);
    reveal(package_through_source);
    reveal(package_through_dist);
    reveal(package_through_require);
    reveal(package_through_require_dev);
    reveal(package_through_conflict);
    reveal(package_through_replace);
    reveal(package_through_provide);
    reveal(package_through_suggest);
    reveal(package_through_type);
    reveal(package_through_autoload);
    reveal(package_through_autoload_dev);
    reveal(package_through_license);
    reveal(package_through_authors);
    reveal(package_through_description);
    reveal(package_through_homepage);
    reveal(package_through_keywords);
    reveal(package_through_time);
    reveal(package_through_notification_url);
    lemma_member_single("name"@, JsonView::Str(p.name), "require"@);
    lemma_member_append(package_through_name(p), seq![("version"@, JsonView::Str(p.version))], "require"@);
    lemma_member_single("version"@, JsonView::Str(p.version), "require"@);
    lemma_member_append(package_through_version(p), opt_member(!(p.source is Null), "source"@, p.source), "require"@);
    lemma_member_opt(!(p.source is Null), "source"@, p.source, "require"@);
    lemma_member_append(package_through_source(p), seq![("dist"@, dist_json(p.dist))], "require"@);
    lemma_member_single("dist"@, dist_json(p.dist), "require"@);
    lemma_member_append(package_through_dist(p), opt_member(p.require.len() > 0, "require"@, str_map_json(p.require)), "require"@);
    lemma_member_opt(p.require.len() > 0, "require"@, str_map_json(p.require), "require"@);
    lemma_member_append(package_through_require(p), opt_member(p.require_dev.len() > 0, "require-dev"@, str_map_json(p.require_dev)), "require"@);
    lemma_member_opt(p.require_dev.len() > 0, "require-dev"@, str_map_json(p.require_dev), "require"@);
    lemma_member_append(package_through_require_dev(p), opt_member(p.conflict.len() > 0, "conflict"@, str_map_json(p.conflict)), "require"@);
    lemma_member_opt(p.conflict.len() > 0, "conflict"@, str_map_json(p.conflict), "require"@);
    lemma_member_append(package_through_conflict(p), opt_member(p.replace.len() > 0, "replace"@, str_map_json(p.replace)), "require"@);
    lemma_member_opt(p.replace.len() > 0, "replace"@, str_map_json(p.replace), "require"@);
    lemma_member_append(package_through_replace(p), opt_member(p.provide.len() > 0, "provide"@, str_map_json(p.provide)), "require"@);
    lemma_member_opt(p.provide.len() > 0, "provide"@, str_map_json(p.provide), "require"@);
    lemma_member_append(package_through_provide(p), opt_member(p.suggest.len() > 0, "suggest"@, str_map_json(p.suggest)), "require"@);
    lemma_member_opt(p.suggest.len() > 0, "suggest"@, str_map_json(p.suggest), "require"@);
    lemma_member_append(package_through_suggest(p), opt_member(p.type_field is Some, "type"@, opt_str_json(p.type_field)), "require"@);
    lemma_member_opt(p.type_field is Some, "type"@, opt_str_json(p.type_field), "require"@);
    lemma_member_append(package_through_type(p), opt_member(!(p.autoload is Null), "autoload"@, p.autoload), "require"@);
    lemma_member_opt(!(p.autoload is Null), "autoload"@, p.autoload, "require"@);
    lemma_member_append(package_through_autoload(p), opt_member(!(p.autoload_dev is Null), "autoload-dev"@, p.autoload_dev), "require"@);
    lemma_member_opt(!(p.autoload_dev is Null), "autoload-dev"@, p.autoload_dev, "require"@);
    lemma_member_append(package_through_autoload_dev(p), opt_member(p.license.len() > 0, "license"@, strs_json(p.license)), "require"@);
    lemma_member_opt(p.license.len() > 0, "license"@, strs_json(p.license), "require"@);
    lemma_member_append(package_through_license(p), opt_member(p.authors.len() > 0, "authors"@, JsonView::Array(p.authors)), "require"@);
    lemma_member_opt(p.authors.len() > 0, "authors"@, JsonView::Array(p.authors), "require"@);
    lemma_member_append(package_through_authors(p), opt_member(p.description is Some, "description"@, opt_str_json(p.description)), "require"@);
    lemma_member_opt(p.description is Some, "description"@, opt_str_json(p.description), "require"@);
    lemma_member_append(package_through_description(p), opt_member(p.homepage is Some, "homepage"@, opt_str_json(p.homepage)), "require"@);
    lemma_member_opt(p.homepage is Some, "homepage"@, opt_str_json(p.homepage), "require"@);
    lemma_member_append(package_through_homepage(p), opt_member(p.keywords.len() > 0, "keywords"@, strs_json(p.keywords)), "require"@);
    lemma_member_opt(p.keywords.len() > 0, "keywords"@, strs_json(p.keywords), "require"@);
    lemma_member_append(package_through_keywords(p), opt_member(p.time is Some, "time"@, opt_str_json(p.time)), "require"@);
    lemma_member_opt(p.time is Some, "time"@, opt_str_json(p.time), "require"@);
    lemma_member_append(package_through_time(p), opt_member(p.notification_url is Some, "notification_url"@, opt_str_json(p.notification_url)), "require"@);
    lemma_member_opt(p.notification_url is Some, "notification_url"@, opt_str_json(p.notification_url), "require"@);
}

proof fn lemma_package_member_require_dev(p: LockedPackageView)
    ensures
        member(package_through_notification_url(p), "require-dev"@) === if p.require_dev.len() > 0 { Some(str_map_json(p.require_dev)) } else { None::<JsonView> },
{
    lemma_package_keys();
    reveal(package_through_name);
    reveal(package_through_version);
    reveal(package_through_source);
    reveal(package_through_dist);
    reveal(package_through_require);
    reveal(package_through_require_dev);
    reveal(package_through_conflict);
    reveal(package_through_replace);
    reveal(package_through_provide);
    reveal(package_through_suggest);
    reveal(package_through_type);
    reveal(package_through_autoload);
    reveal(package_through_autoload_dev);
    reveal(package_through_license);
    reveal(package_through_authors);
    reveal(package_through_description);
    reveal(package_through_homepage);
    reveal(package_through_keywords);
    reveal(package_through_time);
    reveal(package_through_notification_url);
    lemma_member_single("name"@, JsonView::Str(p.name), "require-dev"@);
    lemma_member_append(package_through_name(p), seq![("version"@, JsonView::Str(p.version))], "require-dev"@);
    lemma_member_single("version"@, JsonView::Str(p.version), "require-dev"@);
    lemma_member_append(package_through_version(p), opt_member(!(p.source is Null), "source"@, p.source), "require-dev"@);
    lemma_member_opt(!(p.source is Null), "source"@, p.source, "require-dev"@);
    lemma_member_append(package_through_source(p), seq![("dist"@, dist_json(p.dist))], "require-dev"@);
    lemma_member_single("dist"@, dist_json(p.dist), "require-dev"@);
    lemma_member_append(package_through_dist(p), opt_member(p.require.len() > 0, "require"@, str_map_json(p.require)), "require-dev"@);
    lemma_member_opt(p.require.len() > 0, "require"@, str_map_json(p.require), "require-dev"@);
    lemma_member_append(package_through_require(p), opt_member(p.require_dev.len() > 0, "require-dev"@, str_map_json(p.require_dev)), "require-dev"@);
    lemma_member_opt(p.require_dev.len() > 0, "require-dev"@, str_map_json(p.require_dev), "require-dev"@);
    lemma_member_append(package_through_require_dev(p), opt_member(p.conflict.len() > 0, "conflict"@, str_map_json(p.conflict)), "require-dev"@);
    lemma_member_opt(p.conflict.len() > 0, "conflict"@, str_map_json(p.conflict), "require-dev"@);
    lemma_member_append(package_through_conflict(p), opt_member(p.replace.len() > 0, "replace"@, str_map_json(p.replace)), "require-dev"@);
    lemma_member_opt(p.replace.len() > 0, "replace"@, str_map_json(p.replace), "require-dev"@);
    lemma_member_append(package_through_replace(p), opt_member(p.provide.len() > 0, "provide"@, str_map_json(p.provide)), "require-dev"@);
    lemma_member_opt(p.provide.len() > 0, "provide"@, str_map_json(p.provide), "require-dev"@);
    lemma_member_append(package_through_provide(p), opt_member(p.suggest.len() > 0, "suggest"@, str_map_json(p.suggest)), "require-dev"@);
    lemma_member_opt(p.suggest.len() > 0, "suggest"@, str_map_json(p.suggest), "require-dev"@);
    lemma_member_append(package_through_suggest(p), opt_member(p.type_field is Some, "type"@, opt_str_json(p.type_field)), "require-dev"@);
    lemma_member_opt(p.type_field is Some, "type"@, opt_str_json(p.type_field), "require-dev"@);
    lemma_member_append(package_through_type(p), opt_member(!(p.autoload is Null), "autoload"@, p.autoload), "require-dev"@);
    lemma_member_opt(!(p.autoload is Null), "autoload"@, p.autoload, "require-dev"@);
    lemma_member_append(package_through_autoload(p), opt_member(!(p.autoload_dev is Null), "autoload-dev"@, p.autoload_dev), "require-dev"@);
    lemma_member_opt(!(p.autoload_dev is Null), "autoload-dev"@, p.autoload_dev, "require-dev"@);
    lemma_member_append(package_through_autoload_dev(p), opt_member(p.license.len() > 0, "license"@, strs_json(p.license)), "require-dev"@);
    lemma_member_opt(p.license.len() > 0, "license"@, strs_json(p.license), "require-dev"@);
    lemma_member_append(package_through_license(p), opt_member(p.authors.len() > 0, "authors"@, JsonView::Array(p.authors)), "require-dev"@);
    lemma_member_opt(p.authors.len() > 0, "authors"@, JsonView::Array(p.authors), "require-dev"@);
    lemma_member_append(package_through_authors(p), opt_member(p.description is Some, "description"@, opt_str_json(p.description)), "require-dev"@);
    lemma_member_opt(p.description is Some, "description"@, opt_str_json(p.description), "require-dev"@);
    lemma_member_append(package_through_description(p), opt_member(p.homepage is Some, "homepage"@, opt_str_json(p.homepage)), "require-dev"@);
    lemma_member_opt(p.homepage is Some, "homepage"@, opt_str_json(p.homepage), "require-dev"@);
    lemma_member_append(package_through_homepage(p), opt_member(p.keywords.len() > 0, "keywords"@, strs_json(p.keywords)), "require-dev"@);
    lemma_member_opt(p.keywords.len() > 0, "keywords"@, strs_json(p.keywords), "require-dev"@);
    lemma_member_append(package_through_keywords(p), opt_member(p.time is Some, "time"@, opt_str_json(p.time)), "require-dev"@);
    lemma_member_opt(p.time is Some, "time"@, opt_str_json(p.time), "require-dev"@);
    lemma_member_append(package_through_time(p), opt_member(p.notification_url is Some, "notification_url"@, opt_str_json(p.notification_url)), "require-dev"@);
    lemma_member_opt(p.notification_url is Some, "notification_url"@, opt_str_json(p.notification_url), "require-dev"@);
}

proof fn lemma_package_member_conflict(p: LockedPackageView)
    ensures
        member(package_through_notification_url(p), "conflict"@) === if p.conflict.len() > 0 { Some(str_map_json(p.conflict)) } else { None::<JsonView> },
{
    lemma_package_keys();
    reveal(package_through_name);
    reveal(package_through_version);
    reveal(package_through_source);
    reveal(package_through_dist);
    reveal(package_through_require);
    reveal(package_through_require_dev);
    reveal(package_through_conflict);
    reveal(package_through_replace);
    reveal(package_through_provide);
    reveal(package_through_suggest);
    reveal(package_through_type);
    reveal(package_through_autoload);
    reveal(package_through_autoload_dev);
    reveal(package_through_license);
    reveal(package_through_authors);
    reveal(package_through_description);
    reveal(package_through_homepage);
    reveal(package_through_keywords);
    reveal(package_through_time);
    reveal(package_through_notification_url);
    lemma_member_single("name"@, JsonView::Str(p.name), "conflict"@);
    lemma_member_append(package_through_name(p), seq![("version"@, JsonView::Str(p.version))], "conflict"@);
    lemma_member_single("version"@, JsonView::Str(p.version), "conflict"@);
    lemma_member_append(package_through_version(p), opt_member(!(p.source is Null), "source"@, p.source), "conflict"@);
    lemma_member_opt(!(p.source is Null), "source"@, p.source, "conflict"@);
    lemma_member_append(package_through_source(p), seq![("dist"@, dist_json(p.dist))], "conflict"@);
    lemma_member_single("dist"@, dist_json(p.dist), "conflict"@);
    lemma_member_append(package_through_dist(p), opt_member(p.require.len() > 0, "require"@, str_map_json(p.require)), "conflict"@);
    lemma_member_opt(p.require.len() > 0, "require"@, str_map_json(p.require), "conflict"@);
    lemma_member_append(package_through_require(p), opt_member(p.require_dev.len() > 0, "require-dev"@, str_map_json(p.require_dev)), "conflict"@);
    lemma_member_opt(p.require_dev.len() > 0, "require-dev"@, str_map_json(p.require_dev), "conflict"@);
    lemma_member_append(package_through_require_dev(p), opt_member(p.conflict.len() > 0, "conflict"@, str_map_json(p.conflict)), "conflict"@);
    lemma_member_opt(p.conflict.len() > 0, "conflict"@, str_map_json(p.conflict), "conflict"@);
    lemma_member_append(package_through_conflict(p), opt_member(p.replace.len() > 0, "replace"@, str_map_json(p.replace)), "conflict"@);
    lemma_member_opt(p.replace.len() > 0, "replace"@, str_map_json(p.replace), "conflict"@);
    lemma_member_append(package_through_replace(p), opt_member(p.provide.len() > 0, "provide"@, str_map_json(p.provide)), "conflict"@);
    lemma_member_opt(p.provide.len() > 0, "provide"@, str_map_json(p.provide), "conflict"@);
    lemma_member_append(package_through_provide(p), opt_member(p.suggest.len() > 0, "suggest"@, str_map_json(p.suggest)), "conflict"@);
    lemma_member_opt(p.suggest.len() > 0, "suggest"@, str_map_json(p.suggest), "conflict"@);
    lemma_member_append(package_through_suggest(p), opt_member(p.type_field is Some, "type"@, opt_str_json(p.type_field)), "conflict"@);
    lemma_member_opt(p.type_field is Some, "type"@, opt_str_json(p.type_field), "conflict"@);
    lemma_member_append(package_through_type(p), opt_member(!(p.autoload is Null), "autoload"@, p.autoload), "conflict"@);
    lemma_member_opt(!(p.autoload is Null), "autoload"@, p.autoload, "conflict"@);
    lemma_member_append(package_through_autoload(p), opt_member(!(p.autoload_dev is Null), "autoload-dev"@, p.autoload_dev), "conflict"@);
    lemma_member_opt(!(p.autoload_dev is Null), "autoload-dev"@, p.autoload_dev, "conflict"@);
    lemma_member_append(package_through_autoload_dev(p), opt_member(p.license.len() > 0, "license"@, strs_json(p.license)), "conflict"@);
    lemma_member_opt(p.license.len() > 0, "license"@, strs_json(p.license), "conflict"@);
    lemma_member_append(package_through_license(p), opt_member(p.authors.len() > 0, "authors"@, JsonView::Array(p.authors)), "conflict"@);
    lemma_member_opt(p.authors.len() > 0, "authors"@, JsonView::Array(p.authors), "conflict"@);
    lemma_member_append(package_through_authors(p), opt_member(p.description is Some, "description"@, opt_str_json(p.description)), "conflict"@);
    lemma_member_opt(p.description is Some, "description"@, opt_str_json(p.description), "conflict"@);
    lemma_member_append(package_through_description(p), opt_member(p.homepage is Some, "homepage"@, opt_str_json(p.homepage)), "conflict"@);
    lemma_member_opt(p.homepage is Some, "homepage"@, opt_str_json(p.homepage), "conflict"@);
    lemma_member_append(package_through_homepage(p), opt_member(p.keywords.len() > 0, "keywords"@, strs_json(p.keywords)), "conflict"@);
    lemma_member_opt(p.keywords.len() > 0, "keywords"@, strs_json(p.keywords), "conflict"@);
    lemma_member_append(package_through_keywords(p), opt_member(p.time is Some, "time"@, opt_str_json(p.time)), "conflict"@);
    lemma_member_opt(p.time is Some, "time"@, opt_str_json(p.time), "conflict"@);
    lemma_member_append(package_through_time(p), opt_member(p.notification_url is Some, "notification_url"@, opt_str_json(p.notification_url)), "conflict"@);
    lemma_member_opt(p.notification_url is Some, "notification_url"@, opt_str_json(p.notification_url), "conflict"@);
}

proof fn lemma_package_member_replace(p: LockedPackageView)
    ensures
        member(package_through_notification_url(p), "replace"@) === if p.replace.len() > 0 { Some(str_map_json(p.replace)) } else { None::<JsonView> },
{
    lemma_package_keys();
    reveal(package_through_name);
    reveal(package_through_version);
    reveal(package_through_source);
    reveal(package_through_dist);
    reveal(package_through_require);
    reveal(package_through_require_dev);
    reveal(package_through_conflict);
    reveal(package_through_replace);
    reveal(package_through_provide);
    reveal(package_through_suggest);
    reveal(package_through_type);
    reveal(package_through_autoload);
    reveal(package_through_autoload_dev);
    reveal(package_through_license);
    reveal(package_through_authors);
    reveal(package_through_description);
    reveal(package_through_homepage);
    reveal(package_through_keywords);
    reveal(package_through_time);
    reveal(package_through_notification_url);
    lemma_member_single("name"@, JsonView::Str(p.name), "replace"@);
    lemma_member_append(package_through_name(p), seq![("version"@, JsonView::Str(p.version))], "replace"@);
    lemma_member_single("version"@, JsonView::Str(p.version), "replace"@);
    lemma_member_append(package_through_version(p), opt_member(!(p.source is Null), "source"@, p.source), "replace"@);
    lemma_member_opt(!(p.source is Null), "source"@, p.source, "replace"@);
    lemma_member_append(package_through_source(p), seq![("dist"@, dist_json(p.dist))], "replace"@);
    lemma_member_single("dist"@, dist_json(p.dist), "replace"@);
    lemma_member_append(package_through_dist(p), opt_member(p.require.len() > 0, "require"@, str_map_json(p.require)), "replace"@);
    lemma_member_opt(p.require.len() > 0, "require"@, str_map_json(p.require), "replace"@);
    lemma_member_append(package_through_require(p), opt_member(p.require_dev.len() > 0, "require-dev"@, str_map_json(p.require_dev)), "replace"@);
    lemma_member_opt(p.require_dev.len() > 0, "require-dev"@, str_map_json(p.require_dev), "replace"@);
    lemma_member_append(package_through_require_dev(p), opt_member(p.conflict.len() > 0, "conflict"@, str_map_json(p.conflict)), "replace"@);
    lemma_member_opt(p.conflict.len() > 0, "conflict"@, str_map_json(p.conflict), "replace"@);
    lemma_member_append(package_through_conflict(p), opt_member(p.replace.len() > 0, "replace"@, str_map_json(p.replace)), "replace"@);
    lemma_member_opt(p.replace.len() > 0, "replace"@, str_map_json(p.replace), "replace"@);
    lemma_member_append(package_through_replace(p), opt_member(p.provide.len() > 0, "provide"@, str_map_json(p.provide)), "replace"@);
    lemma_member_opt(p.provide.len() > 0, "provide"@, str_map_json(p.provide), "replace"@);
    lemma_member_append(package_through_provide(p), opt_member(p.suggest.len() > 0, "suggest"@, str_map_json(p.suggest)), "replace"@);
    lemma_member_opt(p.suggest.len() > 0, "suggest"@, str_map_json(p.suggest), "replace"@);
    lemma_member_append(package_through_suggest(p), opt_member(p.type_field is Some, "type"@, opt_str_json(p.type_field)), "replace"@);
    lemma_member_opt(p.type_field is Some, "type"@, opt_str_json(p.type_field), "replace"@);
    lemma_member_append(package_through_type(p), opt_member(!(p.autoload is Null), "autoload"@, p.autoload), "replace"@);
    lemma_member_opt(!(p.autoload is Null), "autoload"@, p.autoload, "replace"@);
    lemma_member_append(package_through_autoload(p), opt_member(!(p.autoload_dev is Null), "autoload-dev"@, p.autoload_dev), "replace"@);
    lemma_member_opt(!(p.autoload_dev is Null), "autoload-dev"@, p.autoload_dev, "replace"@);
    lemma_member_append(package_through_autoload_dev(p), opt_member(p.license.len() > 0, "license"@, strs_json(p.license)), "replace"@);
    lemma_member_opt(p.license.len() > 0, "license"@, strs_json(p.license), "replace"@);
    lemma_member_append(package_through_license(p), opt_member(p.authors.len() > 0, "authors"@, JsonView::Array(p.authors)), "replace"@);
    lemma_member_opt(p.authors.len() > 0, "authors"@, JsonView::Array(p.authors), "replace"@);
    lemma_member_append(package_through_authors(p), opt_member(p.description is Some, "description"@, opt_str_json(p.description)), "replace"@);
    lemma_member_opt(p.description is Some, "description"@, opt_str_json(p.description), "replace"@);
    lemma_member_append(package_through_description(p), opt_member(p.homepage is Some, "homepage"@, opt_str_json(p.homepage)), "replace"@);
    lemma_member_opt(p.homepage is Some, "homepage"@, opt_str_json(p.homepage), "replace"@);
    lemma_member_append(package_through_homepage(p), opt_member(p.keywords.len() > 0, "keywords"@, strs_json(p.keywords)), "replace"@);
    lemma_member_opt(p.keywords.len() > 0, "keywords"@, strs_json(p.keywords), "replace"@);
    lemma_member_append(package_through_keywords(p), opt_member(p.time is Some, "time"@, opt_str_json(p.time)), "replace"@);
    lemma_member_opt(p.time is Some, "time"@, opt_str_json(p.time), "replace"@);
    lemma_member_append(package_through_time(p), opt_member(p.notification_url is Some, "notification_url"@, opt_str_json(p.notification_url)), "replace"@);
    lemma_member_opt(p.notification_url is Some, "notification_url"@, opt_str_json(p.notification_url), "replace"@);
}

proof fn lemma_package_member_provide(p: LockedPackageView)
    ensures
        member(package_through_notification_url(p), "provide"@) === if p.provide.len() > 0 { Some(str_map_json(p.provide)) } else { None::<JsonView> },
{
    lemma_package_keys();
    reveal(package_through_name);
    reveal(package_through_version);
    reveal(package_through_source);
    reveal(package_through_dist);
    reveal(package_through_require);
    reveal(package_through_require_dev);
    reveal(package_through_conflict);
    reveal(package_through_replace);
    reveal(package_through_provide);
    reveal(package_through_suggest);
    reveal(package_through_type);
    reveal(package_through_autoload);
    reveal(package_through_autoload_dev);
    reveal(package_through_license);
    reveal(package_through_authors);
    reveal(package_through_description);
    reveal(package_through_homepage);
    reveal(package_through_keywords);
    reveal(package_through_time);
    reveal(package_through_notification_url);
    lemma_member_single("name"@, JsonView::Str(p.name), "provide"@);
    lemma_member_append(package_through_name(p), seq![("version"@, JsonView::Str(p.version))], "provide"@);
    lemma_member_single("version"@, JsonView::Str(p.version), "provide"@);
    lemma_member_append(package_through_version(p), opt_member(!(p.source is Null), "source"@, p.source), "provide"@);
    lemma_member_opt(!(p.source is Null), "source"@, p.source, "provide"@);
    lemma_member_append(package_through_source(p), seq![("dist"@, dist_json(p.dist))], "provide"@);
    lemma_member_single("dist"@, dist_json(p.dist), "provide"@);
    lemma_member_append(package_through_dist(p), opt_member(p.require.len() > 0, "require"@, str_map_json(p.require)), "provide"@);
    lemma_member_opt(p.require.len() > 0, "require"@, str_map_json(p.require), "provide"@);
    lemma_member_append(package_through_require(p), opt_member(p.require_dev.len() > 0, "require-dev"@, str_map_json(p.require_dev)), "provide"@);
    lemma_member_opt(p.require_dev.len() > 0, "require-dev"@, str_map_json(p.require_dev), "provide"@);
    lemma_member_append(package_through_require_dev(p), opt_member(p.conflict.len() > 0, "conflict"@, str_map_json(p.conflict)), "provide"@);
    lemma_member_opt(p.conflict.len() > 0, "conflict"@, str_map_json(p.conflict), "provide"@);
    lemma_member_append(package_through_conflict(p), opt_member(p.replace.len() > 0, "replace"@, str_map_json(p.replace)), "provide"@);
    lemma_member_opt(p.replace.len() > 0, "replace"@, str_map_json(p.replace), "provide"@);
    lemma_member_append(package_through_replace(p), opt_member(p.provide.len() > 0, "provide"@, str_map_json(p.provide)), "provide"@);
    lemma_member_opt(p.provide.len() > 0, "provide"@, str_map_json(p.provide), "provide"@);
    lemma_member_append(package_through_provide(p), opt_member(p.suggest.len() > 0, "suggest"@, str_map_json(p.suggest)), "provide"@);
    lemma_member_opt(p.suggest.len() > 0, "suggest"@, str_map_json(p.suggest), "provide"@);
    lemma_member_append(package_through_suggest(p), opt_member(p.type_field is Some, "type"@, opt_str_json(p.type_field)), "provide"@);
    lemma_member_opt(p.type_field is Some, "type"@, opt_str_json(p.type_field), "provide"@);
    lemma_member_append(package_through_type(p), opt_member(!(p.autoload is Null), "autoload"@, p.autoload), "provide"@);
    lemma_member_opt(!(p.autoload is Null), "autoload"@, p.autoload, "provide"@);
    lemma_member_append(package_through_autoload(p), opt_member(!(p.autoload_dev is Null), "autoload-dev"@, p.autoload_dev), "provide"@);
    lemma_member_opt(!(p.autoload_dev is Null), "autoload-dev"@, p.autoload_dev, "provide"@);
    lemma_member_append(package_through_autoload_dev(p), opt_member(p.license.len() > 0, "license"@, strs_json(p.license)), "provide"@);
    lemma_member_opt(p.license.len() > 0, "license"@, strs_json(p.license), "provide"@);
    lemma_member_append(package_through_license(p), opt_member(p.authors.len() > 0, "authors"@, JsonView::Array(p.authors)), "provide"@);
    lemma_member_opt(p.authors.len() > 0, "authors"@, JsonView::Array(p.authors), "provide"@);
    lemma_member_append(package_through_authors(p), opt_member(p.description is Some, "description"@, opt_str_json(p.description)), "provide"@);
    lemma_member_opt(p.description is Some, "description"@, opt_str_json(p.description), "provide"@);
    lemma_member_append(package_through_description(p), opt_member(p.homepage is Some, "homepage"@, opt_str_json(p.homepage)), "provide"@);
    lemma_member_opt(p.homepage is Some, "homepage"@, opt_str_json(p.homepage), "provide"@);
    lemma_member_append(package_through_homepage(p), opt_member(p.keywords.len() > 0, "keywords"@, strs_json(p.keywords)), "provide"@);
    lemma_member_opt(p.keywords.len() > 0, "keywords"@, strs_json(p.keywords), "provide"@);
    lemma_member_append(package_through_keywords(p), opt_member(p.time is Some, "time"@, opt_str_json(p.time)), "provide"@);
    lemma_member_opt(p.time is Some, "time"@, opt_str_json(p.time), "provide"@);
    lemma_member_append(package_through_time(p), opt_member(p.notification_url is Some, "notification_url"@, opt_str_json(p.notification_url)), "provide"@);
    lemma_member_opt(p.notification_url is Some, "notification_url"@, opt_str_json(p.notification_url), "provide"@);
}

proof fn lemma_package_member_suggest(p: LockedPackageView)
    ensures
        member(package_through_notification_url(p), "suggest"@) === if p.suggest.len() > 0 { Some(str_map_json(p.suggest)) } else { None::<JsonView> },
{
    lemma_package_keys();
    reveal(package_through_name);
    reveal(package_through_version);
    reveal(package_through_source);
    reveal(package_through_dist);
    reveal(package_through_require);
    reveal(package_through_require_dev);
    reveal(package_through_conflict);
    reveal(package_through_replace);
    reveal(package_through_provide);
    reveal(package_through_suggest);
    reveal(package_through_type);
    reveal(package_through_autoload);
    reveal(package_through_autoload_dev);
    reveal(package_through_license);
    reveal(package_through_authors);
    reveal(package_through_description);
    reveal(package_through_homepage);
    reveal(package_through_keywords);
    reveal(package_through_time);
    reveal(package_through_notification_url);
    lemma_member_single("name"@, JsonView::Str(p.name), "suggest"@);
    lemma_member_append(package_through_name(p), seq![("version"@, JsonView::Str(p.version))], "suggest"@);
    lemma_member_single("version"@, JsonView::Str(p.version), "suggest"@);
    lemma_member_append(package_through_version(p), opt_member(!(p.source is Null), "source"@, p.source), "suggest"@);
    lemma_member_opt(!(p.source is Null), "source"@, p.source, "suggest"@);
    lemma_member_append(package_through_source(p), seq![("dist"@, dist_json(p.dist))], "suggest"@);
    lemma_member_single("dist"@, dist_json(p.dist), "suggest"@);
    lemma_member_append(package_through_dist(p), opt_member(p.require.len() > 0, "require"@, str_map_json(p.require)), "suggest"@);
    lemma_member_opt(p.require.len() > 0, "require"@, str_map_json(p.require), "suggest"@);
    lemma_member_append(package_through_require(p), opt_member(p.require_dev.len() > 0, "require-dev"@, str_map_json(p.require_dev)), "suggest"@);
    lemma_member_opt(p.require_dev.len() > 0, "require-dev"@, str_map_json(p.require_dev), "suggest"@);
    lemma_member_append(package_through_require_dev(p), opt_member(p.conflict.len() > 0, "conflict"@, str_map_json(p.conflict)), "suggest"@);
    lemma_member_opt(p.conflict.len() > 0, "conflict"@, str_map_json(p.conflict), "suggest"@);
    lemma_member_append(package_through_conflict(p), opt_member(p.replace.len() > 0, "replace"@, str_map_json(p.replace)), "suggest"@);
    lemma_member_opt(p.replace.len() > 0, "replace"@, str_map_json(p.replace), "suggest"@);
    lemma_member_append(package_through_replace(p), opt_member(p.provide.len() > 0, "provide"@, str_map_json(p.provide)), "suggest"@);
    lemma_member_opt(p.provide.len() > 0, "provide"@, str_map_json(p.provide), "suggest"@);
    lemma_member_append(package_through_provide(p), opt_member(p.suggest.len() > 0, "suggest"@, str_map_json(p.suggest)), "suggest"@);
    lemma_member_opt(p.suggest.len() > 0, "suggest"@, str_map_json(p.suggest), "suggest"@);
    lemma_member_append(package_through_suggest(p), opt_member(p.type_field is Some, "type"@, opt_str_json(p.type_field)), "suggest"@);
    lemma_member_opt(p.type_field is Some, "type"@, opt_str_json(p.type_field), "suggest"@);
    lemma_member_append(package_through_type(p), opt_member(!(p.autoload is Null), "autoload"@, p.autoload), "suggest"@);
    lemma_member_opt(!(p.autoload is Null), "autoload"@, p.autoload, "suggest"@);
    lemma_member_append(package_through_autoload(p), opt_member(!(p.autoload_dev is Null), "autoload-dev"@, p.autoload_dev), "suggest"@);
    lemma_member_opt(!(p.autoload_dev is Null), "autoload-dev"@, p.autoload_dev, "suggest"@);
    lemma_member_append(package_through_autoload_dev(p), opt_member(p.license.len() > 0, "license"@, strs_json(p.license)), "suggest"@);
    lemma_member_opt(p.license.len() > 0, "license"@, strs_json(p.license), "suggest"@);
    lemma_member_append(package_through_license(p), opt_member(p.authors.len() > 0, "authors"@, JsonView::Array(p.authors)), "suggest"@);
    lemma_member_opt(p.authors.len() > 0, "authors"@, JsonView::Array(p.authors), "suggest"@);
    lemma_member_append(package_through_authors(p), opt_member(p.description is Some, "description"@, opt_str_json(p.description)), "suggest"@);
    lemma_member_opt(p.description is Some, "description"@, opt_str_json(p.description), "suggest"@);
    lemma_member_append(package_through_description(p), opt_member(p.homepage is Some, "homepage"@, opt_str_json(p.homepage)), "suggest"@);
    lemma_member_opt(p.homepage is Some, "homepage"@, opt_str_json(p.homepage), "suggest"@);
    lemma_member_append(package_through_homepage(p), opt_member(p.keywords.len() > 0, "keywords"@, strs_json(p.keywords)), "suggest"@);
    lemma_member_opt(p.keywords.len() > 0, "keywords"@, strs_json(p.keywords), "suggest"@);
    lemma_member_append(package_through_keywords(p), opt_member(p.time is Some, "time"@, opt_str_json(p.time)), "suggest"@);
    lemma_member_opt(p.time is Some, "time"@, opt_str_json(p.time), "suggest"@);
    lemma_member_append(package_through_time(p), opt_member(p.notification_url is Some, "notification_url"@, opt_str_json(p.notification_url)), "suggest"@);
    lemma_member_opt(p.notification_url is Some, "notification_url"@, opt_str_json(p.notification_url), "suggest"@);
}

proof fn lemma_package_member_type(p: LockedPackageView)
    ensures
        member(package_through_notification_url(p), "type"@) === if p.type_field is Some { Some(opt_str_json(p.type_field)) } else { None::<JsonView> },
{
    lemma_package_keys();
    reveal(package_through_name);
    reveal(package_through_version);
    reveal(package_through_source);
    reveal(package_through_dist);
    reveal(package_through_require);
    reveal(package_through_require_dev);
    reveal(package_through_conflict);
    reveal(package_through_replace);
    reveal(package_through_provide);
    reveal(package_through_suggest);
    reveal(package_through_type);
    reveal(package_through_autoload);
    reveal(package_through_autoload_dev);
    reveal(package_through_license);
    reveal(package_through_authors);
    reveal(package_through_description);
    reveal(package_through_homepage);
    reveal(package_through_keywords);
    reveal(package_through_time);
    reveal(package_through_notification_url);
    lemma_member_single("name"@, JsonView::Str(p.name), "type"@);
    lemma_member_append(package_through_name(p), seq![("version"@, JsonView::Str(p.version))], "type"@);
    lemma_member_single("version"@, JsonView::Str(p.version), "type"@);
    lemma_member_append(package_through_version(p), opt_member(!(p.source is Null), "source"@, p.source), "type"@);
    lemma_member_opt(!(p.source is Null), "source"@, p.source, "type"@);
    lemma_member_append(package_through_source(p), seq![("dist"@, dist_json(p.dist))], "type"@);
    lemma_member_single("dist"@, dist_json(p.dist), "type"@);
    lemma_member_append(package_through_dist(p), opt_member(p.require.len() > 0, "require"@, str_map_json(p.require)), "type"@);
    lemma_member_opt(p.require.len() > 0, "require"@, str_map_json(p.require), "type"@);
    lemma_member_append(package_through_require(p), opt_member(p.require_dev.len() > 0, "require-dev"@, str_map_json(p.require_dev)), "type"@);
    lemma_member_opt(p.require_dev.len() > 0, "require-dev"@, str_map_json(p.require_dev), "type"@);
    lemma_member_append(package_through_require_dev(p), opt_member(p.conflict.len() > 0, "conflict"@, str_map_json(p.conflict)), "type"@);
    lemma_member_opt(p.conflict.len() > 0, "conflict"@, str_map_json(p.conflict), "type"@);
    lemma_member_append(package_through_conflict(p), opt_member(p.replace.len() > 0, "replace"@, str_map_json(p.replace)), "type"@);
    lemma_member_opt(p.replace.len() > 0, "replace"@, str_map_json(p.replace), "type"@);
    lemma_member_append(package_through_replace(p), opt_member(p.provide.len() > 0, "provide"@, str_map_json(p.provide)), "type"@);
    lemma_member_opt(p.provide.len() > 0, "provide"@, str_map_json(p.provide), "type"@);
    lemma_member_append(package_through_provide(p), opt_member(p.suggest.len() > 0, "suggest"@, str_map_json(p.suggest)), "type"@);
    lemma_member_opt(p.suggest.len() > 0, "suggest"@, str_map_json(p.suggest), "type"@);
    lemma_member_append(package_through_suggest(p), opt_member(p.type_field is Some, "type"@, opt_str_json(p.type_field)), "type"@);
    lemma_member_opt(p.type_field is Some, "type"@, opt_str_json(p.type_field), "type"@);
    lemma_member_append(package_through_type(p), opt_member(!(p.autoload is Null), "autoload"@, p.autoload), "type"@);
    lemma_member_opt(!(p.autoload is Null), "autoload"@, p.autoload, "type"@);
    lemma_member_append(package_through_autoload(p), opt_member(!(p.autoload_dev is Null), "autoload-dev"@, p.autoload_dev), "type"@);
    lemma_member_opt(!(p.autoload_dev is Null), "autoload-dev"@, p.autoload_dev, "type"@);
    lemma_member_append(package_through_autoload_dev(p), opt_member(p.license.len() > 0, "license"@, strs_json(p.license)), "type"@);
    lemma_member_opt(p.license.len() > 0, "license"@, strs_json(p.license), "type"@);
    lemma_member_append(package_through_license(p), opt_member(p.authors.len() > 0, "authors"@, JsonView::Array(p.authors)), "type"@);
    lemma_member_opt(p.authors.len() > 0, "authors"@, JsonView::Array(p.authors), "type"@);
    lemma_member_append(package_through_authors(p), opt_member(p.description is Some, "description"@, opt_str_json(p.description)), "type"@);
    lemma_member_opt(p.description is Some, "description"@, opt_str_json(p.description), "type"@);
    lemma_member_append(package_through_description(p), opt_member(p.homepage is Some, "homepage"@, opt_str_json(p.homepage)), "type"@);
    lemma_member_opt(p.homepage is Some, "homepage"@, opt_str_json(p.homepage), "type"@);
    lemma_member_append(package_through_homepage(p), opt_member(p.keywords.len() > 0, "keywords"@, strs_json(p.keywords)), "type"@);
    lemma_member_opt(p.keywords.len() > 0, "keywords"@, strs_json(p.keywords), "type"@);
    lemma_member_append(package_through_keywords(p), opt_member(p.time is Some, "time"@, opt_str_json(p.time)), "type"@);
    lemma_member_opt(p.time is Some, "time"@, opt_str_json(p.time), "type"@);
    lemma_member_append(package_through_time(p), opt_member(p.notification_url is Some, "notification_url"@, opt_str_json(p.notification_url)), "type"@);
    lemma_member_opt(p.notification_url is Some, "notification_url"@, opt_str_json(p.notification_url), "type"@);
}

proof fn lemma_package_member_autoload(p: LockedPackageView)
    ensures
        member(package_through_notification_url(p), "autoload"@) === if !(p.autoload is Null) { Some(p.autoload) } else { None::<JsonView> },
{
    lemma_package_keys();
    reveal(package_through_name);
    reveal(package_through_version);
    reveal(package_through_source);
    reveal(package_through_dist);
    reveal(package_through_require);
    reveal(package_through_require_dev);
    reveal(package_through_conflict);
    reveal(package_through_replace);
    reveal(package_through_provide);
    reveal(package_through_suggest);
    reveal(package_through_type);
    reveal(package_through_autoload);
    reveal(package_through_autoload_dev);
    reveal(package_through_license);
    reveal(package_through_authors);
    reveal(package_through_description);
    reveal(package_through_homepage);
    reveal(package_through_keywords);
    reveal(package_through_time);
    reveal(package_through_notification_url);
    lemma_member_single("name"@, JsonView::Str(p.name), "autoload"@);
    lemma_member_append(package_through_name(p), seq![("version"@, JsonView::Str(p.version))], "autoload"@);
    lemma_member_single("version"@, JsonView::Str(p.version), "autoload"@);
    lemma_member_append(package_through_version(p), opt_member(!(p.source is Null), "source"@, p.source), "autoload"@);
    lemma_member_opt(!(p.source is Null), "source"@, p.source, "autoload"@);
    lemma_member_append(package_through_source(p), seq![("dist"@, dist_json(p.dist))], "autoload"@);
    lemma_member_single("dist"@, dist_json(p.dist), "autoload"@);
    lemma_member_append(package_through_dist(p), opt_member(p.require.len() > 0, "require"@, str_map_json(p.require)), "autoload"@);
    lemma_member_opt(p.require.len() > 0, "require"@, str_map_json(p.require), "autoload"@);
    lemma_member_append(package_through_require(p), opt_member(p.require_dev.len() > 0, "require-dev"@, str_map_json(p.require_dev)), "autoload"@);
    lemma_member_opt(p.require_dev.len() > 0, "require-dev"@, str_map_json(p.require_dev), "autoload"@);
    lemma_member_append(package_through_require_dev(p), opt_member(p.conflict.len() > 0, "conflict"@, str_map_json(p.conflict)), "autoload"@);
    lemma_member_opt(p.conflict.len() > 0, "conflict"@, str_map_json(p.conflict), "autoload"@);
    lemma_member_append(package_through_conflict(p), opt_member(p.replace.len() > 0, "replace"@, str_map_json(p.replace)), "autoload"@);
    lemma_member_opt(p.replace.len() > 0, "replace"@, str_map_json(p.replace), "autoload"@);
    lemma_member_append(package_through_replace(p), opt_member(p.provide.len() > 0, "provide"@, str_map_json(p.provide)), "autoload"@);
    lemma_member_opt(p.provide.len() > 0, "provide"@, str_map_json(p.provide), "autoload"@);
    lemma_member_append(package_through_provide(p), opt_member(p.suggest.len() > 0, "suggest"@, str_map_json(p.suggest)), "autoload"@);
    lemma_member_opt(p.suggest.len() > 0, "suggest"@, str_map_json(p.suggest), "autoload"@);
    lemma_member_append(package_through_suggest(p), opt_member(p.type_field is Some, "type"@, opt_str_json(p.type_field)), "autoload"@);
    lemma_member_opt(p.type_field is Some, "type"@, opt_str_json(p.type_field), "autoload"@);
    lemma_member_append(package_through_type(p), opt_member(!(p.autoload is Null), "autoload"@, p.autoload), "autoload"@);
    lemma_member_opt(!(p.autoload is Null), "autoload"@, p.autoload, "autoload"@);
    lemma_member_append(package_through_autoload(p), opt_member(!(p.autoload_dev is Null), "autoload-dev"@, p.autoload_dev), "autoload"@);
    lemma_member_opt(!(p.autoload_dev is Null), "autoload-dev"@, p.autoload_dev, "autoload"@);
    lemma_member_append(package_through_autoload_dev(p), opt_member(p.license.len() > 0, "license"@, strs_json(p.license)), "autoload"@);
    lemma_member_opt(p.license.len() > 0, "license"@, strs_json(p.license), "autoload"@);
    lemma_member_append(package_through_license(p), opt_member(p.authors.len() > 0, "authors"@, JsonView::Array(p.authors)), "autoload"@);
    lemma_member_opt(p.authors.len() > 0, "authors"@, JsonView::Array(p.authors), "autoload"@);
    lemma_member_append(package_through_authors(p), opt_member(p.description is Some, "description"@, opt_str_json(p.description)), "autoload"@);
    lemma_member_opt(p.description is Some, "description"@, opt_str_json(p.description), "autoload"@);
    lemma_member_append(package_through_description(p), opt_member(p.homepage is Some, "homepage"@, opt_str_json(p.homepage)), "autoload"@);
    lemma_member_opt(p.homepage is Some, "homepage"@, opt_str_json(p.homepage), "autoload"@);
    lemma_member_append(package_through_homepage(p), opt_member(p.keywords.len() > 0, "keywords"@, strs_json(p.keywords)), "autoload"@);
    lemma_member_opt(p.keywords.len() > 0, "keywords"@, strs_json(p.keywords), "autoload"@);
    lemma_member_append(package_through_keywords(p), opt_member(p.time is Some, "time"@, opt_str_json(p.time)), "autoload"@);
    lemma_member_opt(p.time is Some, "time"@, opt_str_json(p.time), "autoload"@);
    lemma_member_append(package_through_time(p), opt_member(p.notification_url is Some, "notification_url"@, opt_str_json(p.notification_url)), "autoload"@);
    lemma_member_opt(p.notification_url is Some, "notification_url"@, opt_str_json(p.notification_url), "autoload"@);
}

proof fn lemma_package_member_autoload_dev(p: LockedPackageView)
    ensures
        member(package_through_notification_url(p), "autoload-dev"@) === if !(p.autoload_dev is Null) { Some(p.autoload_dev) } else { None::<JsonView> },
{
    lemma_package_keys();
    reveal(package_through_name);
    reveal(package_through_version);
    reveal(package_through_source);
    reveal(package_through_dist);
    reveal(package_through_require);
    reveal(package_through_require_dev);
    reveal(package_through_conflict);
    reveal(package_through_replace);
    reveal(package_through_provide);
    reveal(package_through_suggest);
    reveal(package_through_type);
    reveal(package_through_autoload);
    reveal(package_through_autoload_dev);
    reveal(package_through_license);
    reveal(package_through_authors);
    reveal(package_through_description);
    reveal(package_through_homepage);
    reveal(package_through_keywords);
    reveal(package_through_time);
    reveal(package_through_notification_url);
    lemma_member_single("name"@, JsonView::Str(p.name), "autoload-dev"@);
    lemma_member_append(package_through_name(p), seq![("version"@, JsonView::Str(p.version))], "autoload-dev"@);
    lemma_member_single("version"@, JsonView::Str(p.version), "autoload-dev"@);
    lemma_member_append(package_through_version(p), opt_member(!(p.source is Null), "source"@, p.source), "autoload-dev"@);
    lemma_member_opt(!(p.source is Null), "source"@, p.source, "autoload-dev"@);
    lemma_member_append(package_through_source(p), seq![("dist"@, dist_json(p.dist))], "autoload-dev"@);
    lemma_member_single("dist"@, dist_json(p.dist), "autoload-dev"@);
    lemma_member_append(package_through_dist(p), opt_member(p.require.len() > 0, "require"@, str_map_json(p.require)), "autoload-dev"@);
    lemma_member_opt(p.require.len() > 0, "require"@, str_map_json(p.require), "autoload-dev"@);
    lemma_member_append(package_through_require(p), opt_member(p.require_dev.len() > 0, "require-dev"@, str_map_json(p.require_dev)), "autoload-dev"@);
    lemma_member_opt(p.require_dev.len() > 0, "require-dev"@, str_map_json(p.require_dev), "autoload-dev"@);
    lemma_member_append(package_through_require_dev(p), opt_member(p.conflict.len() > 0, "conflict"@, str_map_json(p.conflict)), "autoload-dev"@);
    lemma_member_opt(p.conflict.len() > 0, "conflict"@, str_map_json(p.conflict), "autoload-dev"@);
    lemma_member_append(package_through_conflict(p), opt_member(p.replace.len() > 0, "replace"@, str_map_json(p.replace)), "autoload-dev"@);
    lemma_member_opt(p.replace.len() > 0, "replace"@, str_map_json(p.replace), "autoload-dev"@);
    lemma_member_append(package_through_replace(p), opt_member(p.provide.len() > 0, "provide"@, str_map_json(p.provide)), "autoload-dev"@);
    lemma_member_opt(p.provide.len() > 0, "provide"@, str_map_json(p.provide), "autoload-dev"@);
    lemma_member_append(package_through_provide(p), opt_member(p.suggest.len() > 0, "suggest"@, str_map_json(p.suggest)), "autoload-dev"@);
    lemma_member_opt(p.suggest.len() > 0, "suggest"@, str_map_json(p.suggest), "autoload-dev"@);
    lemma_member_append(package_through_suggest(p), opt_member(p.type_field is Some, "type"@, opt_str_json(p.type_field)), "autoload-dev"@);
    lemma_member_opt(p.type_field is Some, "type"@, opt_str_json(p.type_field), "autoload-dev"@);
    lemma_member_append(package_through_type(p), opt_member(!(p.autoload is Null), "autoload"@, p.autoload), "autoload-dev"@);
    lemma_member_opt(!(p.autoload is Null), "autoload"@, p.autoload, "autoload-dev"@);
    lemma_member_append(package_through_autoload(p), opt_member(!(p.autoload_dev is Null), "autoload-dev"@, p.autoload_dev), "autoload-dev"@);
    lemma_member_opt(!(p.autoload_dev is Null), "autoload-dev"@, p.autoload_dev, "autoload-dev"@);
    lemma_member_append(package_through_autoload_dev(p), opt_member(p.license.len() > 0, "license"@, strs_json(p.license)), "autoload-dev"@);
    lemma_member_opt(p.license.len() > 0, "license"@, strs_json(p.license), "autoload-dev"@);
    lemma_member_append(package_through_license(p), opt_member(p.authors.len() > 0, "authors"@, JsonView::Array(p.authors)), "autoload-dev"@);
    lemma_member_opt(p.authors.len() > 0, "authors"@, JsonView::Array(p.authors), "autoload-dev"@);
    lemma_member_append(package_through_authors(p), opt_member(p.description is Some, "description"@, opt_str_json(p.description)), "autoload-dev"@);
    lemma_member_opt(p.description is Some, "description"@, opt_str_json(p.description), "autoload-dev"@);
    lemma_member_append(package_through_description(p), opt_member(p.homepage is Some, "homepage"@, opt_str_json(p.homepage)), "autoload-dev"@);
    lemma_member_opt(p.homepage is Some, "homepage"@, opt_str_json(p.homepage), "autoload-dev"@);
    lemma_member_append(package_through_homepage(p), opt_member(p.keywords.len() > 0, "keywords"@, strs_json(p.keywords)), "autoload-dev"@);
    lemma_member_opt(p.keywords.len() > 0, "keywords"@, strs_json(p.keywords), "autoload-dev"@);
    lemma_member_append(package_through_keywords(p), opt_member(p.time is Some, "time"@, opt_str_json(p.time)), "autoload-dev"@);
    lemma_member_opt(p.time is Some, "time"@, opt_str_json(p.time), "autoload-dev"@);
    lemma_member_append(package_through_time(p), opt_member(p.notification_url is Some, "notification_url"@, opt_str_json(p.notification_url)), "autoload-dev"@);
    lemma_member_opt(p.notification_url is Some, "notification_url"@, opt_str_json(p.notification_url), "autoload-dev"@);
}

proof fn lemma_package_member_license(p: LockedPackageView)
    ensures
        member(package_through_notification_url(p), "license"@) === if p.license.len() > 0 { Some(strs_json(p.license)) } else { None::<JsonView> },
{
    lemma_package_keys();
    reveal(package_through_name);
    reveal(package_through_version);
    reveal(package_through_source);
    reveal(package_through_dist);
    reveal(package_through_require);
    reveal(package_through_require_dev);
    reveal(package_through_conflict);
    reveal(package_through_replace);
    reveal(package_through_provide);
    reveal(package_through_suggest);
    reveal(package_through_type);
    reveal(package_through_autoload);
    reveal(package_through_autoload_dev);
    reveal(package_through_license);
    reveal(package_through_authors);
    reveal(package_through_description);
    reveal(package_through_homepage);
    reveal(package_through_keywords);
    reveal(package_through_time);
    reveal(package_through_notification_url);
    lemma_member_single("name"@, JsonView::Str(p.name), "license"@);
    lemma_member_append(package_through_name(p), seq![("version"@, JsonView::Str(p.version))], "license"@);
    lemma_member_single("version"@, JsonView::Str(p.version), "license"@);
    lemma_member_append(package_through_version(p), opt_member(!(p.source is Null), "source"@, p.source), "license"@);
    lemma_member_opt(!(p.source is Null), "source"@, p.source, "license"@);
    lemma_member_append(package_through_source(p), seq![("dist"@, dist_json(p.dist))], "license"@);
    lemma_member_single("dist"@, dist_json(p.dist), "license"@);
    lemma_member_append(package_through_dist(p), opt_member(p.require.len() > 0, "require"@, str_map_json(p.require)), "license"@);
    lemma_member_opt(p.require.len() > 0, "require"@, str_map_json(p.require), "license"@);
    lemma_member_append(package_through_require(p), opt_member(p.require_dev.len() > 0, "require-dev"@, str_map_json(p.require_dev)), "license"@);
    lemma_member_opt(p.require_dev.len() > 0, "require-dev"@, str_map_json(p.require_dev), "license"@);
    lemma_member_append(package_through_require_dev(p), opt_member(p.conflict.len() > 0, "conflict"@, str_map_json(p.conflict)), "license"@);
    lemma_member_opt(p.conflict.len() > 0, "conflict"@, str_map_json(p.conflict), "license"@);
    lemma_member_append(package_through_conflict(p), opt_member(p.replace.len() > 0, "replace"@, str_map_json(p.replace)), "license"@);
    lemma_member_opt(p.replace.len() > 0, "replace"@, str_map_json(p.replace), "license"@);
    lemma_member_append(package_through_replace(p), opt_member(p.provide.len() > 0, "provide"@, str_map_json(p.provide)), "license"@);
    lemma_member_opt(p.provide.len() > 0, "provide"@, str_map_json(p.provide), "license"@);
    lemma_member_append(package_through_provide(p), opt_member(p.suggest.len() > 0, "suggest"@, str_map_json(p.suggest)), "license"@);
    lemma_member_opt(p.suggest.len() > 0, "suggest"@, str_map_json(p.suggest), "license"@);
    lemma_member_append(package_through_suggest(p), opt_member(p.type_field is Some, "type"@, opt_str_json(p.type_field)), "license"@);
    lemma_member_opt(p.type_field is Some, "type"@, opt_str_json(p.type_field), "license"@);
    lemma_member_append(package_through_type(p), opt_member(!(p.autoload is Null), "autoload"@, p.autoload), "license"@);
    lemma_member_opt(!(p.autoload is Null), "autoload"@, p.autoload, "license"@);
    lemma_member_append(package_through_autoload(p), opt_member(!(p.autoload_dev is Null), "autoload-dev"@, p.autoload_dev), "license"@);
    lemma_member_opt(!(p.autoload_dev is Null), "autoload-dev"@, p.autoload_dev, "license"@);
    lemma_member_append(package_through_autoload_dev(p), opt_member(p.license.len() > 0, "license"@, strs_json(p.license)), "license"@);
    lemma_member_opt(p.license.len() > 0, "license"@, strs_json(p.license), "license"@);
    lemma_member_append(package_through_license(p), opt_member(p.authors.len() > 0, "authors"@, JsonView::Array(p.authors)), "license"@);
    lemma_member_opt(p.authors.len() > 0, "authors"@, JsonView::Array(p.authors), "license"@);
    lemma_member_append(package_through_authors(p), opt_member(p.description is Some, "description"@, opt_str_json(p.description)), "license"@);
    lemma_member_opt(p.description is Some, "description"@, opt_str_json(p.description), "license"@);
    lemma_member_append(package_through_description(p), opt_member(p.homepage is Some, "homepage"@, opt_str_json(p.homepage)), "license"@);
    lemma_member_opt(p.homepage is Some, "homepage"@, opt_str_json(p.homepage), "license"@);
    lemma_member_append(package_through_homepage(p), opt_member(p.keywords.len() > 0, "keywords"@, strs_json(p.keywords)), "license"@);
    lemma_member_opt(p.keywords.len() > 0, "keywords"@, strs_json(p.keywords), "license"@);
    lemma_member_append(package_through_keywords(p), opt_member(p.time is Some, "time"@, opt_str_json(p.time)), "license"@);
    lemma_member_opt(p.time is Some, "time"@, opt_str_json(p.time), "license"@);
    lemma_member_append(package_through_time(p), opt_member(p.notification_url is Some, "notification_url"@, opt_str_json(p.notification_url)), "license"@);
    lemma_member_opt(p.notification_url is Some, "notification_url"@, opt_str_json(p.notification_url), "license"@);
}

proof fn lemma_package_member_authors(p: LockedPackageView)
    ensures
        member(package_through_notification_url(p), "authors"@) === if p.authors.len() > 0 { Some(JsonView::Array(p.authors)) } else { None::<JsonView> },
{
    lemma_package_keys();
    reveal(package_through_name);
    reveal(package_through_version);
    reveal(package_through_source);
    reveal(package_through_dist);
    reveal(package_through_require);
    reveal(package_through_require_dev);
    reveal(package_through_conflict);
    reveal(package_through_replace);
    reveal(package_through_provide);
    reveal(package_through_suggest);
    reveal(package_through_type);
    reveal(package_through_autoload);
    reveal(package_through_autoload_dev);
    reveal(package_through_license);
    reveal(package_through_authors);
    reveal(package_through_description);
    reveal(package_through_homepage);
    reveal(package_through_keywords);
    reveal(package_through_time);
    reveal(package_through_notification_url);
    lemma_member_single("name"@, JsonView::Str(p.name), "authors"@);
    lemma_member_append(package_through_name(p), seq![("version"@, JsonView::Str(p.version))], "authors"@);
    lemma_member_single("version"@, JsonView::Str(p.version), "authors"@);
    lemma_member_append(package_through_version(p), opt_member(!(p.source is Null), "source"@, p.source), "authors"@);
    lemma_member_opt(!(p.source is Null), "source"@, p.source, "authors"@);
    lemma_member_append(package_through_source(p), seq![("dist"@, dist_json(p.dist))], "authors"@);
    lemma_member_single("dist"@, dist_json(p.dist), "authors"@);
    lemma_member_append(package_through_dist(p), opt_member(p.require.len() > 0, "require"@, str_map_json(p.require)), "authors"@);
    lemma_member_opt(p.require.len() > 0, "require"@, str_map_json(p.require), "authors"@);
    lemma_member_append(package_through_require(p), opt_member(p.require_dev.len() > 0, "require-dev"@, str_map_json(p.require_dev)), "authors"@);
    lemma_member_opt(p.require_dev.len() > 0, "require-dev"@, str_map_json(p.require_dev), "authors"@);
    lemma_member_append(package_through_require_dev(p), opt_member(p.conflict.len() > 0, "conflict"@, str_map_json(p.conflict)), "authors"@);
    lemma_member_opt(p.conflict.len() > 0, "conflict"@, str_map_json(p.conflict), "authors"@);
    lemma_member_append(package_through_conflict(p), opt_member(p.replace.len() > 0, "replace"@, str_map_json(p.replace)), "authors"@);
    lemma_member_opt(p.replace.len() > 0, "replace"@, str_map_json(p.replace), "authors"@);
    lemma_member_append(package_through_replace(p), opt_member(p.provide.len() > 0, "provide"@, str_map_json(p.provide)), "authors"@);
    lemma_member_opt(p.provide.len() > 0, "provide"@, str_map_json(p.provide), "authors"@);
    lemma_member_append(package_through_provide(p), opt_member(p.suggest.len() > 0, "suggest"@, str_map_json(p.suggest)), "authors"@);
    lemma_member_opt(p.suggest.len() > 0, "suggest"@, str_map_json(p.suggest), "authors"@);
    lemma_member_append(package_through_suggest(p), opt_member(p.type_field is Some, "type"@, opt_str_json(p.type_field)), "authors"@);
    lemma_member_opt(p.type_field is Some, "type"@, opt_str_json(p.type_field), "authors"@);
    lemma_member_append(package_through_type(p), opt_member(!(p.autoload is Null), "autoload"@, p.autoload), "authors"@);
    lemma_member_opt(!(p.autoload is Null), "autoload"@, p.autoload, "authors"@);
    lemma_member_append(package_through_autoload(p), opt_member(!(p.autoload_dev is Null), "autoload-dev"@, p.autoload_dev), "authors"@);
    lemma_member_opt(!(p.autoload_dev is Null), "autoload-dev"@, p.autoload_dev, "authors"@);
    lemma_member_append(package_through_autoload_dev(p), opt_member(p.license.len() > 0, "license"@, strs_json(p.license)), "authors"@);
    lemma_member_opt(p.license.len() > 0, "license"@, strs_json(p.license), "authors"@);
    lemma_member_append(package_through_license(p), opt_member(p.authors.len() > 0, "authors"@, JsonView::Array(p.authors)), "authors"@);
    lemma_member_opt(p.authors.len() > 0, "authors"@, JsonView::Array(p.authors), "authors"@);
    lemma_member_append(package_through_authors(p), opt_member(p.description is Some, "description"@, opt_str_json(p.description)), "authors"@);
    lemma_member_opt(p.description is Some, "description"@, opt_str_json(p.description), "authors"@);
    lemma_member_append(package_through_description(p), opt_member(p.homepage is Some, "homepage"@, opt_str_json(p.homepage)), "authors"@);
    lemma_member_opt(p.homepage is Some, "homepage"@, opt_str_json(p.homepage), "authors"@);
    lemma_member_append(package_through_homepage(p), opt_member(p.keywords.len() > 0, "keywords"@, strs_json(p.keywords)), "authors"@);
    lemma_member_opt(p.keywords.len() > 0, "keywords"@, strs_json(p.keywords), "authors"@);
    lemma_member_append(package_through_keywords(p), opt_member(p.time is Some, "time"@, opt_str_json(p.time)), "authors"@);
    lemma_member_opt(p.time is Some, "time"@, opt_str_json(p.time), "authors"@);
    lemma_member_append(package_through_time(p), opt_member(p.notification_url is Some, "notification_url"@, opt_str_json(p.notification_url)), "authors"@);
    lemma_member_opt(p.notification_url is Some, "notification_url"@, opt_str_json(p.notification_url), "authors"@);
}

proof fn lemma_package_member_description(p: LockedPackageView)
    ensures
        member(package_through_notification_url(p), "description"@) === if p.description is Some { Some(opt_str_json(p.description)) } else { None::<JsonView> },
{
    lemma_package_keys();
    reveal(package_through_name);
    reveal(package_through_version);
    reveal(package_through_source);
    reveal(package_through_dist);
    reveal(package_through_require);
    reveal(package_through_require_dev);
    reveal(package_through_conflict);
    reveal(package_through_replace);
    reveal(package_through_provide);
    reveal(package_through_suggest);
    reveal(package_through_type);
    reveal(package_through_autoload);
    reveal(package_through_autoload_dev);
    reveal(package_through_license);
    reveal(package_through_authors);
    reveal(package_through_description);
    reveal(package_through_homepage);
    reveal(package_through_keywords);
    reveal(package_through_time);
    reveal(package_through_notification_url);
    lemma_member_single("name"@, JsonView::Str(p.name), "description"@);
    lemma_member_append(package_through_name(p), seq![("version"@, JsonView::Str(p.version))], "description"@);
    lemma_member_single("version"@, JsonView::Str(p.version), "description"@);
    lemma_member_append(package_through_version(p), opt_member(!(p.source is Null), "source"@, p.source), "description"@);
    lemma_member_opt(!(p.source is Null), "source"@, p.source, "description"@);
    lemma_member_append(package_through_source(p), seq![("dist"@, dist_json(p.dist))], "description"@);
    lemma_member_single("dist"@, dist_json(p.dist), "description"@);
    lemma_member_append(package_through_dist(p), opt_member(p.require.len() > 0, "require"@, str_map_json(p.require)), "description"@);
    lemma_member_opt(p.require.len() > 0, "require"@, str_map_json(p.require), "description"@);
    lemma_member_append(package_through_require(p), opt_member(p.require_dev.len() > 0, "require-dev"@, str_map_json(p.require_dev)), "description"@);
    lemma_member_opt(p.require_dev.len() > 0, "require-dev"@, str_map_json(p.require_dev), "description"@);
    lemma_member_append(package_through_require_dev(p), opt_member(p.conflict.len() > 0, "conflict"@, str_map_json(p.conflict)), "description"@);
    lemma_member_opt(p.conflict.len() > 0, "conflict"@, str_map_json(p.conflict), "description"@);
    lemma_member_append(package_through_conflict(p), opt_member(p.replace.len() > 0, "replace"@, str_map_json(p.replace)), "description"@);
    lemma_member_opt(p.replace.len() > 0, "replace"@, str_map_json(p.replace), "description"@);
    lemma_member_append(package_through_replace(p), opt_member(p.provide.len() > 0, "provide"@, str_map_json(p.provide)), "description"@);
    lemma_member_opt(p.provide.len() > 0, "provide"@, str_map_json(p.provide), "description"@);
    lemma_member_append(package_through_provide(p), opt_member(p.suggest.len() > 0, "suggest"@, str_map_json(p.suggest)), "description"@);
    lemma_member_opt(p.suggest.len() > 0, "suggest"@, str_map_json(p.suggest), "description"@);
    lemma_member_append(package_through_suggest(p), opt_member(p.type_field is Some, "type"@, opt_str_json(p.type_field)), "description"@);
    lemma_member_opt(p.type_field is Some, "type"@, opt_str_json(p.type_field), "description"@);
    lemma_member_append(package_through_type(p), opt_member(!(p.autoload is Null), "autoload"@, p.autoload), "description"@);
    lemma_member_opt(!(p.autoload is Null), "autoload"@, p.autoload, "description"@);
    lemma_member_append(package_through_autoload(p), opt_member(!(p.autoload_dev is Null), "autoload-dev"@, p.autoload_dev), "description"@);
    lemma_member_opt(!(p.autoload_dev is Null), "autoload-dev"@, p.autoload_dev, "description"@);
    lemma_member_append(package_through_autoload_dev(p), opt_member(p.license.len() > 0, "license"@, strs_json(p.license)), "description"@);
    lemma_member_opt(p.license.len() > 0, "license"@, strs_json(p.license), "description"@);
    lemma_member_append(package_through_license(p), opt_member(p.authors.len() > 0, "authors"@, JsonView::Array(p.authors)), "description"@);
    lemma_member_opt(p.authors.len() > 0, "authors"@, JsonView::Array(p.authors), "description"@);
    lemma_member_append(package_through_authors(p), opt_member(p.description is Some, "description"@, opt_str_json(p.description)), "description"@);
    lemma_member_opt(p.description is Some, "description"@, opt_str_json(p.description), "description"@);
    lemma_member_append(package_through_description(p), opt_member(p.homepage is Some, "homepage"@, opt_str_json(p.homepage)), "description"@);
    lemma_member_opt(p.homepage is Some, "homepage"@, opt_str_json(p.homepage), "description"@);
    lemma_member_append(package_through_homepage(p), opt_member(p.keywords.len() > 0, "keywords"@, strs_json(p.keywords)), "description"@);
    lemma_member_opt(p.keywords.len() > 0, "keywords"@, strs_json(p.keywords), "description"@);
    lemma_member_append(package_through_keywords(p), opt_member(p.time is Some, "time"@, opt_str_json(p.time)), "description"@);
    lemma_member_opt(p.time is Some, "time"@, opt_str_json(p.time), "description"@);
    lemma_member_append(package_through_time(p), opt_member(p.notification_url is Some, "notification_url"@, opt_str_json(p.notification_url)), "description"@);
    lemma_member_opt(p.notification_url is Some, "notification_url"@, opt_str_json(p.notification_url), "description"@);
}

proof fn lemma_package_member_homepage(p: LockedPackageView)
    ensures
        member(package_through_notification_url(p), "homepage"@) === if p.homepage is Some { Some(opt_str_json(p.homepage)) } else { None::<JsonView> },
{
    lemma_package_keys();
    reveal(package_through_name);
    reveal(package_through_version);
    reveal(package_through_source);
    reveal(package_through_dist);
    reveal(package_through_require);
    reveal(package_through_require_dev);
    reveal(package_through_conflict);
    reveal(package_through_replace);
    reveal(package_through_provide);
    reveal(package_through_suggest);
    reveal(package_through_type);
    reveal(package_through_autoload);
    reveal(package_through_autoload_dev);
    reveal(package_through_license);
    reveal(package_through_authors);
    reveal(package_through_description);
    reveal(package_through_homepage);
    reveal(package_through_keywords);
    reveal(package_through_time);
    reveal(package_through_notification_url);
    lemma_member_single("name"@, JsonView::Str(p.name), "homepage"@);
    lemma_member_append(package_through_name(p), seq![("version"@, JsonView::Str(p.version))], "homepage"@);
    lemma_member_single("version"@, JsonView::Str(p.version), "homepage"@);
    lemma_member_append(package_through_version(p), opt_member(!(p.source is Null), "source"@, p.source), "homepage"@);
    lemma_member_opt(!(p.source is Null), "source"@, p.source, "homepage"@);
    lemma_member_append(package_through_source(p), seq![("dist"@, dist_json(p.dist))], "homepage"@);
    lemma_member_single("dist"@, dist_json(p.dist), "homepage"@);
    lemma_member_append(package_through_dist(p), opt_member(p.require.len() > 0, "require"@, str_map_json(p.require)), "homepage"@);
    lemma_member_opt(p.require.len() > 0, "require"@, str_map_json(p.require), "homepage"@);
    lemma_member_append(package_through_require(p), opt_member(p.require_dev.len() > 0, "require-dev"@, str_map_json(p.require_dev)), "homepage"@);
    lemma_member_opt(p.require_dev.len() > 0, "require-dev"@, str_map_json(p.require_dev), "homepage"@);
    lemma_member_append(package_through_require_dev(p), opt_member(p.conflict.len() > 0, "conflict"@, str_map_json(p.conflict)), "homepage"@);
    lemma_member_opt(p.conflict.len() > 0, "conflict"@, str_map_json(p.conflict), "homepage"@);
    lemma_member_append(package_through_conflict(p), opt_member(p.replace.len() > 0, "replace"@, str_map_json(p.replace)), "homepage"@);
    lemma_member_opt(p.replace.len() > 0, "replace"@, str_map_json(p.replace), "homepage"@);
    lemma_member_append(package_through_replace(p), opt_member(p.provide.len() > 0, "provide"@, str_map_json(p.provide)), "homepage"@);
    lemma_member_opt(p.provide.len() > 0, "provide"@, str_map_json(p.provide), "homepage"@);
    lemma_member_append(package_through_provide(p), opt_member(p.suggest.len() > 0, "suggest"@, str_map_json(p.suggest)), "homepage"@);
    lemma_member_opt(p.suggest.len() > 0, "suggest"@, str_map_json(p.suggest), "homepage"@);
    lemma_member_append(package_through_suggest(p), opt_member(p.type_field is Some, "type"@, opt_str_json(p.type_field)), "homepage"@);
    lemma_member_opt(p.type_field is Some, "type"@, opt_str_json(p.type_field), "homepage"@);
    lemma_member_append(package_through_type(p), opt_member(!(p.autoload is Null), "autoload"@, p.autoload), "homepage"@);
    lemma_member_opt(!(p.autoload is Null), "autoload"@, p.autoload, "homepage"@);
    lemma_member_append(package_through_autoload(p), opt_member(!(p.autoload_dev is Null), "autoload-dev"@, p.autoload_dev), "homepage"@);
    lemma_member_opt(!(p.autoload_dev is Null), "autoload-dev"@, p.autoload_dev, "homepage"@);
    lemma_member_append(package_through_autoload_dev(p), opt_member(p.license.len() > 0, "license"@, strs_json(p.license)), "homepage"@);
    lemma_member_opt(p.license.len() > 0, "license"@, strs_json(p.license), "homepage"@);
    lemma_member_append(package_through_license(p), opt_member(p.authors.len() > 0, "authors"@, JsonView::Array(p.authors)), "homepage"@);
    lemma_member_opt(p.authors.len() > 0, "authors"@, JsonView::Array(p.authors), "homepage"@);
    lemma_member_append(package_through_authors(p), opt_member(p.description is Some, "description"@, opt_str_json(p.description)), "homepage"@);
    lemma_member_opt(p.description is Some, "description"@, opt_str_json(p.description), "homepage"@);
    lemma_member_append(package_through_description(p), opt_member(p.homepage is Some, "homepage"@, opt_str_json(p.homepage)), "homepage"@);
    lemma_member_opt(p.homepage is Some, "homepage"@, opt_str_json(p.homepage), "homepage"@);
    lemma_member_append(package_through_homepage(p), opt_member(p.keywords.len() > 0, "keywords"@, strs_json(p.keywords)), "homepage"@);
    lemma_member_opt(p.keywords.len() > 0, "keywords"@, strs_json(p.keywords), "homepage"@);
    lemma_member_append(package_through_keywords(p), opt_member(p.time is Some, "time"@, opt_str_json(p.time)), "homepage"@);
    lemma_member_opt(p.time is Some, "time"@, opt_str_json(p.time), "homepage"@);
    lemma_member_append(package_through_time(p), opt_member(p.notification_url is Some, "notification_url"@, opt_str_json(p.notification_url)), "homepage"@);
    lemma_member_opt(p.notification_url is Some, "notification_url"@, opt_str_json(p.notification_url), "homepage"@);
}

proof fn lemma_package_member_keywords(p: LockedPackageView)
    ensures
        member(package_through_notification_url(p), "keywords"@) === if p.keywords.len() > 0 { Some(strs_json(p.keywords)) } else { None::<JsonView> },
{
    lemma_package_keys();
    reveal(package_through_name);
    reveal(package_through_version);
    reveal(package_through_source);
    reveal(package_through_dist);
    reveal(package_through_require);
    reveal(package_through_require_dev);
    reveal(package_through_conflict);
    reveal(package_through_replace);
    reveal(package_through_provide);
    reveal(package_through_suggest);
    reveal(package_through_type);
    reveal(package_through_autoload);
    reveal(package_through_autoload_dev);
    reveal(package_through_license);
    reveal(package_through_authors);
    reveal(package_through_description);
    reveal(package_through_homepage);
    reveal(package_through_keywords);
    reveal(package_through_time);
    reveal(package_through_notification_url);
    lemma_member_single("name"@, JsonView::Str(p.name), "keywords"@);
    lemma_member_append(package_through_name(p), seq![("version"@, JsonView::Str(p.version))], "keywords"@);
    lemma_member_single("version"@, JsonView::Str(p.version), "keywords"@);
    lemma_member_append(package_through_version(p), opt_member(!(p.source is Null), "source"@, p.source), "keywords"@);
    lemma_member_opt(!(p.source is Null), "source"@, p.source, "keywords"@);
    lemma_member_append(package_through_source(p), seq![("dist"@, dist_json(p.dist))], "keywords"@);
    lemma_member_single("dist"@, dist_json(p.dist), "keywords"@);
    lemma_member_append(package_through_dist(p), opt_member(p.require.len() > 0, "require"@, str_map_json(p.require)), "keywords"@);
    lemma_member_opt(p.require.len() > 0, "require"@, str_map_json(p.require), "keywords"@);
    lemma_member_append(package_through_require(p), opt_member(p.require_dev.len() > 0, "require-dev"@, str_map_json(p.require_dev)), "keywords"@);
    lemma_member_opt(p.require_dev.len() > 0, "require-dev"@, str_map_json(p.require_dev), "keywords"@);
    lemma_member_append(package_through_require_dev(p), opt_member(p.conflict.len() > 0, "conflict"@, str_map_json(p.conflict)), "keywords"@);
    lemma_member_opt(p.conflict.len() > 0, "conflict"@, str_map_json(p.conflict), "keywords"@);
    lemma_member_append(package_through_conflict(p), opt_member(p.replace.len() > 0, "replace"@, str_map_json(p.replace)), "keywords"@);
    lemma_member_opt(p.replace.len() > 0, "replace"@, str_map_json(p.replace), "keywords"@);
    lemma_member_append(package_through_replace(p), opt_member(p.provide.len() > 0, "provide"@, str_map_json(p.provide)), "keywords"@);
    lemma_member_opt(p.provide.len() > 0, "provide"@, str_map_json(p.provide), "keywords"@);
    lemma_member_append(package_through_provide(p), opt_member(p.suggest.len() > 0, "suggest"@, str_map_json(p.suggest)), "keywords"@);
    lemma_member_opt(p.suggest.len() > 0, "suggest"@, str_map_json(p.suggest), "keywords"@);
    lemma_member_append(package_through_suggest(p), opt_member(p.type_field is Some, "type"@, opt_str_json(p.type_field)), "keywords"@);
    lemma_member_opt(p.type_field is Some, "type"@, opt_str_json(p.type_field), "keywords"@);
    lemma_member_append(package_through_type(p), opt_member(!(p.autoload is Null), "autoload"@, p.autoload), "keywords"@);
    lemma_member_opt(!(p.autoload is Null), "autoload"@, p.autoload, "keywords"@);
    lemma_member_append(package_through_autoload(p), opt_member(!(p.autoload_dev is Null), "autoload-dev"@, p.autoload_dev), "keywords"@);
    lemma_member_opt(!(p.autoload_dev is Null), "autoload-dev"@, p.autoload_dev, "keywords"@);
    lemma_member_append(package_through_autoload_dev(p), opt_member(p.license.len() > 0, "license"@, strs_json(p.license)), "keywords"@);
    lemma_member_opt(p.license.len() > 0, "license"@, strs_json(p.license), "keywords"@);
    lemma_member_append(package_through_license(p), opt_member(p.authors.len() > 0, "authors"@, JsonView::Array(p.authors)), "keywords"@);
    lemma_member_opt(p.authors.len() > 0, "authors"@, JsonView::Array(p.authors), "keywords"@);
    lemma_member_append(package_through_authors(p), opt_member(p.description is Some, "description"@, opt_str_json(p.description)), "keywords"@);
    lemma_member_opt(p.description is Some, "description"@, opt_str_json(p.description), "keywords"@);
    lemma_member_append(package_through_description(p), opt_member(p.homepage is Some, "homepage"@, opt_str_json(p.homepage)), "keywords"@);
    lemma_member_opt(p.homepage is Some, "homepage"@, opt_str_json(p.homepage), "keywords"@);
    lemma_member_append(package_through_homepage(p), opt_member(p.keywords.len() > 0, "keywords"@, strs_json(p.keywords)), "keywords"@);
    lemma_member_opt(p.keywords.len() > 0, "keywords"@, strs_json(p.keywords), "keywords"@);
    lemma_member_append(package_through_keywords(p), opt_member(p.time is Some, "time"@, opt_str_json(p.time)), "keywords"@);
    lemma_member_opt(p.time is Some, "time"@, opt_str_json(p.time), "keywords"@);
    lemma_member_append(package_through_time(p), opt_member(p.notification_url is Some, "notification_url"@, opt_str_json(p.notification_url)), "keywords"@);
    lemma_member_opt(p.notification_url is Some, "notification_url"@, opt_str_json(p.notification_url), "keywords"@);
}

proof fn lemma_package_member_time(p: LockedPackageView)
    ensures
        member(package_through_notification_url(p), "time"@) === if p.time is Some { Some(opt_str_json(p.time)) } else { None::<JsonView> },
{
    lemma_package_keys();
    reveal(package_through_name);
    reveal(package_through_version);
    reveal(package_through_source);
    reveal(package_through_dist);
    reveal(package_through_require);
    reveal(package_through_require_dev);
    reveal(package_through_conflict);
    reveal(package_through_replace);
    reveal(package_through_provide);
    reveal(package_through_suggest);
    reveal(package_through_type);
    reveal(package_through_autoload);
    reveal(package_through_autoload_dev);
    reveal(package_through_license);
    reveal(package_through_authors);
    reveal(package_through_description);
    reveal(package_through_homepage);
    reveal(package_through_keywords);
    reveal(package_through_time);
    reveal(package_through_notification_url);
    lemma_member_single("name"@, JsonView::Str(p.name), "time"@);
    lemma_member_append(package_through_name(p), seq![("version"@, JsonView::Str(p.version))], "time"@);
    lemma_member_single("version"@, JsonView::Str(p.version), "time"@);
    lemma_member_append(package_through_version(p), opt_member(!(p.source is Null), "source"@, p.source), "time"@);
    lemma_member_opt(!(p.source is Null), "source"@, p.source, "time"@);
    lemma_member_append(package_through_source(p), seq![("dist"@, dist_json(p.dist))], "time"@);
    lemma_member_single("dist"@, dist_json(p.dist), "time"@);
    lemma_member_append(package_through_dist(p), opt_member(p.require.len() > 0, "require"@, str_map_json(p.require)), "time"@);
    lemma_member_opt(p.require.len() > 0, "require"@, str_map_json(p.require), "time"@);
    lemma_member_append(package_through_require(p), opt_member(p.require_dev.len() > 0, "require-dev"@, str_map_json(p.require_dev)), "time"@);
    lemma_member_opt(p.require_dev.len() > 0, "require-dev"@, str_map_json(p.require_dev), "time"@);
    lemma_member_append(package_through_require_dev(p), opt_member(p.conflict.len() > 0, "conflict"@, str_map_json(p.conflict)), "time"@);
    lemma_member_opt(p.conflict.len() > 0, "conflict"@, str_map_json(p.conflict), "time"@);
    lemma_member_append(package_through_conflict(p), opt_member(p.replace.len() > 0, "replace"@, str_map_json(p.replace)), "time"@);
    lemma_member_opt(p.replace.len() > 0, "replace"@, str_map_json(p.replace), "time"@);
    lemma_member_append(package_through_replace(p), opt_member(p.provide.len() > 0, "provide"@, str_map_json(p.provide)), "time"@);
    lemma_member_opt(p.provide.len() > 0, "provide"@, str_map_json(p.provide), "time"@);
    lemma_member_append(package_through_provide(p), opt_member(p.suggest.len() > 0, "suggest"@, str_map_json(p.suggest)), "time"@);
    lemma_member_opt(p.suggest.len() > 0, "suggest"@, str_map_json(p.suggest), "time"@);
    lemma_member_append(package_through_suggest(p), opt_member(p.type_field is Some, "type"@, opt_str_json(p.type_field)), "time"@);
    lemma_member_opt(p.type_field is Some, "type"@, opt_str_json(p.type_field), "time"@);
    lemma_member_append(package_through_type(p), opt_member(!(p.autoload is Null), "autoload"@, p.autoload), "time"@);
    lemma_member_opt(!(p.autoload is Null), "autoload"@, p.autoload, "time"@);
    lemma_member_append(package_through_autoload(p), opt_member(!(p.autoload_dev is Null), "autoload-dev"@, p.autoload_dev), "time"@);
    lemma_member_opt(!(p.autoload_dev is Null), "autoload-dev"@, p.autoload_dev, "time"@);
    lemma_member_append(package_through_autoload_dev(p), opt_member(p.license.len() > 0, "license"@, strs_json(p.license)), "time"@);
    lemma_member_opt(p.license.len() > 0, "license"@, strs_json(p.license), "time"@);
    lemma_member_append(package_through_license(p), opt_member(p.authors.len() > 0, "authors"@, JsonView::Array(p.authors)), "time"@);
    lemma_member_opt(p.authors.len() > 0, "authors"@, JsonView::Array(p.authors), "time"@);
    lemma_member_append(package_through_authors(p), opt_member(p.description is Some, "description"@, opt_str_json(p.description)), "time"@);
    lemma_member_opt(p.description is Some, "description"@, opt_str_json(p.description), "time"@);
    lemma_member_append(package_through_description(p), opt_member(p.homepage is Some, "homepage"@, opt_str_json(p.homepage)), "time"@);
    lemma_member_opt(p.homepage is Some, "homepage"@, opt_str_json(p.homepage), "time"@);
    lemma_member_append(package_through_homepage(p), opt_member(p.keywords.len() > 0, "keywords"@, strs_json(p.keywords)), "time"@);
    lemma_member_opt(p.keywords.len() > 0, "keywords"@, strs_json(p.keywords), "time"@);
    lemma_member_append(package_through_keywords(p), opt_member(p.time is Some, "time"@, opt_str_json(p.time)), "time"@);
    lemma_member_opt(p.time is Some, "time"@, opt_str_json(p.time), "time"@);
    lemma_member_append(package_through_time(p), opt_member(p.notification_url is Some, "notification_url"@, opt_str_json(p.notification_url)), "time"@);
    lemma_member_opt(p.notification_url is Some, "notification_url"@, opt_str_json(p.notification_url), "time"@);
}

proof fn lemma_package_member_notification_url(p: LockedPackageView)
    ensures
        member(package_through_notification_url(p), "notification_url"@) === if p.notification_url is Some { Some(opt_str_json(p.notification_url)) } else { None::<JsonView> },
{
    lemma_package_keys();
    reveal(package_through_name);
    reveal(package_through_version);
    reveal(package_through_source);
    reveal(package_through_dist);
    reveal(package_through_require);
    reveal(package_through_require_dev);
    reveal(package_through_conflict);
    reveal(package_through_replace);
    reveal(package_through_provide);
    reveal(package_through_suggest);
    reveal(package_through_type);
    reveal(package_through_autoload);
    reveal(package_through_autoload_dev);
    reveal(package_through_license);
    reveal(package_through_authors);
    reveal(package_through_description);
    reveal(package_through_homepage);
    reveal(package_through_keywords);
    reveal(package_through_time);
    reveal(package_through_notification_url);
    lemma_member_single("name"@, JsonView::Str(p.name), "notification_url"@);
    lemma_member_append(package_through_name(p), seq![("version"@, JsonView::Str(p.version))], "notification_url"@);
    lemma_member_single("version"@, JsonView::Str(p.version), "notification_url"@);
    lemma_member_append(package_through_version(p), opt_member(!(p.source is Null), "source"@, p.source), "notification_url"@);
    lemma_member_opt(!(p.source is Null), "source"@, p.source, "notification_url"@);
    lemma_member_append(package_through_source(p), seq![("dist"@, dist_json(p.dist))], "notification_url"@);
    lemma_member_single("dist"@, dist_json(p.dist), "notification_url"@);
    lemma_member_append(package_through_dist(p), opt_member(p.require.len() > 0, "require"@, str_map_json(p.require)), "notification_url"@);
    lemma_member_opt(p.require.len() > 0, "require"@, str_map_json(p.require), "notification_url"@);
    lemma_member_append(package_through_require(p), opt_member(p.require_dev.len() > 0, "require-dev"@, str_map_json(p.require_dev)), "notification_url"@);
    lemma_member_opt(p.require_dev.len() > 0, "require-dev"@, str_map_json(p.require_dev), "notification_url"@);
    lemma_member_append(package_through_require_dev(p), opt_member(p.conflict.len() > 0, "conflict"@, str_map_json(p.conflict)), "notification_url"@);
    lemma_member_opt(p.conflict.len() > 0, "conflict"@, str_map_json(p.conflict), "notification_url"@);
    lemma_member_append(package_through_conflict(p), opt_member(p.replace.len() > 0, "replace"@, str_map_json(p.replace)), "notification_url"@);
    lemma_member_opt(p.replace.len() > 0, "replace"@, str_map_json(p.replace), "notification_url"@);
    lemma_member_append(package_through_replace(p), opt_member(p.provide.len() > 0, "provide"@, str_map_json(p.provide)), "notification_url"@);
    lemma_member_opt(p.provide.len() > 0, "provide"@, str_map_json(p.provide), "notification_url"@);
    lemma_member_append(package_through_provide(p), opt_member(p.suggest.len() > 0, "suggest"@, str_map_json(p.suggest)), "notification_url"@);
    lemma_member_opt(p.suggest.len() > 0, "suggest"@, str_map_json(p.suggest), "notification_url"@);
    lemma_member_append(package_through_suggest(p), opt_member(p.type_field is Some, "type"@, opt_str_json(p.type_field)), "notification_url"@);
    lemma_member_opt(p.type_field is Some, "type"@, opt_str_json(p.type_field), "notification_url"@);
    lemma_member_append(package_through_type(p), opt_member(!(p.autoload is Null), "autoload"@, p.autoload), "notification_url"@);
    lemma_member_opt(!(p.autoload is Null), "autoload"@, p.autoload, "notification_url"@);
    lemma_member_append(package_through_autoload(p), opt_member(!(p.autoload_dev is Null), "autoload-dev"@, p.autoload_dev), "notification_url"@);
    lemma_member_opt(!(p.autoload_dev is Null), "autoload-dev"@, p.autoload_dev, "notification_url"@);
    lemma_member_append(package_through_autoload_dev(p), opt_member(p.license.len() > 0, "license"@, strs_json(p.license)), "notification_url"@);
    lemma_member_opt(p.license.len() > 0, "license"@, strs_json(p.license), "notification_url"@);
    lemma_member_append(package_through_license(p), opt_member(p.authors.len() > 0, "authors"@, JsonView::Array(p.authors)), "notification_url"@);
    lemma_member_opt(p.authors.len() > 0, "authors"@, JsonView::Array(p.authors), "notification_url"@);
    lemma_member_append(package_through_authors(p), opt_member(p.description is Some, "description"@, opt_str_json(p.description)), "notification_url"@);
    lemma_member_opt(p.description is Some, "description"@, opt_str_json(p.description), "notification_url"@);
    lemma_member_append(package_through_description(p), opt_member(p.homepage is Some, "homepage"@, opt_str_json(p.homepage)), "notification_url"@);
    lemma_member_opt(p.homepage is Some, "homepage"@, opt_str_json(p.homepage), "notification_url"@);
    lemma_member_append(package_through_homepage(p), opt_member(p.keywords.len() > 0, "keywords"@, strs_json(p.keywords)), "notification_url"@);
    lemma_member_opt(p.keywords.len() > 0, "keywords"@, strs_json(p.keywords), "notification_url"@);
    lemma_member_append(package_through_keywords(p), opt_member(p.time is Some, "time"@, opt_str_json(p.time)), "notification_url"@);
    lemma_member_opt(p.time is Some, "time"@, opt_str_json(p.time), "notification_url"@);
    lemma_member_append(package_through_time(p), opt_member(p.notification_url is Some, "notification_url"@, opt_str_json(p.notification_url)), "notification_url"@);
    lemma_member_opt(p.notification_url is Some, "notification_url"@, opt_str_json(p.notification_url), "notification_url"@);
}

proof fn lemma_lock_member_readme(l: ComposerLockView)
    ensures
        member(lock_through_plugin_api_version(l), "_readme"@) === if l.readme is Some { Some(strs_json(l.readme->Some_0)) } else { None::<JsonView> },
{
    lemma_lock_keys();
    reveal(lock_through_readme);
    reveal(lock_through_content_hash);
    reveal(lock_through_packages);
    reveal(lock_through_packages_dev);
    reveal(lock_through_aliases);
    reveal(lock_through_minimum_stability);
    reveal(lock_through_stability_flags);
    reveal(lock_through_prefer_stable);
    reveal(lock_through_prefer_lowest);
    reveal(lock_through_platform);
    reveal(lock_through_platform_dev);
    reveal(lock_through_plugin_api_version);
    lemma_member_opt(l.readme is Some, "_readme"@, strs_json(l.readme->Some_0), "_readme"@);
    lemma_member_append(lock_through_readme(l), opt_member(l.content_hash is Some, "content-hash"@, opt_str_json(l.content_hash)), "_readme"@);
    lemma_member_opt(l.content_hash is Some, "content-hash"@, opt_str_json(l.content_hash), "_readme"@);
    lemma_member_append(lock_through_content_hash(l), seq![("packages"@, packages_json(l.packages))], "_readme"@);
    lemma_member_single("packages"@, packages_json(l.packages), "_readme"@);
    lemma_member_append(lock_through_packages(l), opt_member(l.packages_dev.len() > 0, "packages-dev"@, packages_json(l.packages_dev)), "_readme"@);
    lemma_member_opt(l.packages_dev.len() > 0, "packages-dev"@, packages_json(l.packages_dev), "_readme"@);
    lemma_member_append(lock_through_packages_dev(l), opt_member(l.aliases.len() > 0, "aliases"@, JsonView::Array(l.aliases)), "_readme"@);
    lemma_member_opt(l.aliases.len() > 0, "aliases"@, JsonView::Array(l.aliases), "_readme"@);
    lemma_member_append(lock_through_aliases(l), seq![("minimum-stability"@, JsonView::Str(l.minimum_stability))], "_readme"@);
    lemma_member_single("minimum-stability"@, JsonView::Str(l.minimum_stability), "_readme"@);
    lemma_member_append(lock_through_minimum_stability(l), opt_member(l.stability_flags.len() > 0, "stability-flags"@, flags_json(l.stability_flags)), "_readme"@);
    lemma_member_opt(l.stability_flags.len() > 0, "stability-flags"@, flags_json(l.stability_flags), "_readme"@);
    lemma_member_append(lock_through_stability_flags(l), seq![("prefer-stable"@, JsonView::Bool(l.prefer_stable))], "_readme"@);
    lemma_member_single("prefer-stable"@, JsonView::Bool(l.prefer_stable), "_readme"@);
    lemma_member_append(lock_through_prefer_stable(l), seq![("prefer-lowest"@, JsonView::Bool(l.prefer_lowest))], "_readme"@);
    lemma_member_single("prefer-lowest"@, JsonView::Bool(l.prefer_lowest), "_readme"@);
    lemma_member_append(lock_through_prefer_lowest(l), opt_member(l.platform.len() > 0, "platform"@, str_map_json(l.platform)), "_readme"@);
    lemma_member_opt(l.platform.len() > 0, "platform"@, str_map_json(l.platform), "_readme"@);
    lemma_member_append(lock_through_platform(l), opt_member(l.platform_dev.len() > 0, "platform-dev"@, str_map_json(l.platform_dev)), "_readme"@);
    lemma_member_opt(l.platform_dev.len() > 0, "platform-dev"@, str_map_json(l.platform_dev), "_readme"@);
    lemma_member_append(lock_through_platform_dev(l), opt_member(l.plugin_api_version is Some, "plugin-api-version"@, opt_str_json(l.plugin_api_version)), "_readme"@);
    lemma_member_opt(l.plugin_api_version is Some, "plugin-api-version"@, opt_str_json(l.plugin_api_version), "_readme"@);
}

proof fn lemma_lock_member_content_hash(l: ComposerLockView)
    ensures
        member(lock_through_plugin_api_version(l), "content-hash"@) === if l.content_hash is Some { Some(opt_str_json(l.content_hash)) } else { None::<JsonView> },
{
    lemma_lock_keys();
    reveal(lock_through_readme);
    reveal(lock_through_content_hash);
    reveal(lock_through_packages);
    reveal(lock_through_packages_dev);
    reveal(lock_through_aliases);
    reveal(lock_through_minimum_stability);
    reveal(lock_through_stability_flags);
    reveal(lock_through_prefer_stable);
    reveal(lock_through_prefer_lowest);
    reveal(lock_through_platform);
    reveal(lock_through_platform_dev);
    reveal(lock_through_plugin_api_version);
    lemma_member_opt(l.readme is Some, "_readme"@, strs_json(l.readme->Some_0), "content-hash"@);
    lemma_member_append(lock_through_readme(l), opt_member(l.content_hash is Some, "content-hash"@, opt_str_json(l.content_hash)), "content-hash"@);
    lemma_member_opt(l.content_hash is Some, "content-hash"@, opt_str_json(l.content_hash), "content-hash"@);
    lemma_member_append(lock_through_content_hash(l), seq![("packages"@, packages_json(l.packages))], "content-hash"@);
    lemma_member_single("packages"@, packages_json(l.packages), "content-hash"@);
    lemma_member_append(lock_through_packages(l), opt_member(l.packages_dev.len() > 0, "packages-dev"@, packages_json(l.packages_dev)), "content-hash"@);
    lemma_member_opt(l.packages_dev.len() > 0, "packages-dev"@, packages_json(l.packages_dev), "content-hash"@);
    lemma_member_append(lock_through_packages_dev(l), opt_member(l.aliases.len() > 0, "aliases"@, JsonView::Array(l.aliases)), "content-hash"@);
    lemma_member_opt(l.aliases.len() > 0, "aliases"@, JsonView::Array(l.aliases), "content-hash"@);
    lemma_member_append(lock_through_aliases(l), seq![("minimum-stability"@, JsonView::Str(l.minimum_stability))], "content-hash"@);
    lemma_member_single("minimum-stability"@, JsonView::Str(l.minimum_stability), "content-hash"@);
    lemma_member_append(lock_through_minimum_stability(l), opt_member(l.stability_flags.len() > 0, "stability-flags"@, flags_json(l.stability_flags)), "content-hash"@);
    lemma_member_opt(l.stability_flags.len() > 0, "stability-flags"@, flags_json(l.stability_flags), "content-hash"@);
    lemma_member_append(lock_through_stability_flags(l), seq![("prefer-stable"@, JsonView::Bool(l.prefer_stable))], "content-hash"@);
    lemma_member_single("prefer-stable"@, JsonView::Bool(l.prefer_stable), "content-hash"@);
    lemma_member_append(lock_through_prefer_stable(l), seq![("prefer-lowest"@, JsonView::Bool(l.prefer_lowest))], "content-hash"@);
    lemma_member_single("prefer-lowest"@, JsonView::Bool(l.prefer_lowest), "content-hash"@);
    lemma_member_append(lock_through_prefer_lowest(l), opt_member(l.platform.len() > 0, "platform"@, str_map_json(l.platform)), "content-hash"@);
    lemma_member_opt(l.platform.len() > 0, "platform"@, str_map_json(l.platform), "content-hash"@);
    lemma_member_append(lock_through_platform(l), opt_member(l.platform_dev.len() > 0, "platform-dev"@, str_map_json(l.platform_dev)), "content-hash"@);
    lemma_member_opt(l.platform_dev.len() > 0, "platform-dev"@, str_map_json(l.platform_dev), "content-hash"@);
    lemma_member_append(lock_through_platform_dev(l), opt_member(l.plugin_api_version is Some, "plugin-api-version"@, opt_str_json(l.plugin_api_version)), "content-hash"@);
    lemma_member_opt(l.plugin_api_version is Some, "plugin-api-version"@, opt_str_json(l.plugin_api_version), "content-hash"@);
}

proof fn lemma_lock_member_packages(l: ComposerLockView)
    ensures
        member(lock_through_plugin_api_version(l), "packages"@) === Some(packages_json(l.packages)),
{
    lemma_lock_keys();
    reveal(lock_through_readme);
    reveal(lock_through_content_hash);
    reveal(lock_through_packages);
    reveal(lock_through_packages_dev);
    reveal(lock_through_aliases);
    reveal(lock_through_minimum_stability);
    reveal(lock_through_stability_flags);
    reveal(lock_through_prefer_stable);
    reveal(lock_through_prefer_lowest);
    reveal(lock_through_platform);
    reveal(lock_through_platform_dev);
    reveal(lock_through_plugin_api_version);
    lemma_member_opt(l.readme is Some, "_readme"@, strs_json(l.readme->Some_0), "packages"@);
    lemma_member_append(lock_through_readme(l), opt_member(l.content_hash is Some, "content-hash"@, opt_str_json(l.content_hash)), "packages"@);
    lemma_member_opt(l.content_hash is Some, "content-hash"@, opt_str_json(l.content_hash), "packages"@);
    lemma_member_append(lock_through_content_hash(l), seq![("packages"@, packages_json(l.packages))], "packages"@);
    lemma_member_single("packages"@, packages_json(l.packages), "packages"@);
    lemma_member_append(lock_through_packages(l), opt_member(l.packages_dev.len() > 0, "packages-dev"@, packages_json(l.packages_dev)), "packages"@);
    lemma_member_opt(l.packages_dev.len() > 0, "packages-dev"@, packages_json(l.packages_dev), "packages"@);
    lemma_member_append(lock_through_packages_dev(l), opt_member(l.aliases.len() > 0, "aliases"@, JsonView::Array(l.aliases)), "packages"@);
    lemma_member_opt(l.aliases.len() > 0, "aliases"@, JsonView::Array(l.aliases), "packages"@);
    lemma_member_append(lock_through_aliases(l), seq![("minimum-stability"@, JsonView::Str(l.minimum_stability))], "packages"@);
    lemma_member_single("minimum-stability"@, JsonView::Str(l.minimum_stability), "packages"@);
    lemma_member_append(lock_through_minimum_stability(l), opt_member(l.stability_flags.len() > 0, "stability-flags"@, flags_json(l.stability_flags)), "packages"@);
    lemma_member_opt(l.stability_flags.len() > 0, "stability-flags"@, flags_json(l.stability_flags), "packages"@);
    lemma_member_append(lock_through_stability_flags(l), seq![("prefer-stable"@, JsonView::Bool(l.prefer_stable))], "packages"@);
    lemma_member_single("prefer-stable"@, JsonView::Bool(l.prefer_stable), "packages"@);
    lemma_member_append(lock_through_prefer_stable(l), seq![("prefer-lowest"@, JsonView::Bool(l.prefer_lowest))], "packages"@);
    lemma_member_single("prefer-lowest"@, JsonView::Bool(l.prefer_lowest), "packages"@);
    lemma_member_append(lock_through_prefer_lowest(l), opt_member(l.platform.len() > 0, "platform"@, str_map_json(l.platform)), "packages"@);
    lemma_member_opt(l.platform.len() > 0, "platform"@, str_map_json(l.platform), "packages"@);
    lemma_member_append(lock_through_platform(l), opt_member(l.platform_dev.len() > 0, "platform-dev"@, str_map_json(l.platform_dev)), "packages"@);
    lemma_member_opt(l.platform_dev.len() > 0, "platform-dev"@, str_map_json(l.platform_dev), "packages"@);
    lemma_member_append(lock_through_platform_dev(l), opt_member(l.plugin_api_version is Some, "plugin-api-version"@, opt_str_json(l.plugin_api_version)), "packages"@);
    lemma_member_opt(l.plugin_api_version is Some, "plugin-api-version"@, opt_str_json(l.plugin_api_version), "packages"@);
}

proof fn lemma_lock_member_packages_dev(l: ComposerLockView)
    ensures
        member(lock_through_plugin_api_version(l), "packages-dev"@) === if l.packages_dev.len() > 0 { Some(packages_json(l.packages_dev)) } else { None::<JsonView> },
{
    lemma_lock_keys();
    reveal(lock_through_readme);
    reveal(lock_through_content_hash);
    reveal(lock_through_packages);
    reveal(lock_through_packages_dev);
    reveal(lock_through_aliases);
    reveal(lock_through_minimum_stability);
    reveal(lock_through_stability_flags);
    reveal(lock_through_prefer_stable);
    reveal(lock_through_prefer_lowest);
    reveal(lock_through_platform);
    reveal(lock_through_platform_dev);
    reveal(lock_through_plugin_api_version);
    lemma_member_opt(l.readme is Some, "_readme"@, strs_json(l.readme->Some_0), "packages-dev"@);
    lemma_member_append(lock_through_readme(l), opt_member(l.content_hash is Some, "content-hash"@, opt_str_json(l.content_hash)), "packages-dev"@);
    lemma_member_opt(l.content_hash is Some, "content-hash"@, opt_str_json(l.content_hash), "packages-dev"@);
    lemma_member_append(lock_through_content_hash(l), seq![("packages"@, packages_json(l.packages))], "packages-dev"@);
    lemma_member_single("packages"@, packages_json(l.packages), "packages-dev"@);
    lemma_member_append(lock_through_packages(l), opt_member(l.packages_dev.len() > 0, "packages-dev"@, packages_json(l.packages_dev)), "packages-dev"@);
    lemma_member_opt(l.packages_dev.len() > 0, "packages-dev"@, packages_json(l.packages_dev), "packages-dev"@);
    lemma_member_append(lock_through_packages_dev(l), opt_member(l.aliases.len() > 0, "aliases"@, JsonView::Array(l.aliases)), "packages-dev"@);
    lemma_member_opt(l.aliases.len() > 0, "aliases"@, JsonView::Array(l.aliases), "packages-dev"@);
    lemma_member_append(lock_through_aliases(l), seq![("minimum-stability"@, JsonView::Str(l.minimum_stability))], "packages-dev"@);
    lemma_member_single("minimum-stability"@, JsonView::Str(l.minimum_stability), "packages-dev"@);
    lemma_member_append(lock_through_minimum_stability(l), opt_member(l.stability_flags.len() > 0, "stability-flags"@, flags_json(l.stability_flags)), "packages-dev"@);
    lemma_member_opt(l.stability_flags.len() > 0, "stability-flags"@, flags_json(l.stability_flags), "packages-dev"@);
    lemma_member_append(lock_through_stability_flags(l), seq![("prefer-stable"@, JsonView::Bool(l.prefer_stable))], "packages-dev"@);
    lemma_member_single("prefer-stable"@, JsonView::Bool(l.prefer_stable), "packages-dev"@);
    lemma_member_append(lock_through_prefer_stable(l), seq![("prefer-lowest"@, JsonView::Bool(l.prefer_lowest))], "packages-dev"@);
    lemma_member_single("prefer-lowest"@, JsonView::Bool(l.prefer_lowest), "packages-dev"@);
    lemma_member_append(lock_through_prefer_lowest(l), opt_member(l.platform.len() > 0, "platform"@, str_map_json(l.platform)), "packages-dev"@);
    lemma_member_opt(l.platform.len() > 0, "platform"@, str_map_json(l.platform), "packages-dev"@);
    lemma_member_append(lock_through_platform(l), opt_member(l.platform_dev.len() > 0, "platform-dev"@, str_map_json(l.platform_dev)), "packages-dev"@);
    lemma_member_opt(l.platform_dev.len() > 0, "platform-dev"@, str_map_json(l.platform_dev), "packages-dev"@);
    lemma_member_append(lock_through_platform_dev(l), opt_member(l.plugin_api_version is Some, "plugin-api-version"@, opt_str_json(l.plugin_api_version)), "packages-dev"@);
    lemma_member_opt(l.plugin_api_version is Some, "plugin-api-version"@, opt_str_json(l.plugin_api_version), "packages-dev"@);
}

proof fn lemma_lock_member_aliases(l: ComposerLockView)
    ensures
        member(lock_through_plugin_api_version(l), "aliases"@) === if l.aliases.len() > 0 { Some(JsonView::Array(l.aliases)) } else { None::<JsonView> },
{
    lemma_lock_keys();
    reveal(lock_through_readme);
    reveal(lock_through_content_hash);
    reveal(lock_through_packages);
    reveal(lock_through_packages_dev);
    reveal(lock_through_aliases);
    reveal(lock_through_minimum_stability);
    reveal(lock_through_stability_flags);
    reveal(lock_through_prefer_stable);
    reveal(lock_through_prefer_lowest);
    reveal(lock_through_platform);
    reveal(lock_through_platform_dev);
    reveal(lock_through_plugin_api_version);
    lemma_member_opt(l.readme is Some, "_readme"@, strs_json(l.readme->Some_0), "aliases"@);
    lemma_member_append(lock_through_readme(l), opt_member(l.content_hash is Some, "content-hash"@, opt_str_json(l.content_hash)), "aliases"@);
    lemma_member_opt(l.content_hash is Some, "content-hash"@, opt_str_json(l.content_hash), "aliases"@);
    lemma_member_append(lock_through_content_hash(l), seq![("packages"@, packages_json(l.packages))], "aliases"@);
    lemma_member_single("packages"@, packages_json(l.packages), "aliases"@);
    lemma_member_append(lock_through_packages(l), opt_member(l.packages_dev.len() > 0, "packages-dev"@, packages_json(l.packages_dev)), "aliases"@);
    lemma_member_opt(l.packages_dev.len() > 0, "packages-dev"@, packages_json(l.packages_dev), "aliases"@);
    lemma_member_append(lock_through_packages_dev(l), opt_member(l.aliases.len() > 0, "aliases"@, JsonView::Array(l.aliases)), "aliases"@);
    lemma_member_opt(l.aliases.len() > 0, "aliases"@, JsonView::Array(l.aliases), "aliases"@);
    lemma_member_append(lock_through_aliases(l), seq![("minimum-stability"@, JsonView::Str(l.minimum_stability))], "aliases"@);
    lemma_member_single("minimum-stability"@, JsonView::Str(l.minimum_stability), "aliases"@);
    lemma_member_append(lock_through_minimum_stability(l), opt_member(l.stability_flags.len() > 0, "stability-flags"@, flags_json(l.stability_flags)), "aliases"@);
    lemma_member_opt(l.stability_flags.len() > 0, "stability-flags"@, flags_json(l.stability_flags), "aliases"@);
    lemma_member_append(lock_through_stability_flags(l), seq![("prefer-stable"@, JsonView::Bool(l.prefer_stable))], "aliases"@);
    lemma_member_single("prefer-stable"@, JsonView::Bool(l.prefer_stable), "aliases"@);
    lemma_member_append(lock_through_prefer_stable(l), seq![("prefer-lowest"@, JsonView::Bool(l.prefer_lowest))], "aliases"@);
    lemma_member_single("prefer-lowest"@, JsonView::Bool(l.prefer_lowest), "aliases"@);
    lemma_member_append(lock_through_prefer_lowest(l), opt_member(l.platform.len() > 0, "platform"@, str_map_json(l.platform)), "aliases"@);
    lemma_member_opt(l.platform.len() > 0, "platform"@, str_map_json(l.platform), "aliases"@);
    lemma_member_append(lock_through_platform(l), opt_member(l.platform_dev.len() > 0, "platform-dev"@, str_map_json(l.platform_dev)), "aliases"@);
    lemma_member_opt(l.platform_dev.len() > 0, "platform-dev"@, str_map_json(l.platform_dev), "aliases"@);
    lemma_member_append(lock_through_platform_dev(l), opt_member(l.plugin_api_version is Some, "plugin-api-version"@, opt_str_json(l.plugin_api_version)), "aliases"@);
    lemma_member_opt(l.plugin_api_version is Some, "plugin-api-version"@, opt_str_json(l.plugin_api_version), "aliases"@);
}

proof fn lemma_lock_member_minimum_stability(l: ComposerLockView)
    ensures
        member(lock_through_plugin_api_version(l), "minimum-stability"@) === Some(JsonView::Str(l.minimum_stability)),
{
    lemma_lock_keys();
    reveal(lock_through_readme);
    reveal(lock_through_content_hash);
    reveal(lock_through_packages);
    reveal(lock_through_packages_dev);
    reveal(lock_through_aliases);
    reveal(lock_through_minimum_stability);
    reveal(lock_through_stability_flags);
    reveal(lock_through_prefer_stable);
    reveal(lock_through_prefer_lowest);
    reveal(lock_through_platform);
    reveal(lock_through_platform_dev);
    reveal(lock_through_plugin_api_version);
    lemma_member_opt(l.readme is Some, "_readme"@, strs_json(l.readme->Some_0), "minimum-stability"@);
    lemma_member_append(lock_through_readme(l), opt_member(l.content_hash is Some, "content-hash"@, opt_str_json(l.content_hash)), "minimum-stability"@);
    lemma_member_opt(l.content_hash is Some, "content-hash"@, opt_str_json(l.content_hash), "minimum-stability"@);
    lemma_member_append(lock_through_content_hash(l), seq![("packages"@, packages_json(l.packages))], "minimum-stability"@);
    lemma_member_single("packages"@, packages_json(l.packages), "minimum-stability"@);
    lemma_member_append(lock_through_packages(l), opt_member(l.packages_dev.len() > 0, "packages-dev"@, packages_json(l.packages_dev)), "minimum-stability"@);
    lemma_member_opt(l.packages_dev.len() > 0, "packages-dev"@, packages_json(l.packages_dev), "minimum-stability"@);
    lemma_member_append(lock_through_packages_dev(l), opt_member(l.aliases.len() > 0, "aliases"@, JsonView::Array(l.aliases)), "minimum-stability"@);
    lemma_member_opt(l.aliases.len() > 0, "aliases"@, JsonView::Array(l.aliases), "minimum-stability"@);
    lemma_member_append(lock_through_aliases(l), seq![("minimum-stability"@, JsonView::Str(l.minimum_stability))], "minimum-stability"@);
    lemma_member_single("minimum-stability"@, JsonView::Str(l.minimum_stability), "minimum-stability"@);
    lemma_member_append(lock_through_minimum_stability(l), opt_member(l.stability_flags.len() > 0, "stability-flags"@, flags_json(l.stability_flags)), "minimum-stability"@);
    lemma_member_opt(l.stability_flags.len() > 0, "stability-flags"@, flags_json(l.stability_flags), "minimum-stability"@);
    lemma_member_append(lock_through_stability_flags(l), seq![("prefer-stable"@, JsonView::Bool(l.prefer_stable))], "minimum-stability"@);
    lemma_member_single("prefer-stable"@, JsonView::Bool(l.prefer_stable), "minimum-stability"@);
    lemma_member_append(lock_through_prefer_stable(l), seq![("prefer-lowest"@, JsonView::Bool(l.prefer_lowest))], "minimum-stability"@);
    lemma_member_single("prefer-lowest"@, JsonView::Bool(l.prefer_lowest), "minimum-stability"@);
    lemma_member_append(lock_through_prefer_lowest(l), opt_member(l.platform.len() > 0, "platform"@, str_map_json(l.platform)), "minimum-stability"@);
    lemma_member_opt(l.platform.len() > 0, "platform"@, str_map_json(l.platform), "minimum-stability"@);
    lemma_member_append(lock_through_platform(l), opt_member(l.platform_dev.len() > 0, "platform-dev"@, str_map_json(l.platform_dev)), "minimum-stability"@);
    lemma_member_opt(l.platform_dev.len() > 0, "platform-dev"@, str_map_json(l.platform_dev), "minimum-stability"@);
    lemma_member_append(lock_through_platform_dev(l), opt_member(l.plugin_api_version is Some, "plugin-api-version"@, opt_str_json(l.plugin_api_version)), "minimum-stability"@);
    lemma_member_opt(l.plugin_api_version is Some, "plugin-api-version"@, opt_str_json(l.plugin_api_version), "minimum-stability"@);
}

proof fn lemma_lock_member_stability_flags(l: ComposerLockView)
    ensures
        member(lock_through_plugin_api_version(l), "stability-flags"@) === if l.stability_flags.len() > 0 { Some(flags_json(l.stability_flags)) } else { None::<JsonView> },
{
    lemma_lock_keys();
    reveal(lock_through_readme);
    reveal(lock_through_content_hash);
    reveal(lock_through_packages);
    reveal(lock_through_packages_dev);
    reveal(lock_through_aliases);
    reveal(lock_through_minimum_stability);
    reveal(lock_through_stability_flags);
    reveal(lock_through_prefer_stable);
    reveal(lock_through_prefer_lowest);
    reveal(lock_through_platform);
    reveal(lock_through_platform_dev);
    reveal(lock_through_plugin_api_version);
    lemma_member_opt(l.readme is Some, "_readme"@, strs_json(l.readme->Some_0), "stability-flags"@);
    lemma_member_append(lock_through_readme(l), opt_member(l.content_hash is Some, "content-hash"@, opt_str_json(l.content_hash)), "stability-flags"@);
    lemma_member_opt(l.content_hash is Some, "content-hash"@, opt_str_json(l.content_hash), "stability-flags"@);
    lemma_member_append(lock_through_content_hash(l), seq![("packages"@, packages_json(l.packages))], "stability-flags"@);
    lemma_member_single("packages"@, packages_json(l.packages), "stability-flags"@);
    lemma_member_append(lock_through_packages(l), opt_member(l.packages_dev.len() > 0, "packages-dev"@, packages_json(l.packages_dev)), "stability-flags"@);
    lemma_member_opt(l.packages_dev.len() > 0, "packages-dev"@, packages_json(l.packages_dev), "stability-flags"@);
    lemma_member_append(lock_through_packages_dev(l), opt_member(l.aliases.len() > 0, "aliases"@, JsonView::Array(l.aliases)), "stability-flags"@);
    lemma_member_opt(l.aliases.len() > 0, "aliases"@, JsonView::Array(l.aliases), "stability-flags"@);
    lemma_member_append(lock_through_aliases(l), seq![("minimum-stability"@, JsonView::Str(l.minimum_stability))], "stability-flags"@);
    lemma_member_single("minimum-stability"@, JsonView::Str(l.minimum_stability), "stability-flags"@);
    lemma_member_append(lock_through_minimum_stability(l), opt_member(l.stability_flags.len() > 0, "stability-flags"@, flags_json(l.stability_flags)), "stability-flags"@);
    lemma_member_opt(l.stability_flags.len() > 0, "stability-flags"@, flags_json(l.stability_flags), "stability-flags"@);
    lemma_member_append(lock_through_stability_flags(l), seq![("prefer-stable"@, JsonView::Bool(l.prefer_stable))], "stability-flags"@);
    lemma_member_single("prefer-stable"@, JsonView::Bool(l.prefer_stable), "stability-flags"@);
    lemma_member_append(lock_through_prefer_stable(l), seq![("prefer-lowest"@, JsonView::Bool(l.prefer_lowest))], "stability-flags"@);
    lemma_member_single("prefer-lowest"@, JsonView::Bool(l.prefer_lowest), "stability-flags"@);
    lemma_member_append(lock_through_prefer_lowest(l), opt_member(l.platform.len() > 0, "platform"@, str_map_json(l.platform)), "stability-flags"@);
    lemma_member_opt(l.platform.len() > 0, "platform"@, str_map_json(l.platform), "stability-flags"@);
    lemma_member_append(lock_through_platform(l), opt_member(l.platform_dev.len() > 0, "platform-dev"@, str_map_json(l.platform_dev)), "stability-flags"@);
    lemma_member_opt(l.platform_dev.len() > 0, "platform-dev"@, str_map_json(l.platform_dev), "stability-flags"@);
    lemma_member_append(lock_through_platform_dev(l), opt_member(l.plugin_api_version is Some, "plugin-api-version"@, opt_str_json(l.plugin_api_version)), "stability-flags"@);
    lemma_member_opt(l.plugin_api_version is Some, "plugin-api-version"@, opt_str_json(l.plugin_api_version), "stability-flags"@);
}

proof fn lemma_lock_member_prefer_stable(l: ComposerLockView)
    ensures
        member(lock_through_plugin_api_version(l), "prefer-stable"@) === Some(JsonView::Bool(l.prefer_stable)),
{
    lemma_lock_keys();
    reveal(lock_through_readme);
    reveal(lock_through_content_hash);
    reveal(lock_through_packages);
    reveal(lock_through_packages_dev);
    reveal(lock_through_aliases);
    reveal(lock_through_minimum_stability);
    reveal(lock_through_stability_flags);
    reveal(lock_through_prefer_stable);
    reveal(lock_through_prefer_lowest);
    reveal(lock_through_platform);
    reveal(lock_through_platform_dev);
    reveal(lock_through_plugin_api_version);
    lemma_member_opt(l.readme is Some, "_readme"@, strs_json(l.readme->Some_0), "prefer-stable"@);
    lemma_member_append(lock_through_readme(l), opt_member(l.content_hash is Some, "content-hash"@, opt_str_json(l.content_hash)), "prefer-stable"@);
    lemma_member_opt(l.content_hash is Some, "content-hash"@, opt_str_json(l.content_hash), "prefer-stable"@);
    lemma_member_append(lock_through_content_hash(l), seq![("packages"@, packages_json(l.packages))], "prefer-stable"@);
    lemma_member_single("packages"@, packages_json(l.packages), "prefer-stable"@);
    lemma_member_append(lock_through_packages(l), opt_member(l.packages_dev.len() > 0, "packages-dev"@, packages_json(l.packages_dev)), "prefer-stable"@);
    lemma_member_opt(l.packages_dev.len() > 0, "packages-dev"@, packages_json(l.packages_dev), "prefer-stable"@);
    lemma_member_append(lock_through_packages_dev(l), opt_member(l.aliases.len() > 0, "aliases"@, JsonView::Array(l.aliases)), "prefer-stable"@);
    lemma_member_opt(l.aliases.len() > 0, "aliases"@, JsonView::Array(l.aliases), "prefer-stable"@);
    lemma_member_append(lock_through_aliases(l), seq![("minimum-stability"@, JsonView::Str(l.minimum_stability))], "prefer-stable"@);
    lemma_member_single("minimum-stability"@, JsonView::Str(l.minimum_stability), "prefer-stable"@);
    lemma_member_append(lock_through_minimum_stability(l), opt_member(l.stability_flags.len() > 0, "stability-flags"@, flags_json(l.stability_flags)), "prefer-stable"@);
    lemma_member_opt(l.stability_flags.len() > 0, "stability-flags"@, flags_json(l.stability_flags), "prefer-stable"@);
    lemma_member_append(lock_through_stability_flags(l), seq![("prefer-stable"@, JsonView::Bool(l.prefer_stable))], "prefer-stable"@);
    lemma_member_single("prefer-stable"@, JsonView::Bool(l.prefer_stable), "prefer-stable"@);
    lemma_member_append(lock_through_prefer_stable(l), seq![("prefer-lowest"@, JsonView::Bool(l.prefer_lowest))], "prefer-stable"@);
    lemma_member_single("prefer-lowest"@, JsonView::Bool(l.prefer_lowest), "prefer-stable"@);
    lemma_member_append(lock_through_prefer_lowest(l), opt_member(l.platform.len() > 0, "platform"@, str_map_json(l.platform)), "prefer-stable"@);
    lemma_member_opt(l.platform.len() > 0, "platform"@, str_map_json(l.platform), "prefer-stable"@);
    lemma_member_append(lock_through_platform(l), opt_member(l.platform_dev.len() > 0, "platform-dev"@, str_map_json(l.platform_dev)), "prefer-stable"@);
    lemma_member_opt(l.platform_dev.len() > 0, "platform-dev"@, str_map_json(l.platform_dev), "prefer-stable"@);
    lemma_member_append(lock_through_platform_dev(l), opt_member(l.plugin_api_version is Some, "plugin-api-version"@, opt_str_json(l.plugin_api_version)), "prefer-stable"@);
    lemma_member_opt(l.plugin_api_version is Some, "plugin-api-version"@, opt_str_json(l.plugin_api_version), "prefer-stable"@);
}

proof fn lemma_lock_member_prefer_lowest(l: ComposerLockView)
    ensures
        member(lock_through_plugin_api_version(l), "prefer-lowest"@) === Some(JsonView::Bool(l.prefer_lowest)),
{
    lemma_lock_keys();
    reveal(lock_through_readme);
    reveal(lock_through_content_hash);
    reveal(lock_through_packages);
    reveal(lock_through_packages_dev);
    reveal(lock_through_aliases);
    reveal(lock_through_minimum_stability);
    reveal(lock_through_stability_flags);
    reveal(lock_through_prefer_stable);
    reveal(lock_through_prefer_lowest);
    reveal(lock_through_platform);
    reveal(lock_through_platform_dev);
    reveal(lock_through_plugin_api_version);
    lemma_member_opt(l.readme is Some, "_readme"@, strs_json(l.readme->Some_0), "prefer-lowest"@);
    lemma_member_append(lock_through_readme(l), opt_member(l.content_hash is Some, "content-hash"@, opt_str_json(l.content_hash)), "prefer-lowest"@);
    lemma_member_opt(l.content_hash is Some, "content-hash"@, opt_str_json(l.content_hash), "prefer-lowest"@);
    lemma_member_append(lock_through_content_hash(l), seq![("packages"@, packages_json(l.packages))], "prefer-lowest"@);
    lemma_member_single("packages"@, packages_json(l.packages), "prefer-lowest"@);
    lemma_member_append(lock_through_packages(l), opt_member(l.packages_dev.len() > 0, "packages-dev"@, packages_json(l.packages_dev)), "prefer-lowest"@);
    lemma_member_opt(l.packages_dev.len() > 0, "packages-dev"@, packages_json(l.packages_dev), "prefer-lowest"@);
    lemma_member_append(lock_through_packages_dev(l), opt_member(l.aliases.len() > 0, "aliases"@, JsonView::Array(l.aliases)), "prefer-lowest"@);
    lemma_member_opt(l.aliases.len() > 0, "aliases"@, JsonView::Array(l.aliases), "prefer-lowest"@);
    lemma_member_append(lock_through_aliases(l), seq![("minimum-stability"@, JsonView::Str(l.minimum_stability))], "prefer-lowest"@);
    lemma_member_single("minimum-stability"@, JsonView::Str(l.minimum_stability), "prefer-lowest"@);
    lemma_member_append(lock_through_minimum_stability(l), opt_member(l.stability_flags.len() > 0, "stability-flags"@, flags_json(l.stability_flags)), "prefer-lowest"@);
    lemma_member_opt(l.stability_flags.len() > 0, "stability-flags"@, flags_json(l.stability_flags), "prefer-lowest"@);
    lemma_member_append(lock_through_stability_flags(l), seq![("prefer-stable"@, JsonView::Bool(l.prefer_stable))], "prefer-lowest"@);
    lemma_member_single("prefer-stable"@, JsonView::Bool(l.prefer_stable), "prefer-lowest"@);
    lemma_member_append(lock_through_prefer_stable(l), seq![("prefer-lowest"@, JsonView::Bool(l.prefer_lowest))], "prefer-lowest"@);
    lemma_member_single("prefer-lowest"@, JsonView::Bool(l.prefer_lowest), "prefer-lowest"@);
    lemma_member_append(lock_through_prefer_lowest(l), opt_member(l.platform.len() > 0, "platform"@, str_map_json(l.platform)), "prefer-lowest"@);
    lemma_member_opt(l.platform.len() > 0, "platform"@, str_map_json(l.platform), "prefer-lowest"@);
    lemma_member_append(lock_through_platform(l), opt_member(l.platform_dev.len() > 0, "platform-dev"@, str_map_json(l.platform_dev)), "prefer-lowest"@);
    lemma_member_opt(l.platform_dev.len() > 0, "platform-dev"@, str_map_json(l.platform_dev), "prefer-lowest"@);
    lemma_member_append(lock_through_platform_dev(l), opt_member(l.plugin_api_version is Some, "plugin-api-version"@, opt_str_json(l.plugin_api_version)), "prefer-lowest"@);
    lemma_member_opt(l.plugin_api_version is Some, "plugin-api-version"@, opt_str_json(l.plugin_api_version), "prefer-lowest"@);
}

proof fn lemma_lock_member_platform(l: ComposerLockView)
    ensures
        member(lock_through_plugin_api_version(l), "platform"@) === if l.platform.len() > 0 { Some(str_map_json(l.platform)) } else { None::<JsonView> },
{
    lemma_lock_keys();
    reveal(lock_through_readme);
    reveal(lock_through_content_hash);
    reveal(lock_through_packages);
    reveal(lock_through_packages_dev);
    reveal(lock_through_aliases);
    reveal(lock_through_minimum_stability);
    reveal(lock_through_stability_flags);
    reveal(lock_through_prefer_stable);
    reveal(lock_through_prefer_lowest);
    reveal(lock_through_platform);
    reveal(lock_through_platform_dev);
    reveal(lock_through_plugin_api_version);
    lemma_member_opt(l.readme is Some, "_readme"@, strs_json(l.readme->Some_0), "platform"@);
    lemma_member_append(lock_through_readme(l), opt_member(l.content_hash is Some, "content-hash"@, opt_str_json(l.content_hash)), "platform"@);
    lemma_member_opt(l.content_hash is Some, "content-hash"@, opt_str_json(l.content_hash), "platform"@);
    lemma_member_append(lock_through_content_hash(l), seq![("packages"@, packages_json(l.packages))], "platform"@);
    lemma_member_single("packages"@, packages_json(l.packages), "platform"@);
    lemma_member_append(lock_through_packages(l), opt_member(l.packages_dev.len() > 0, "packages-dev"@, packages_json(l.packages_dev)), "platform"@);
    lemma_member_opt(l.packages_dev.len() > 0, "packages-dev"@, packages_json(l.packages_dev), "platform"@);
    lemma_member_append(lock_through_packages_dev(l), opt_member(l.aliases.len() > 0, "aliases"@, JsonView::Array(l.aliases)), "platform"@);
    lemma_member_opt(l.aliases.len() > 0, "aliases"@, JsonView::Array(l.aliases), "platform"@);
    lemma_member_append(lock_through_aliases(l), seq![("minimum-stability"@, JsonView::Str(l.minimum_stability))], "platform"@);
    lemma_member_single("minimum-stability"@, JsonView::Str(l.minimum_stability), "platform"@);
    lemma_member_append(lock_through_minimum_stability(l), opt_member(l.stability_flags.len() > 0, "stability-flags"@, flags_json(l.stability_flags)), "platform"@);
    lemma_member_opt(l.stability_flags.len() > 0, "stability-flags"@, flags_json(l.stability_flags), "platform"@);
    lemma_member_append(lock_through_stability_flags(l), seq![("prefer-stable"@, JsonView::Bool(l.prefer_stable))], "platform"@);
    lemma_member_single("prefer-stable"@, JsonView::Bool(l.prefer_stable), "platform"@);
    lemma_member_append(lock_through_prefer_stable(l), seq![("prefer-lowest"@, JsonView::Bool(l.prefer_lowest))], "platform"@);
    lemma_member_single("prefer-lowest"@, JsonView::Bool(l.prefer_lowest), "platform"@);
    lemma_member_append(lock_through_prefer_lowest(l), opt_member(l.platform.len() > 0, "platform"@, str_map_json(l.platform)), "platform"@);
    lemma_member_opt(l.platform.len() > 0, "platform"@, str_map_json(l.platform), "platform"@);
    lemma_member_append(lock_through_platform(l), opt_member(l.platform_dev.len() > 0, "platform-dev"@, str_map_json(l.platform_dev)), "platform"@);
    lemma_member_opt(l.platform_dev.len() > 0, "platform-dev"@, str_map_json(l.platform_dev), "platform"@);
    lemma_member_append(lock_through_platform_dev(l), opt_member(l.plugin_api_version is Some, "plugin-api-version"@, opt_str_json(l.plugin_api_version)), "platform"@);
    lemma_member_opt(l.plugin_api_version is Some, "plugin-api-version"@, opt_str_json(l.plugin_api_version), "platform"@);
}

proof fn lemma_lock_member_platform_dev(l: ComposerLockView)
    ensures
        member(lock_through_plugin_api_version(l), "platform-dev"@) === if l.platform_dev.len() > 0 { Some(str_map_json(l.platform_dev)) } else { None::<JsonView> },
{
    lemma_lock_keys();
    reveal(lock_through_readme);
    reveal(lock_through_content_hash);
    reveal(lock_through_packages);
    reveal(lock_through_packages_dev);
    reveal(lock_through_aliases);
    reveal(lock_through_minimum_stability);
    reveal(lock_through_stability_flags);
    reveal(lock_through_prefer_stable);
    reveal(lock_through_prefer_lowest);
    reveal(lock_through_platform);
    reveal(lock_through_platform_dev);
    reveal(lock_through_plugin_api_version);
    lemma_member_opt(l.readme is Some, "_readme"@, strs_json(l.readme->Some_0), "platform-dev"@);
    lemma_member_append(lock_through_readme(l), opt_member(l.content_hash is Some, "content-hash"@, opt_str_json(l.content_hash)), "platform-dev"@);
    lemma_member_opt(l.content_hash is Some, "content-hash"@, opt_str_json(l.content_hash), "platform-dev"@);
    lemma_member_append(lock_through_content_hash(l), seq![("packages"@, packages_json(l.packages))], "platform-dev"@);
    lemma_member_single("packages"@, packages_json(l.packages), "platform-dev"@);
    lemma_member_append(lock_through_packages(l), opt_member(l.packages_dev.len() > 0, "packages-dev"@, packages_json(l.packages_dev)), "platform-dev"@);
    lemma_member_opt(l.packages_dev.len() > 0, "packages-dev"@, packages_json(l.packages_dev), "platform-dev"@);
    lemma_member_append(lock_through_packages_dev(l), opt_member(l.aliases.len() > 0, "aliases"@, JsonView::Array(l.aliases)), "platform-dev"@);
    lemma_member_opt(l.aliases.len() > 0, "aliases"@, JsonView::Array(l.aliases), "platform-dev"@);
    lemma_member_append(lock_through_aliases(l), seq![("minimum-stability"@, JsonView::Str(l.minimum_stability))], "platform-dev"@);
    lemma_member_single("minimum-stability"@, JsonView::Str(l.minimum_stability), "platform-dev"@);
    lemma_member_append(lock_through_minimum_stability(l), opt_member(l.stability_flags.len() > 0, "stability-flags"@, flags_json(l.stability_flags)), "platform-dev"@);
    lemma_member_opt(l.stability_flags.len() > 0, "stability-flags"@, flags_json(l.stability_flags), "platform-dev"@);
    lemma_member_append(lock_through_stability_flags(l), seq![("prefer-stable"@, JsonView::Bool(l.prefer_stable))], "platform-dev"@);
    lemma_member_single("prefer-stable"@, JsonView::Bool(l.prefer_stable), "platform-dev"@);
    lemma_member_append(lock_through_prefer_stable(l), seq![("prefer-lowest"@, JsonView::Bool(l.prefer_lowest))], "platform-dev"@);
    lemma_member_single("prefer-lowest"@, JsonView::Bool(l.prefer_lowest), "platform-dev"@);
    lemma_member_append(lock_through_prefer_lowest(l), opt_member(l.platform.len() > 0, "platform"@, str_map_json(l.platform)), "platform-dev"@);
    lemma_member_opt(l.platform.len() > 0, "platform"@, str_map_json(l.platform), "platform-dev"@);
    lemma_member_append(lock_through_platform(l), opt_member(l.platform_dev.len() > 0, "platform-dev"@, str_map_json(l.platform_dev)), "platform-dev"@);
    lemma_member_opt(l.platform_dev.len() > 0, "platform-dev"@, str_map_json(l.platform_dev), "platform-dev"@);
    lemma_member_append(lock_through_platform_dev(l), opt_member(l.plugin_api_version is Some, "plugin-api-version"@, opt_str_json(l.plugin_api_version)), "platform-dev"@);
    lemma_member_opt(l.plugin_api_version is Some, "plugin-api-version"@, opt_str_json(l.plugin_api_version), "platform-dev"@);
}

proof fn lemma_lock_member_plugin_api_version(l: ComposerLockView)
    ensures
        member(lock_through_plugin_api_version(l), "plugin-api-version"@) === if l.plugin_api_version is Some { Some(opt_str_json(l.plugin_api_version)) } else { None::<JsonView> },
{
    lemma_lock_keys();
    reveal(lock_through_readme);
    reveal(lock_through_content_hash);
    reveal(lock_through_packages);
    reveal(lock_through_packages_dev);
    reveal(lock_through_aliases);
    reveal(lock_through_minimum_stability);
    reveal(lock_through_stability_flags);
    reveal(lock_through_prefer_stable);
    reveal(lock_through_prefer_lowest);
    reveal(lock_through_platform);
    reveal(lock_through_platform_dev);
    reveal(lock_through_plugin_api_version);
    lemma_member_opt(l.readme is Some, "_readme"@, strs_json(l.readme->Some_0), "plugin-api-version"@);
    lemma_member_append(lock_through_readme(l), opt_member(l.content_hash is Some, "content-hash"@, opt_str_json(l.content_hash)), "plugin-api-version"@);
    lemma_member_opt(l.content_hash is Some, "content-hash"@, opt_str_json(l.content_hash), "plugin-api-version"@);
    lemma_member_append(lock_through_content_hash(l), seq![("packages"@, packages_json(l.packages))], "plugin-api-version"@);
    lemma_member_single("packages"@, packages_json(l.packages), "plugin-api-version"@);
    lemma_member_append(lock_through_packages(l), opt_member(l.packages_dev.len() > 0, "packages-dev"@, packages_json(l.packages_dev)), "plugin-api-version"@);
    lemma_member_opt(l.packages_dev.len() > 0, "packages-dev"@, packages_json(l.packages_dev), "plugin-api-version"@);
    lemma_member_append(lock_through_packages_dev(l), opt_member(l.aliases.len() > 0, "aliases"@, JsonView::Array(l.aliases)), "plugin-api-version"@);
    lemma_member_opt(l.aliases.len() > 0, "aliases"@, JsonView::Array(l.aliases), "plugin-api-version"@);
    lemma_member_append(lock_through_aliases(l), seq![("minimum-stability"@, JsonView::Str(l.minimum_stability))], "plugin-api-version"@);
    lemma_member_single("minimum-stability"@, JsonView::Str(l.minimum_stability), "plugin-api-version"@);
    lemma_member_append(lock_through_minimum_stability(l), opt_member(l.stability_flags.len() > 0, "stability-flags"@, flags_json(l.stability_flags)), "plugin-api-version"@);
    lemma_member_opt(l.stability_flags.len() > 0, "stability-flags"@, flags_json(l.stability_flags), "plugin-api-version"@);
    lemma_member_append(lock_through_stability_flags(l), seq![("prefer-stable"@, JsonView::Bool(l.prefer_stable))], "plugin-api-version"@);
    lemma_member_single("prefer-stable"@, JsonView::Bool(l.prefer_stable), "plugin-api-version"@);
    lemma_member_append(lock_through_prefer_stable(l), seq![("prefer-lowest"@, JsonView::Bool(l.prefer_lowest))], "plugin-api-version"@);
    lemma_member_single("prefer-lowest"@, JsonView::Bool(l.prefer_lowest), "plugin-api-version"@);
    lemma_member_append(lock_through_prefer_lowest(l), opt_member(l.platform.len() > 0, "platform"@, str_map_json(l.platform)), "plugin-api-version"@);
    lemma_member_opt(l.platform.len() > 0, "platform"@, str_map_json(l.platform), "plugin-api-version"@);
    lemma_member_append(lock_through_platform(l), opt_member(l.platform_dev.len() > 0, "platform-dev"@, str_map_json(l.platform_dev)), "plugin-api-version"@);
    lemma_member_opt(l.platform_dev.len() > 0, "platform-dev"@, str_map_json(l.platform_dev), "plugin-api-version"@);
    lemma_member_append(lock_through_platform_dev(l), opt_member(l.plugin_api_version is Some, "plugin-api-version"@, opt_str_json(l.plugin_api_version)), "plugin-api-version"@);
    lemma_member_opt(l.plugin_api_version is Some, "plugin-api-version"@, opt_str_json(l.plugin_api_version), "plugin-api-version"@);
}

/// A written package reads back as itself.
#[verifier::rlimit(100)]
#[verifier::spinoff_prover]
proof fn lemma_package_reads_back(p: LockedPackageView)
    requires
        package_wf(p),
    ensures
        package_of(package_json(p)) === Ok::<LockedPackageView, Seq<char>>(p),
{
    lemma_package_member_name(p);
    lemma_package_member_version(p);
    lemma_package_member_source(p);
    lemma_package_member_dist(p);
    lemma_package_member_require(p);
    lemma_package_member_require_dev(p);
    lemma_package_member_conflict(p);
    lemma_package_member_replace(p);
    lemma_package_member_provide(p);
    lemma_package_member_suggest(p);
    lemma_package_member_type(p);
    lemma_package_member_autoload(p);
    lemma_package_member_autoload_dev(p);
    lemma_package_member_license(p);
    lemma_package_member_authors(p);
    lemma_package_member_description(p);
    lemma_package_member_homepage(p);
    lemma_package_member_keywords(p);
    lemma_package_member_time(p);
    lemma_package_member_notification_url(p);
    lemma_dist_reads_back(p.dist);
    lemma_str_map_reads_back(p.require);
    lemma_str_map_reads_back(p.require_dev);
    lemma_str_map_reads_back(p.conflict);
    lemma_str_map_reads_back(p.replace);
    lemma_str_map_reads_back(p.provide);
    lemma_str_map_reads_back(p.suggest);
    lemma_strs_read_back(p.license);
    lemma_strs_read_back(p.keywords);
    lemma_json_vec_reads_back(p.authors);
    let j = package_json(p);
    assert(get_member(j, "name"@) === Some(JsonView::Str(p.name)));
    assert(dec_req_str(get_member(j, "name"@)) === Some(p.name));
    assert(dec_req_str(get_member(j, "version"@)) === Some(p.version));
    assert(get_member(j, "dist"@) === Some(dist_json(p.dist)));
    assert(dist_of(get_member(j, "dist"@)->Some_0) === Ok::<DistView, Seq<char>>(p.dist));
    assert(dec_str_map(get_member(j, "require"@)) === Some(p.require));
    assert(dec_str_map(get_member(j, "require-dev"@)) === Some(p.require_dev));
    assert(dec_str_map(get_member(j, "conflict"@)) === Some(p.conflict));
    assert(dec_str_map(get_member(j, "replace"@)) === Some(p.replace));
    assert(dec_str_map(get_member(j, "provide"@)) === Some(p.provide));
    assert(dec_str_map(get_member(j, "suggest"@)) === Some(p.suggest));
    assert(dec_opt_str(get_member(j, "type"@)) === Some(p.type_field));
    assert(dec_str_vec(get_member(j, "license"@)) === Some(p.license));
    assert(dec_json_vec(get_member(j, "authors"@)) === Some(p.authors));
    assert(dec_opt_str(get_member(j, "description"@)) === Some(p.description));
    assert(dec_opt_str(get_member(j, "homepage"@)) === Some(p.homepage));
    assert(dec_str_vec(get_member(j, "keywords"@)) === Some(p.keywords));
    assert(dec_opt_str(get_member(j, "time"@)) === Some(p.time));
    assert(dec_opt_str(get_member(j, "notification_url"@)) === Some(p.notification_url));
    assert(dec_json(get_member(j, "source"@)) === p.source);
    assert(dec_json(get_member(j, "autoload"@)) === p.autoload);
    assert(dec_json(get_member(j, "autoload-dev"@)) === p.autoload_dev);
}

/// A written list of packages reads back as itself.
proof fn lemma_packages_read_back(ps: Seq<LockedPackageView>)
    requires
        forall|i: int| 0 <= i < ps.len() ==> package_wf(#[trigger] ps[i]),
    ensures
        packages_of(packages_json(ps)->Array_0) === Ok::<Seq<LockedPackageView>, Seq<char>>(ps),
    decreases ps.len(),
{
    let a = packages_json(ps)->Array_0;
    if ps.len() == 0 {
        assert(ps =~= Seq::<LockedPackageView>::empty());
    } else {
        let d = ps.drop_last();
        assert forall|i: int| 0 <= i < d.len() implies package_wf(#[trigger] d[i]) by {
            assert(d[i] == ps[i]);
        }
        lemma_packages_read_back(d);
        assert(a.drop_last() =~= packages_json(d)->Array_0);
        assert(a.last() == package_json(ps.last()));
        lemma_package_reads_back(ps.last());
        assert(d.push(ps.last()) =~= ps);
    }
}

/// A written lock reads back as itself: for a lock whose maps have
/// distinct keys, `lock_of` of `lock_json` gives the lock again.
#[verifier::rlimit(100)]
#[verifier::spinoff_prover]
pub proof fn law_lock_json_round_trip(l: ComposerLockView)
    requires
        lock_wf(l),
    ensures
        lock_of(lock_json(l)) === Ok::<ComposerLockView, Seq<char>>(l),
{
    lemma_lock_member_readme(l);
    lemma_lock_member_content_hash(l);
    lemma_lock_member_packages(l);
    lemma_lock_member_packages_dev(l);
    lemma_lock_member_aliases(l);
    lemma_lock_member_minimum_stability(l);
    lemma_lock_member_stability_flags(l);
    lemma_lock_member_prefer_stable(l);
    lemma_lock_member_prefer_lowest(l);
    lemma_lock_member_platform(l);
    lemma_lock_member_platform_dev(l);
    lemma_lock_member_plugin_api_version(l);
    lemma_packages_read_back(l.packages);
    lemma_packages_read_back(l.packages_dev);
    lemma_json_vec_reads_back(l.aliases);
    lemma_flags_read_back(l.stability_flags);
    lemma_str_map_reads_back(l.platform);
    lemma_str_map_reads_back(l.platform_dev);
    if l.readme is Some {
        lemma_strs_read_back(l.readme->Some_0);
    }
    if l.packages_dev.len() == 0 {
        assert(l.packages_dev =~= Seq::<LockedPackageView>::empty());
    }
    let j = lock_json(l);
    assert(dec_opt_str_vec(get_member(j, "_readme"@)) === Some(l.readme));
    assert(dec_opt_str(get_member(j, "content-hash"@)) === Some(l.content_hash));
    assert(dec_packages(get_member(j, "packages"@), "packages"@) === Ok::<Seq<LockedPackageView>, Seq<char>>(l.packages));
    assert(dec_packages(get_member(j, "packages-dev"@), "packages-dev"@) === Ok::<Seq<LockedPackageView>, Seq<char>>(l.packages_dev));
    assert(dec_json_vec(get_member(j, "aliases"@)) === Some(l.aliases));
    assert(dec_str_or(get_member(j, "minimum-stability"@), "stable"@) === Some(l.minimum_stability));
    assert(dec_u32_map(get_member(j, "stability-flags"@)) === Some(l.stability_flags));
    assert(dec_bool(get_member(j, "prefer-stable"@)) === Some(l.prefer_stable));
    assert(dec_bool(get_member(j, "prefer-lowest"@)) === Some(l.prefer_lowest));
    assert(dec_str_map(get_member(j, "platform"@)) === Some(l.platform));
    assert(dec_str_map(get_member(j, "platform-dev"@)) === Some(l.platform_dev));
    assert(dec_opt_str(get_member(j, "plugin-api-version"@)) === Some(l.plugin_api_version));
}

/// The text `serialize_to_string` writes for a lock, `deserialize_str`
/// reads back as the same lock, wherever `serde_json` reads its own
/// indented text back as the value it wrote.
pub proof fn law_lock_text_round_trip(l: ComposerLockView)
    requires
        lock_wf(l),
        serde_json_read(serde_json_pretty(lock_json(l))) == Ok::<JsonView, Seq<char>>(lock_json(l)),
    ensures
        lock_result(serde_json_read(serde_json_pretty(lock_json(l)))) == Ok::<ComposerLockView, Seq<char>>(l),
{
    law_lock_json_round_trip(l);
}

} // verus!
