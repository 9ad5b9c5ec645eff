//! Package metadata: the model, the Packagist p2 response reader, and an
//! in-memory registry.
use vstd::prelude::*;
use indexmap::IndexMap;
use crate::json::{get_member, parse_json, serde_json_read, Json, JsonView};
use crate::require_map::{
    entries_from_pairs, entry_value, insert_entry, key_index, lemma_key_index, pairs_view,
    require_entries, require_map_from, rm_clone, RequireMap,
};
use crate::text::{chars_to_string, push_str, str_chars};
use crate::version::{parse_version, Version, VersionView};

verus! {

/// Error type for all registry operations.
#[derive(Debug, Clone, PartialEq, Eq)]
pub enum RegistryError {
    Network(String),
    Parse(String),
    NotFound(String),
}

pub enum RegistryErrorView {
    Network(Seq<char>),
    Parse(Seq<char>),
    NotFound(Seq<char>),
}

impl View for RegistryError {
    type V = RegistryErrorView;

    open spec fn view(&self) -> RegistryErrorView {
        match self {
            RegistryError::Network(s) => RegistryErrorView::Network(s@),
            RegistryError::Parse(s) => RegistryErrorView::Parse(s@),
            RegistryError::NotFound(s) => RegistryErrorView::NotFound(s@),
        }
    }
}

impl RegistryError {
    /// The error as text: `network error: ..`, `parse error: ..`,
    /// `package not found: ..`.
    pub fn message(&self) -> (r: String)
        ensures
            r@ == registry_error_text(self@),
    {
        let mut out: Vec<char> = Vec::new();
        proof {
            reveal_strlit("network error: ");
            reveal_strlit("parse error: ");
            reveal_strlit("package not found: ");
        }
        match self {
            RegistryError::Network(s) => {
                push_str(&mut out, "network error: ");
                push_str(&mut out, s.as_str());
            },
            RegistryError::Parse(s) => {
                push_str(&mut out, "parse error: ");
                push_str(&mut out, s.as_str());
            },
            RegistryError::NotFound(s) => {
                push_str(&mut out, "package not found: ");
                push_str(&mut out, s.as_str());
            },
        }
        chars_to_string(out.as_slice())
    }

    pub fn copy(&self) -> (r: RegistryError)
        ensures
            r@ == self@,
    {
        match self {
            RegistryError::Network(s) => RegistryError::Network(s.clone()),
            RegistryError::Parse(s) => RegistryError::Parse(s.clone()),
            RegistryError::NotFound(s) => RegistryError::NotFound(s.clone()),
        }
    }
}

pub open spec fn registry_error_text(e: RegistryErrorView) -> Seq<char> {
    match e {
        RegistryErrorView::Network(s) => "network error: "@ + s,
        RegistryErrorView::Parse(s) => "parse error: "@ + s,
        RegistryErrorView::NotFound(s) => "package not found: "@ + s,
    }
}

/// All known versions of a single package.
#[derive(Debug)]
pub struct PackageMetadata {
    pub versions: Vec<PackageVersion>,
}

/// One version's metadata.
#[derive(Debug)]
pub struct PackageVersion {
    pub version: Version,
    pub dist: DistRef,
    pub require: RequireMap,
}

/// Download reference for a package version (dist = prebuilt archive).
#[derive(Debug, Clone, PartialEq, Eq)]
pub struct DistRef {
    pub url: String,
    pub shasum: String,
    pub kind: String,
}

pub struct DistRefView {
    pub url: Seq<char>,
    pub shasum: Seq<char>,
    pub kind: Seq<char>,
}

pub struct PackageVersionView {
    pub version: VersionView,
    pub dist: DistRefView,
    pub require: Seq<(Seq<char>, Seq<char>)>,
}

impl View for DistRef {
    type V = DistRefView;

    open spec fn view(&self) -> DistRefView {
        DistRefView { url: self.url@, shasum: self.shasum@, kind: self.kind@ }
    }
}

impl View for PackageVersion {
    type V = PackageVersionView;

    open spec fn view(&self) -> PackageVersionView {
        PackageVersionView {
            version: self.version@,
            dist: self.dist@,
            require: require_entries(self.require),
        }
    }
}

pub open spec fn versions_view(v: Seq<PackageVersion>) -> Seq<PackageVersionView> {
    v.map_values(|p: PackageVersion| p@)
}

impl View for PackageMetadata {
    type V = Seq<PackageVersionView>;

    open spec fn view(&self) -> Seq<PackageVersionView> {
        versions_view(self.versions@)
    }
}

impl Clone for PackageVersion {
    fn clone(&self) -> (r: Self)
        ensures
            r@ == self@,
    {
        self.copy()
    }
}

impl Clone for PackageMetadata {
    fn clone(&self) -> (r: Self)
        ensures
            r@ == self@,
    {
        self.copy()
    }
}

impl DistRef {
    pub fn copy(&self) -> (r: DistRef)
        ensures
            r@ == self@,
    {
        DistRef { url: self.url.clone(), shasum: self.shasum.clone(), kind: self.kind.clone() }
    }
}

impl PackageVersion {
    pub fn copy(&self) -> (r: PackageVersion)
        ensures
            r@ == self@,
    {
        PackageVersion { version: self.version.copy(), dist: self.dist.copy(), require: rm_clone(&self.require) }
    }
}

impl PackageMetadata {
    pub fn copy(&self) -> (r: PackageMetadata)
        ensures
            r@ == self@,
    {
        let mut out: Vec<PackageVersion> = Vec::new();
        let mut i: usize = 0;
        while i < self.versions.len()
            invariant
                i <= self.versions.len(),
                versions_view(out@) == versions_view(self.versions@).take(i as int),
            decreases self.versions.len() - i,
        {
            let ghost before = versions_view(out@);
            let p = self.versions[i].copy();
            out.push(p);
            i += 1;
            assert(versions_view(out@) =~= before.push(self.versions@[i - 1]@));
            assert(versions_view(self.versions@).take(i as int) =~= versions_view(self.versions@).take(i - 1).push(self.versions@[i - 1]@));
        }
        assert(versions_view(self.versions@).take(self.versions.len() as int) =~= versions_view(self.versions@));
        PackageMetadata { versions: out }
    }
}

// ---------------------------------------------------------------------------
// Packagist p2 responses
// ---------------------------------------------------------------------------

/// The string inside `o`, or `default` when `o` is not a string.
pub open spec fn str_or(o: Option<JsonView>, default: Seq<char>) -> Seq<char> {
    match o {
        Some(JsonView::Str(s)) => s,
        _ => default,
    }
}

/// The members of `m[i..]` whose values are strings, as pairs, after `acc`.
pub open spec fn string_members_from(m: Seq<(Seq<char>, JsonView)>, i: int, acc: Seq<(Seq<char>, Seq<char>)>) -> Seq<(Seq<char>, Seq<char>)>
    decreases m.len() - i,
{
    if i >= m.len() || i < 0 {
        acc
    } else {
        match m[i].1 {
            JsonView::Str(s) => string_members_from(m, i + 1, acc.push((m[i].0, s))),
            _ => string_members_from(m, i + 1, acc),
        }
    }
}

/// `require` of a p2 entry: its string-valued members (none when absent or
/// not an object).
pub open spec fn p2_require(o: Option<JsonView>) -> Seq<(Seq<char>, Seq<char>)> {
    match o {
        Some(JsonView::Object(m)) => entries_from_pairs(string_members_from(m, 0, Seq::empty())),
        _ => Seq::empty(),
    }
}

/// One p2 entry: an error when it has no string `version`; nothing for a
/// version that does not parse, that has no `dist`, or whose `dist.url` is
/// missing or empty; else the version with its dist and requirements.
pub open spec fn p2_entry(e: JsonView) -> Result<Option<PackageVersionView>, RegistryErrorView> {
    match get_member(e, "version"@) {
        Some(JsonView::Str(vs)) => match parse_version(vs) {
            None => Ok(None),
            Some(v) => match get_member(e, "dist"@) {
                None => Ok(None),
                Some(d) => {
                    let url = str_or(get_member(d, "url"@), Seq::empty());
                    if url.len() == 0 {
                        Ok(None)
                    } else {
                        Ok(Some(PackageVersionView {
                            version: v,
                            dist: DistRefView {
                                url,
                                shasum: str_or(get_member(d, "shasum"@), Seq::empty()),
                                kind: str_or(get_member(d, "type"@), "zip"@),
                            },
                            require: p2_require(get_member(e, "require"@)),
                        }))
                    }
                },
            },
        },
        _ => Err(RegistryErrorView::Parse("missing version field"@)),
    }
}

pub open spec fn p2_entries_from(es: Seq<JsonView>, i: int, acc: Seq<PackageVersionView>) -> Result<Seq<PackageVersionView>, RegistryErrorView>
    decreases es.len() - i,
{
    if i >= es.len() || i < 0 {
        Ok(acc)
    } else {
        match p2_entry(es[i]) {
            Err(e) => Err(e),
            Ok(None) => p2_entries_from(es, i + 1, acc),
            Ok(Some(p)) => p2_entries_from(es, i + 1, acc.push(p)),
        }
    }
}

/// An entry without a string `version`.
pub open spec fn lacks_version(e: JsonView) -> bool {
    !(get_member(e, "version"@) matches Some(JsonView::Str(_)))
}

/// The versions of the entries `es`, in order: one for each entry whose
/// `version` parses and whose `dist` has a non-empty URL.
pub open spec fn usable_versions(es: Seq<JsonView>) -> Seq<PackageVersionView>
    decreases es.len(),
{
    if es.len() == 0 {
        Seq::empty()
    } else {
        (match p2_entry(es[0]) {
            Ok(Some(p)) => seq![p],
            _ => Seq::empty(),
        }) + usable_versions(es.drop_first())
    }
}

proof fn lemma_p2_entries_from(es: Seq<JsonView>, i: int, acc: Seq<PackageVersionView>)
    requires
        0 <= i <= es.len(),
    ensures
        p2_entries_from(es, i, acc) == (if exists|j: int| i <= j < es.len() && lacks_version(#[trigger] es[j]) {
            Err(RegistryErrorView::Parse("missing version field"@))
        } else {
            Ok(acc + usable_versions(es.skip(i)))
        }),
    decreases es.len() - i,
{
    if i == es.len() {
        assert(es.skip(i) =~= Seq::<JsonView>::empty());
        assert(acc + usable_versions(es.skip(i)) =~= acc);
    } else {
        assert(es.skip(i).drop_first() =~= es.skip(i + 1));
        assert(es.skip(i)[0] == es[i]);
        if lacks_version(es[i]) {
            assert(p2_entry(es[i]) == Err::<Option<PackageVersionView>, RegistryErrorView>(RegistryErrorView::Parse("missing version field"@)));
        } else {
            lemma_p2_entries_from(es, i + 1, match p2_entry(es[i]) {
                Ok(Some(p)) => acc.push(p),
                _ => acc,
            });
            assert((exists|j: int| i <= j < es.len() && lacks_version(#[trigger] es[j])) == (exists|j: int|
                i + 1 <= j < es.len() && lacks_version(#[trigger] es[j]))) by {
                if exists|j: int| i <= j < es.len() && lacks_version(#[trigger] es[j]) {
                    let j = choose|j: int| i <= j < es.len() && lacks_version(#[trigger] es[j]);
                    assert(j != i);
                }
            }
            match p2_entry(es[i]) {
                Ok(Some(p)) => {
                    assert(acc.push(p) + usable_versions(es.skip(i + 1)) =~= acc + (seq![p] + usable_versions(es.skip(i + 1))));
                },
                _ => {
                    assert(acc + usable_versions(es.skip(i)) =~= acc + usable_versions(es.skip(i + 1)));
                },
            }
        }
    }
}

/// Reading the entries of a p2 array fails, with `missing version field`,
/// exactly when some entry has no string `version`; otherwise it gives, in
/// order, the versions of the entries whose version parses and whose
/// download URL is not empty.
pub proof fn law_p2_entries(es: Seq<JsonView>)
    ensures
        p2_entries_from(es, 0, Seq::empty()) == (if exists|i: int| 0 <= i < es.len() && lacks_version(#[trigger] es[i]) {
            Err(RegistryErrorView::Parse("missing version field"@))
        } else {
            Ok(usable_versions(es))
        }),
{
    lemma_p2_entries_from(es, 0, Seq::empty());
    assert(es.skip(0) =~= es);
    assert(Seq::<PackageVersionView>::empty() + usable_versions(es) =~= usable_versions(es));
}

/// What a Packagist p2 document says of package `key`.
pub open spec fn p2_metadata(key: Seq<char>, body: JsonView) -> Result<Seq<PackageVersionView>, RegistryErrorView> {
    match get_member(body, "packages"@) {
        Some(p) => match get_member(p, key) {
            Some(JsonView::Array(es)) => p2_entries_from(es, 0, Seq::empty()),
            _ => Err(RegistryErrorView::Parse("missing packages."@ + key + " array in response"@)),
        },
        None => Err(RegistryErrorView::Parse("missing packages."@ + key + " array in response"@)),
    }
}

pub open spec fn metadata_result_view(r: Result<PackageMetadata, RegistryError>) -> Result<Seq<PackageVersionView>, RegistryErrorView> {
    match r {
        Ok(m) => Ok(m@),
        Err(e) => Err(e@),
    }
}

fn str_member_or(j: Option<&Json>, default: &str) -> (r: String)
    ensures
        r@ == str_or(opt_json_view(j), default@),
{
    match j {
        Some(Json::Str(s)) => s.clone(),
        _ => {
            let v = str_chars(default);
            chars_to_string(v.as_slice())
        },
    }
}

pub open spec fn opt_json_view(j: Option<&Json>) -> Option<JsonView> {
    match j {
        Some(v) => Some(v@),
        None => None,
    }
}

fn p2_require_exec(j: Option<&Json>) -> (r: RequireMap)
    ensures
        require_entries(r) == p2_require(opt_json_view(j)),
{
    let mut pairs: Vec<(String, String)> = Vec::new();
    match j {
        Some(Json::Object(o)) => {
            let ghost m = o@;
            assert(j.unwrap()@ == JsonView::Object(m));
            let mut i: usize = 0;
            assert(pairs_view(pairs@) =~= Seq::<(Seq<char>, Seq<char>)>::empty());
            while i < o.entries.len()
                invariant
                    i <= o.entries.len(),
                    m == o@,
                    m.len() == o.entries.len(),
                    string_members_from(m, i as int, pairs_view(pairs@)) == string_members_from(m, 0, Seq::empty()),
                decreases o.entries.len() - i,
            {
                assert(m[i as int].0 == o.entries@[i as int].0@ && m[i as int].1 == o.entries@[i as int].1@);
                match &o.entries[i].1 {
                    Json::Str(s) => {
                        let ghost before = pairs_view(pairs@);
                        let k = o.entries[i].0.clone();
                        let v = s.clone();
                        pairs.push((k, v));
                        assert(pairs_view(pairs@) =~= before.push((m[i as int].0, s@)));
                    },
                    _ => {},
                }
                i += 1;
            }
            require_map_from(&pairs)
        },
        _ => {
            let m = require_map_from(&pairs);
            assert(pairs_view(pairs@) =~= Seq::<(Seq<char>, Seq<char>)>::empty());
            m
        },
    }
}

fn p2_entry_exec(e: &Json) -> (r: Result<Option<PackageVersion>, RegistryError>)
    ensures
        match r {
            Ok(Some(p)) => p2_entry(e@) == Ok::<Option<PackageVersionView>, RegistryErrorView>(Some(p@)),
            Ok(None) => p2_entry(e@) == Ok::<Option<PackageVersionView>, RegistryErrorView>(None),
            Err(x) => p2_entry(e@) == Err::<Option<PackageVersionView>, RegistryErrorView>(x@),
        },
{
    proof {
        reveal_strlit("version");
        reveal_strlit("dist");
        reveal_strlit("url");
        reveal_strlit("shasum");
        reveal_strlit("type");
        reveal_strlit("zip");
        reveal_strlit("require");
        reveal_strlit("");
        reveal_strlit("missing version field");
    }
    match e.get("version") {
        Some(Json::Str(vs)) => {
            match Version::parse(vs.as_str()) {
                Err(_) => Ok(None),
                Ok(v) => match e.get("dist") {
                    None => Ok(None),
                    Some(d) => {
                        let url = str_member_or(d.get("url"), "");
                        assert(""@ =~= Seq::<char>::empty());
                        if url.as_str().is_empty() {
                            Ok(None)
                        } else {
                            let shasum = str_member_or(d.get("shasum"), "");
                            let kind = str_member_or(d.get("type"), "zip");
                            let require = p2_require_exec(e.get("require"));
                            Ok(Some(PackageVersion { version: v, dist: DistRef { url, shasum, kind: kind }, require }))
                        }
                    },
                },
            }
        },
        _ => {
            let m = str_chars("missing version field");
            Err(RegistryError::Parse(chars_to_string(m.as_slice())))
        },
    }
}


/// Reads the versions of package `key` (`vendor/package`) from a Packagist p2
/// response body.
///
/// Entries without a string `version` make the whole response an error;
/// entries whose version does not parse, that have no `dist`, or whose
/// `dist.url` is missing or empty are skipped (source-only installs are out of
/// scope). A missing `dist.shasum` reads as empty and a missing `dist.type` as
/// `zip`; `require` keeps the string-valued members.
pub fn parse_p2_response(key: &str, body: &Json) -> (r: Result<PackageMetadata, RegistryError>)
    ensures
        metadata_result_view(r) == p2_metadata(key@, body@),
{
    proof {
        reveal_strlit("packages");
        reveal_strlit("missing packages.");
        reveal_strlit(" array in response");
    }
    let arr = match body.get("packages") {
        Some(p) => match p.get(key) {
            Some(Json::Array(es)) => Some(es),
            _ => None,
        },
        None => None,
    };
    match arr {
        None => {
            let mut m: Vec<char> = Vec::new();
            push_str(&mut m, "missing packages.");
            push_str(&mut m, key);
            push_str(&mut m, " array in response");
            Err(RegistryError::Parse(chars_to_string(m.as_slice())))
        },
        Some(es) => {
            let ghost esv = crate::json::elements_view(*es);
            let mut versions: Vec<PackageVersion> = Vec::new();
            let mut i: usize = 0;
            assert(versions_view(versions@) =~= Seq::<PackageVersionView>::empty());
            while i < es.len()
                invariant
                    i <= es.len(),
                    esv == crate::json::elements_view(*es),
                    esv.len() == es.len(),
                    p2_metadata(key@, body@) == p2_entries_from(esv, 0, Seq::empty()),
                    p2_entries_from(esv, i as int, versions_view(versions@)) == p2_entries_from(esv, 0, Seq::empty()),
                decreases es.len() - i,
            {
                assert(esv[i as int] == es@[i as int]@);
                match p2_entry_exec(&es[i]) {
                    Err(e) => {
                        return Err(e);
                    },
                    Ok(None) => {},
                    Ok(Some(p)) => {
                        let ghost before = versions_view(versions@);
                        let ghost pv = p@;
                        versions.push(p);
                        assert(versions_view(versions@) =~= before.push(pv));
                    },
                }
                i += 1;
            }
            Ok(PackageMetadata { versions })
        },
    }
}

// ---------------------------------------------------------------------------
// In-memory registry
// ---------------------------------------------------------------------------

/// In-process registry for tests and offline use: package name to metadata.
pub struct MockRegistry {
    packages: Vec<(String, PackageMetadata)>,
}

pub open spec fn registry_entries_view(v: Seq<(String, PackageMetadata)>) -> Seq<(Seq<char>, Seq<PackageVersionView>)> {
    v.map_values(|p: (String, PackageMetadata)| (p.0@, p.1@))
}

impl View for MockRegistry {
    type V = Seq<(Seq<char>, Seq<PackageVersionView>)>;

    closed spec fn view(&self) -> Seq<(Seq<char>, Seq<PackageVersionView>)> {
        registry_entries_view(self.packages@)
    }
}

impl MockRegistry {
    /// A registry that knows no package.
    pub fn new() -> (r: Self)
        ensures
            r@.len() == 0,
    {
        MockRegistry { packages: Vec::new() }
    }

    /// The same registry with `metadata` stored under `full_name`
    /// (replacing what was stored under that name).
    pub fn with_package(self, full_name: &str, metadata: PackageMetadata) -> (r: Self)
        ensures
            r@ == insert_entry(self@, full_name@, metadata@),
    {
        let mut r = self;
        r.put(full_name, metadata);
        r
    }

    /// Stores `metadata` under `full_name`, replacing what was stored there.
    pub fn put(&mut self, full_name: &str, metadata: PackageMetadata)
        ensures
            final(self)@ == insert_entry(old(self)@, full_name@, metadata@),
    {
        let ghost before = self@;
        let name = str_chars(full_name);
        let mut i: usize = 0;
        proof { lemma_key_index(before, full_name@); }
        while i < self.packages.len()
            invariant
                i <= self.packages.len(),
                before == self@,
                before == old(self)@,
                name@ == full_name@,
                forall|j: int| 0 <= j < i ==> before[j].0 != full_name@,
                -1 <= key_index(before, full_name@) < before.len(),
                key_index(before, full_name@) >= 0 ==> before[key_index(before, full_name@)].0 == full_name@,
                forall|j: int| 0 <= j < before.len() && (key_index(before, full_name@) == -1 || j < key_index(before, full_name@)) ==> before[j].0 != full_name@,
            decreases self.packages.len() - i,
        {
            let other = str_chars(self.packages[i].0.as_str());
            assert(before[i as int] == (self.packages@[i as int].0@, self.packages@[i as int].1@));
            if crate::text::chars_eq(&other, &name) {
                assert(key_index(before, full_name@) == i);
                let ghost mv = metadata@;
                let key = self.packages[i].0.clone();
                self.packages.set(i, (key, metadata));
                assert(self@ =~= before.update(i as int, (full_name@, mv)));
                return;
            }
            i += 1;
        }
        let ghost mv = metadata@;
        self.packages.push((chars_to_string(name.as_slice()), metadata));
        assert(self@ =~= before.push((full_name@, mv)));
    }

    /// The metadata stored under `vendor/package`, or `NotFound` naming it.
    pub fn package_metadata(&self, vendor: &str, package: &str) -> (r: Result<PackageMetadata, RegistryError>)
        ensures
            metadata_result_view(r) == registry_lookup(self@, vendor@ + "/"@ + package@),
    {
        let mut key: Vec<char> = Vec::new();
        push_str(&mut key, vendor);
        push_str(&mut key, "/");
        push_str(&mut key, package);
        self.lookup(&key)
    }

    /// The metadata stored under the name `key`, or `NotFound` naming it.
    pub fn lookup(&self, key: &Vec<char>) -> (r: Result<PackageMetadata, RegistryError>)
        ensures
            metadata_result_view(r) == registry_lookup(self@, key@),
    {
        let ghost e = self@;
        proof { lemma_key_index(e, key@); }
        let mut i: usize = 0;
        while i < self.packages.len()
            invariant
                i <= self.packages.len(),
                e == self@,
                forall|j: int| 0 <= j < i ==> e[j].0 != key@,
                -1 <= key_index(e, key@) < e.len(),
                key_index(e, key@) >= 0 ==> e[key_index(e, key@)].0 == key@,
                forall|j: int| 0 <= j < e.len() && (key_index(e, key@) == -1 || j < key_index(e, key@)) ==> e[j].0 != key@,
            decreases self.packages.len() - i,
        {
            let other = str_chars(self.packages[i].0.as_str());
            assert(e[i as int] == (self.packages@[i as int].0@, self.packages@[i as int].1@));
            if crate::text::chars_eq(&other, key) {
                assert(key_index(e, key@) == i);
                return Ok(self.packages[i].1.copy());
            }
            i += 1;
        }
        Err(RegistryError::NotFound(chars_to_string(key.as_slice())))
    }

    /// A registry with the same entries.
    pub fn copy(&self) -> (r: MockRegistry)
        ensures
            r@ == self@,
    {
        let mut out: Vec<(String, PackageMetadata)> = Vec::new();
        let mut i: usize = 0;
        while i < self.packages.len()
            invariant
                i <= self.packages.len(),
                registry_entries_view(out@) == self@.take(i as int),
            decreases self.packages.len() - i,
        {
            let ghost before = registry_entries_view(out@);
            let k = self.packages[i].0.clone();
            let m = self.packages[i].1.copy();
            assert(self@[i as int] == (self.packages@[i as int].0@, self.packages@[i as int].1@));
            out.push((k, m));
            i += 1;
            assert(registry_entries_view(out@) =~= before.push(self@[i - 1]));
            assert(self@.take(i as int) =~= self@.take(i - 1).push(self@[i - 1]));
        }
        assert(self@.take(self.packages.len() as int) =~= self@);
        MockRegistry { packages: out }
    }
}

impl Clone for MockRegistry {
    fn clone(&self) -> (r: Self)
        ensures
            r@ == self@,
    {
        self.copy()
    }
}

/// What a registry holding `entries` answers for the name `key`.
pub open spec fn registry_lookup(entries: Seq<(Seq<char>, Seq<PackageVersionView>)>, key: Seq<char>) -> Result<Seq<PackageVersionView>, RegistryErrorView> {
    match entry_value(entries, key) {
        Some(m) => Ok(m),
        None => Err(RegistryErrorView::NotFound(key)),
    }
}

/// A registry base URL without its trailing `/` characters, so that paths
/// can be appended to it.
pub fn normalize_base_url(base: &str) -> (r: String)
    ensures
        r@ == crate::autoload::trim_end_slashes(base@),
{
    let v = str_chars(base);
    let mut n: usize = v.len();
    assert(v@.take(n as int) =~= v@);
    while n > 0 && v[n - 1] == '/'
        invariant
            n <= v.len(),
            crate::autoload::trim_end_slashes(v@.take(n as int)) == crate::autoload::trim_end_slashes(v@),
        decreases n,
    {
        assert(v@.take(n as int).drop_last() =~= v@.take(n - 1));
        n -= 1;
    }
    let t = crate::text::sub_vec(&v, 0, n);
    assert(t@ =~= v@.take(n as int));
    chars_to_string(t.as_slice())
}

/// The Packagist p2 metadata URL of the package `key` (`vendor/package`).
pub fn p2_url(base: &str, key: &str) -> (r: String)
    ensures
        r@ == base@ + "/p2/"@ + key@ + ".json"@,
{
    let mut out: Vec<char> = Vec::new();
    push_str(&mut out, base);
    push_str(&mut out, "/p2/");
    push_str(&mut out, key);
    push_str(&mut out, ".json");
    chars_to_string(out.as_slice())
}

/// What the HTTP status of the p2 request for `key` at `url` rules out:
/// 404 means the package does not exist; any other status outside 200..300
/// is a network error naming the status (`status_text`, its code and
/// reason) and the URL; a success rules out nothing.
pub fn status_error(key: &str, url: &str, code: u16, status_text: &str) -> (r: Option<RegistryError>)
    ensures
        code == 404 ==> (r matches Some(RegistryError::NotFound(k)) && k@ == key@),
        code != 404 && 200 <= code < 300 ==> r is None,
        code != 404 && !(200 <= code < 300) ==> (r matches Some(RegistryError::Network(m))
            && m@ == "HTTP "@ + status_text@ + " for "@ + url@),
{
    if code == 404 {
        let k = str_chars(key);
        Some(RegistryError::NotFound(chars_to_string(k.as_slice())))
    } else if 200 <= code && code < 300 {
        None
    } else {
        let mut out: Vec<char> = Vec::new();
        push_str(&mut out, "HTTP ");
        push_str(&mut out, status_text);
        push_str(&mut out, " for ");
        push_str(&mut out, url);
        Some(RegistryError::Network(chars_to_string(out.as_slice())))
    }
}

/// A registry answers with what was last put under a name, and putting
/// under one name leaves the answers for every other name as they were.
pub proof fn law_registry_reads_back_writes(
    entries: Seq<(Seq<char>, Seq<PackageVersionView>)>,
    name: Seq<char>,
    metadata: Seq<PackageVersionView>,
    other: Seq<char>,
)
    ensures
        registry_lookup(insert_entry(entries, name, metadata), name) == Ok::<Seq<PackageVersionView>, RegistryErrorView>(metadata),
        other != name ==> registry_lookup(insert_entry(entries, name, metadata), other) == registry_lookup(entries, other),
{
    crate::require_map::lemma_insert_entry_value(entries, name, metadata, other);
}


/// What the body of a successful p2 reply for `key` gives: the metadata it
/// describes, or, when it is not JSON, a network error with the reader's
/// message (the body did not arrive as a document).
pub open spec fn reply_metadata(key: Seq<char>, body: Seq<char>) -> Result<Seq<PackageVersionView>, RegistryErrorView> {
    match serde_json_read(body) {
        Err(m) => Err(RegistryErrorView::Network(m)),
        Ok(j) => p2_metadata(key, j),
    }
}

/// The metadata of `key` from the body of a successful p2 reply.
pub fn metadata_from_body(key: &str, body: &str) -> (r: Result<PackageMetadata, RegistryError>)
    ensures
        metadata_result_view(r) == reply_metadata(key@, body@),
{
    match parse_json(body) {
        Err(m) => Err(RegistryError::Network(m)),
        Ok(j) => parse_p2_response(key, &j),
    }
}
} // verus!
