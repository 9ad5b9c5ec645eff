//! `composer.json`: the project manifest.
//!
//! Reading is forward compatible: unknown top-level members are ignored and
//! every known section may be absent. Text that is not JSON is the only
//! error: a known section of the wrong JSON type is read as absent, and a
//! document that is not an object as an empty manifest.
use vstd::prelude::*;
use crate::decode::{
    all_str_values, dec_bool, dec_json, dec_json_map, dec_json_vec, dec_opt_str, dec_str_map, decode_bool, decode_json, str_pairs,
    decode_json_map, decode_json_vec, decode_opt_str, decode_str_map,
};
use crate::json::{
    elements_view, get_member, lemma_member_absent, lemma_member_other_key, parse_json, serde_json_read, Json, JsonObject,
    JsonView,
};
use crate::registry::opt_json_view;
use crate::require_map::{entries_from_pairs, entry_value, insert_entry, lemma_insert_entry_value, require_entries, rm_new, RequireMap};
use crate::text::{chars_to_string, push_str};
use crate::version::opt_string_view;

verus! {

/// The `autoload` section: loader kind (`psr-4`, `classmap`, `files`, ...)
/// to its JSON value.
pub type Autoload = JsonObject;

/// The `autoload-dev` section.
pub type AutoloadDev = JsonObject;

/// Why a manifest was refused.
#[derive(Debug)]
pub enum ManifestError {
    Json(String),
}

impl ManifestError {
    /// The error as text: `invalid composer.json: <detail>`.
    pub fn message(&self) -> (r: String)
        ensures
            r@ == "invalid composer.json: "@ + match self {
                ManifestError::Json(m) => m@,
            },
    {
        let mut out: Vec<char> = Vec::new();
        proof {
            reveal_strlit("invalid composer.json: ");
        }
        push_str(&mut out, "invalid composer.json: ");
        match self {
            ManifestError::Json(m) => push_str(&mut out, m.as_str()),
        }
        chars_to_string(out.as_slice())
    }
}

/// A parsed `composer.json`.
#[derive(Debug)]
pub struct ComposerJson {
    pub name: Option<String>,
    pub require: RequireMap,
    pub require_dev: RequireMap,
    pub autoload: Autoload,
    pub autoload_dev: AutoloadDev,
    pub repositories: Vec<Json>,
    pub config: Json,
    pub minimum_stability: Option<String>,
    pub prefer_stable: bool,
}

pub struct ComposerJsonView {
    pub name: Option<Seq<char>>,
    pub require: Seq<(Seq<char>, Seq<char>)>,
    pub require_dev: Seq<(Seq<char>, Seq<char>)>,
    pub autoload: Seq<(Seq<char>, JsonView)>,
    pub autoload_dev: Seq<(Seq<char>, JsonView)>,
    pub repositories: Seq<JsonView>,
    pub config: JsonView,
    pub minimum_stability: Option<Seq<char>>,
    pub prefer_stable: bool,
}

impl View for ComposerJson {
    type V = ComposerJsonView;

    open spec fn view(&self) -> ComposerJsonView {
        ComposerJsonView {
            name: opt_string_view(self.name),
            require: require_entries(self.require),
            require_dev: require_entries(self.require_dev),
            autoload: self.autoload@,
            autoload_dev: self.autoload_dev@,
            repositories: elements_view(self.repositories),
            config: self.config@,
            minimum_stability: opt_string_view(self.minimum_stability),
            prefer_stable: self.prefer_stable,
        }
    }
}

/// The manifest with every section absent.
pub open spec fn empty_manifest() -> ComposerJsonView {
    ComposerJsonView {
        name: None,
        require: Seq::empty(),
        require_dev: Seq::empty(),
        autoload: Seq::empty(),
        autoload_dev: Seq::empty(),
        repositories: Seq::empty(),
        config: JsonView::Null,
        minimum_stability: None,
        prefer_stable: false,
    }
}

impl Default for ComposerJson {
    fn default() -> (r: Self)
        ensures
            r@ == empty_manifest(),
    {
        let repositories: Vec<Json> = Vec::new();
        let r = ComposerJson {
            name: None,
            require: rm_new(),
            require_dev: rm_new(),
            autoload: JsonObject::new(),
            autoload_dev: JsonObject::new(),
            repositories,
            config: Json::Null,
            minimum_stability: None,
            prefer_stable: false,
        };
        assert(r@.autoload =~= Seq::<(Seq<char>, JsonView)>::empty());
        assert(r@.autoload_dev =~= Seq::<(Seq<char>, JsonView)>::empty());
        assert(r@.repositories =~= Seq::<JsonView>::empty());
        r
    }
}

/// The manifest a JSON document describes: each known section read where
/// it has its type, and at its default where it is absent or of another
/// type; a document that is not an object describes the empty manifest.
pub open spec fn manifest_of(j: JsonView) -> ComposerJsonView {
    if !(j is Object) {
        empty_manifest()
    } else {
        let g = |k: Seq<char>| get_member(j, k);
        ComposerJsonView {
            name: match dec_opt_str(g("name"@)) { Some(v) => v, None => None },
            require: match dec_str_map(g("require"@)) { Some(v) => v, None => Seq::empty() },
            require_dev: match dec_str_map(g("require-dev"@)) { Some(v) => v, None => Seq::empty() },
            autoload: match dec_json_map(g("autoload"@)) { Some(v) => v, None => Seq::empty() },
            autoload_dev: match dec_json_map(g("autoload-dev"@)) { Some(v) => v, None => Seq::empty() },
            repositories: match dec_json_vec(g("repositories"@)) { Some(v) => v, None => Seq::empty() },
            config: dec_json(g("config"@)),
            minimum_stability: match dec_opt_str(g("minimum-stability"@)) { Some(v) => v, None => None },
            prefer_stable: match dec_bool(g("prefer-stable"@)) { Some(v) => v, None => false },
        }
    }
}

/// What `ComposerJson::from_str` gives for a text that reads as `read`:
/// the reader's message for text that is not JSON, the manifest otherwise.
pub open spec fn manifest_result(read: Result<JsonView, Seq<char>>) -> Result<ComposerJsonView, Seq<char>> {
    match read {
        Err(e) => Err(e),
        Ok(j) => Ok(manifest_of(j)),
    }
}

pub open spec fn manifest_result_view(r: Result<ComposerJson, ManifestError>) -> Result<ComposerJsonView, Seq<char>> {
    match r {
        Ok(m) => Ok(m@),
        Err(ManifestError::Json(e)) => Err(e@),
    }
}

impl ComposerJson {
    /// The manifest a JSON value describes (see `manifest_of`).
    pub fn from_json(j: &Json) -> (r: ComposerJson)
        ensures
            r@ == manifest_of(j@),
    {
        if j.as_object().is_none() {
            return ComposerJson::default();
        }
        let name = match decode_opt_str(j.get("name")) {
            Some(v) => v,
            None => None,
        };
        let require = match decode_str_map(j.get("require")) {
            Some(v) => v,
            None => rm_new(),
        };
        let require_dev = match decode_str_map(j.get("require-dev")) {
            Some(v) => v,
            None => rm_new(),
        };
        let autoload = match decode_json_map(j.get("autoload")) {
            Some(v) => v,
            None => JsonObject::new(),
        };
        let autoload_dev = match decode_json_map(j.get("autoload-dev")) {
            Some(v) => v,
            None => JsonObject::new(),
        };
        let repositories = match decode_json_vec(j.get("repositories")) {
            Some(v) => v,
            None => Vec::new(),
        };
        let minimum_stability = match decode_opt_str(j.get("minimum-stability")) {
            Some(v) => v,
            None => None,
        };
        let prefer_stable = match decode_bool(j.get("prefer-stable")) {
            Some(v) => v,
            None => false,
        };
        let config = decode_json(j.get("config"));
        let r = ComposerJson {
            name,
            require,
            require_dev,
            autoload,
            autoload_dev,
            repositories,
            config,
            minimum_stability,
            prefer_stable,
        };
        assert(r@.autoload =~= manifest_of(j@).autoload);
        assert(r@.autoload_dev =~= manifest_of(j@).autoload_dev);
        assert(r@.repositories =~= manifest_of(j@).repositories);
        r
    }

    /// Parses a `composer.json` document. Text that is not JSON is the only
    /// error, with the reader's message.
    pub fn from_str(s: &str) -> (r: Result<ComposerJson, ManifestError>)
        ensures
            manifest_result_view(r) == manifest_result(serde_json_read(s@)),
    {
        match parse_json(s) {
            Err(e) => Err(ManifestError::Json(e)),
            Ok(j) => Ok(ComposerJson::from_json(&j)),
        }
    }
}

/// The top-level keys a manifest reads.
pub open spec fn manifest_key(k: Seq<char>) -> bool {
    ||| k == "name"@
    ||| k == "require"@
    ||| k == "require-dev"@
    ||| k == "autoload"@
    ||| k == "autoload-dev"@
    ||| k == "repositories"@
    ||| k == "config"@
    ||| k == "minimum-stability"@
    ||| k == "prefer-stable"@
}

/// Unknown top-level members are ignored: a member whose key the manifest
/// does not read, wherever it stands in the object, changes nothing.
pub proof fn law_unknown_members_ignored(
    a: Seq<(Seq<char>, JsonView)>,
    x: (Seq<char>, JsonView),
    b: Seq<(Seq<char>, JsonView)>,
)
    requires
        !manifest_key(x.0),
    ensures
        manifest_of(JsonView::Object(a + seq![x] + b)) == manifest_of(JsonView::Object(a + b)),
{
    lemma_member_other_key(a, x, b, "name"@);
    lemma_member_other_key(a, x, b, "require"@);
    lemma_member_other_key(a, x, b, "require-dev"@);
    lemma_member_other_key(a, x, b, "autoload"@);
    lemma_member_other_key(a, x, b, "autoload-dev"@);
    lemma_member_other_key(a, x, b, "repositories"@);
    lemma_member_other_key(a, x, b, "config"@);
    lemma_member_other_key(a, x, b, "minimum-stability"@);
    lemma_member_other_key(a, x, b, "prefer-stable"@);
}

/// Every section may be absent: an object with none of the keys a manifest
/// reads (the empty object among them) is the empty manifest.
pub proof fn law_absent_sections_default(m: Seq<(Seq<char>, JsonView)>)
    requires
        forall|i: int| 0 <= i < m.len() ==> !manifest_key(#[trigger] m[i].0),
    ensures
        manifest_of(JsonView::Object(m)) == empty_manifest(),
{
    lemma_member_absent(m, "name"@);
    lemma_member_absent(m, "require"@);
    lemma_member_absent(m, "require-dev"@);
    lemma_member_absent(m, "autoload"@);
    lemma_member_absent(m, "autoload-dev"@);
    lemma_member_absent(m, "repositories"@);
    lemma_member_absent(m, "config"@);
    lemma_member_absent(m, "minimum-stability"@);
    lemma_member_absent(m, "prefer-stable"@);
}

/// The settings a manifest reads are the members' values: a string `name`
/// and `minimum-stability`, a boolean `prefer-stable`, the `config` value,
/// an object `autoload` and `autoload-dev`, an array `repositories`.
pub proof fn law_settings_read_as_written(j: JsonView)
    ensures
        get_member(j, "name"@) matches Some(JsonView::Str(s)) ==> manifest_of(j).name == Some(s),
        get_member(j, "minimum-stability"@) matches Some(JsonView::Str(s)) ==> manifest_of(j).minimum_stability == Some(s),
        get_member(j, "prefer-stable"@) matches Some(JsonView::Bool(b)) ==> manifest_of(j).prefer_stable == b,
        get_member(j, "config"@) matches Some(c) ==> manifest_of(j).config == c,
        get_member(j, "autoload"@) matches Some(JsonView::Object(m)) ==> manifest_of(j).autoload == m,
        get_member(j, "autoload-dev"@) matches Some(JsonView::Object(m)) ==> manifest_of(j).autoload_dev == m,
        get_member(j, "repositories"@) matches Some(JsonView::Array(a)) ==> manifest_of(j).repositories == a,
{
}

proof fn lemma_pairs_value(p: Seq<(Seq<char>, Seq<char>)>, i: int)
    requires
        0 <= i < p.len(),
        forall|k: int| i < k < p.len() ==> #[trigger] p[k].0 != p[i].0,
    ensures
        entry_value(entries_from_pairs(p), p[i].0) == Some(p[i].1),
    decreases p.len(),
{
    let q = p.drop_last();
    if i == p.len() - 1 {
        lemma_insert_entry_value(entries_from_pairs(q), p.last().0, p.last().1, p[i].0);
    } else {
        assert forall|k: int| i < k < q.len() implies #[trigger] q[k].0 != q[i].0 by {
            assert(q[k] == p[k]);
        }
        lemma_pairs_value(q, i);
        assert(p.last().0 != p[i].0);
        lemma_insert_entry_value(entries_from_pairs(q), p.last().0, p.last().1, p[i].0);
    }
}

proof fn lemma_pairs_absent(p: Seq<(Seq<char>, Seq<char>)>, key: Seq<char>)
    requires
        forall|k: int| 0 <= k < p.len() ==> #[trigger] p[k].0 != key,
    ensures
        entry_value(entries_from_pairs(p), key) is None,
    decreases p.len(),
{
    if p.len() > 0 {
        let q = p.drop_last();
        assert forall|k: int| 0 <= k < q.len() implies #[trigger] q[k].0 != key by {
            assert(q[k] == p[k]);
        }
        lemma_pairs_absent(q, key);
        lemma_insert_entry_value(entries_from_pairs(q), p.last().0, p.last().1, key);
    }
}

/// A requirement object whose values are all strings is read member for
/// member: each package maps to the constraint written for it last, and a
/// package it does not name is not required.
proof fn lemma_requirements_read(m: Seq<(Seq<char>, JsonView)>, r: Seq<(Seq<char>, Seq<char>)>)
    requires
        all_str_values(m),
        r == entries_from_pairs(str_pairs(m)),
    ensures
        forall|i: int| 0 <= i < m.len() && (forall|k: int| i < k < m.len() ==> #[trigger] m[k].0 != m[i].0)
            ==> m[i].1 is Str && entry_value(r, m[i].0) == Some(m[i].1->Str_0),
        forall|key: Seq<char>| (forall|k: int| 0 <= k < m.len() ==> #[trigger] m[k].0 != key)
            ==> #[trigger] entry_value(r, key) is None,
{
    let p = str_pairs(m);
    assert forall|i: int| 0 <= i < m.len() && (forall|k: int| i < k < m.len() ==> #[trigger] m[k].0 != m[i].0)
        implies m[i].1 is Str && entry_value(r, m[i].0) == Some(m[i].1->Str_0) by {
        assert(m[i].1 is Str);
        assert forall|k: int| i < k < p.len() implies #[trigger] p[k].0 != p[i].0 by {
            assert(m[k].0 != m[i].0);
        }
        lemma_pairs_value(p, i);
    }
    assert forall|key: Seq<char>| (forall|k: int| 0 <= k < m.len() ==> #[trigger] m[k].0 != key)
        implies #[trigger] entry_value(r, key) is None by {
        assert forall|k: int| 0 <= k < p.len() implies #[trigger] p[k].0 != key by {
            assert(m[k].0 != key);
        }
        lemma_pairs_absent(p, key);
    }
}

/// The requirements a manifest holds under `require` or `require-dev`.
pub open spec fn section_requirements(mf: ComposerJsonView, section: Seq<char>) -> Seq<(Seq<char>, Seq<char>)> {
    if section == "require"@ { mf.require } else { mf.require_dev }
}

/// The `require` and `require-dev` objects, when all their values are
/// strings, are read member for member: each package maps to the
/// constraint written for it (the last one, if written twice), and a
/// package they do not name is not required.
pub proof fn law_requirements_read_as_written(j: JsonView, section: Seq<char>, m: Seq<(Seq<char>, JsonView)>)
    requires
        section == "require"@ || section == "require-dev"@,
        get_member(j, section) == Some(JsonView::Object(m)),
        all_str_values(m),
    ensures
        forall|i: int| 0 <= i < m.len() && (forall|k: int| i < k < m.len() ==> #[trigger] m[k].0 != m[i].0)
            ==> m[i].1 is Str && entry_value(
            section_requirements(manifest_of(j), section),
            m[i].0,
        ) == Some(m[i].1->Str_0),
        forall|key: Seq<char>| (forall|k: int| 0 <= k < m.len() ==> #[trigger] m[k].0 != key) ==> #[trigger] entry_value(
            section_requirements(manifest_of(j), section),
            key,
        ) is None,
{
    let r = section_requirements(manifest_of(j), section);
    assert(j is Object);
    assert(r == entries_from_pairs(str_pairs(m)));
    lemma_requirements_read(m, r);
}

} // verus!
