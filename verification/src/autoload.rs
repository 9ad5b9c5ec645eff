//! Autoloader generation: the autoload sections of the root project and of
//! each installed package are gathered into a PSR-4 map, a classmap and a
//! list of eagerly loaded files, and rendered as the PHP files that
//! Composer's runtime expects. Maps are kept sorted by key so that the
//! output is byte-stable.
use vstd::prelude::*;
use crate::json::{elements_view, get_member, lemma_elements_view, lemma_object_view, Json, JsonView};
use crate::require_map::{entry_value, key_index, lemma_key_index};
use crate::text::{
    chars_eq, chars_lt, chars_to_string, lemma_seq_lt_irrefl, lemma_seq_lt_total, lemma_seq_lt_trans, lower_seq, lower_vec,
    push_all, push_str, seq_lt, str_chars,
};

verus! {

/// Why autoloader generation failed.
#[derive(Debug)]
pub enum AutoloadError {
    Io(String),
    Parse { package: String, detail: String },
}

impl AutoloadError {
    /// The error as text.
    pub fn message(&self) -> (r: String)
        ensures
            r@ == match self {
                AutoloadError::Io(m) => "io error: "@ + m@,
                AutoloadError::Parse { package, detail } => "autoload parse error in "@ + package@ + ": "@ + detail@,
            },
    {
        proof {
            reveal_strlit("io error: ");
            reveal_strlit("autoload parse error in ");
            reveal_strlit(": ");
        }
        let mut out: Vec<char> = Vec::new();
        match self {
            AutoloadError::Io(m) => {
                push_str(&mut out, "io error: ");
                push_str(&mut out, m.as_str());
            },
            AutoloadError::Parse { package, detail } => {
                push_str(&mut out, "autoload parse error in ");
                push_str(&mut out, package.as_str());
                push_str(&mut out, ": ");
                push_str(&mut out, detail.as_str());
            },
        }
        chars_to_string(out.as_slice())
    }
}

/// One installed package's autoload information.
#[derive(Debug)]
pub struct InstalledPackage {
    pub name: String,
    pub autoload: Json,
}

/// What autoloader generation works from.
#[derive(Debug)]
pub struct AutoloadSpec {
    /// The `vendor/` directory.
    pub vendor_dir: String,
    /// The root project's own autoload section (may be `null`).
    pub root_autoload: Json,
    /// Each installed package's autoload information.
    pub packages: Vec<InstalledPackage>,
}

/// Generates `vendor/autoload.php` and `vendor/composer/autoload_*.php`.
pub struct AutoloadGenerator;

// ---------------------------------------------------------------------------
// Paths
// ---------------------------------------------------------------------------

/// `s` without its trailing `/` characters.
pub open spec fn trim_end_slashes(s: Seq<char>) -> Seq<char>
    decreases s.len(),
{
    if s.len() > 0 && s.last() == '/' {
        trim_end_slashes(s.drop_last())
    } else {
        s
    }
}

/// `base` joined with `rel` as `Path::join` does on Unix: an absolute `rel`
/// replaces `base`; otherwise a `/` separates them unless `base` is empty
/// or already ends with one.
pub open spec fn path_join(base: Seq<char>, rel: Seq<char>) -> Seq<char> {
    if rel.len() > 0 && rel[0] == '/' {
        rel
    } else if base.len() == 0 || base.last() == '/' {
        base + rel
    } else {
        base + seq!['/'] + rel
    }
}

/// A relative autoload path resolved against a base directory, with its
/// trailing slashes removed first.
pub open spec fn resolved_path(base: Seq<char>, rel: Seq<char>) -> Seq<char> {
    path_join(base, trim_end_slashes(rel))
}

fn path_join_exec(base: &Vec<char>, rel: &Vec<char>) -> (r: Vec<char>)
    ensures
        r@ == path_join(base@, rel@),
{
    if rel.len() > 0 && rel[0] == '/' {
        let mut out: Vec<char> = Vec::new();
        push_all(&mut out, rel);
        assert(out@ =~= rel@);
        out
    } else {
        let mut out: Vec<char> = Vec::new();
        push_all(&mut out, base);
        if !(base.len() == 0 || base[base.len() - 1] == '/') {
            out.push('/');
        }
        push_all(&mut out, rel);
        assert(out@ =~= path_join(base@, rel@));
        out
    }
}

/// Resolves a relative autoload path against a base directory, trimming the
/// relative path's trailing slashes first.
pub fn resolve_path(base_dir: &str, relative: &str) -> (r: String)
    ensures
        r@ == resolved_path(base_dir@, relative@),
{
    let rel = str_chars(relative);
    let mut n: usize = rel.len();
    assert(rel@.take(n as int) =~= rel@);
    while n > 0 && rel[n - 1] == '/'
        invariant
            n <= rel.len(),
            trim_end_slashes(rel@.take(n as int)) == trim_end_slashes(rel@),
        decreases n,
    {
        assert(rel@.take(n as int).drop_last() =~= rel@.take(n - 1));
        n -= 1;
    }
    let mut trimmed: Vec<char> = Vec::new();
    let mut i: usize = 0;
    while i < n
        invariant
            i <= n <= rel.len(),
            trimmed@ == rel@.take(i as int),
        decreases n - i,
    {
        trimmed.push(rel[i]);
        i += 1;
        assert(trimmed@ =~= rel@.take(i as int));
    }
    assert(trim_end_slashes(trimmed@) == trimmed@);
    let base = str_chars(base_dir);
    let out = path_join_exec(&base, &trimmed);
    chars_to_string(out.as_slice())
}

/// The parent directory that `std::path::Path::parent` gives for a path.
pub uninterp spec fn std_path_parent(p: Seq<char>) -> Option<Seq<char>>;

/// The parent directory of a path.
///
/// Trusted: calls `std::path::Path::parent` and renders the parent with
/// `to_string_lossy` (the parent of UTF-8 text is a prefix of it, so the
/// text is kept); the contract names the outcome `std_path_parent`.
#[verifier::external_body]
fn path_parent(p: &str) -> (r: Option<String>)
    ensures
        match r {
            Some(q) => std_path_parent(p@) == Some(q@),
            None => std_path_parent(p@) is None,
        },
{
    std::path::Path::new(p).parent().map(|q| q.to_string_lossy().into_owned())
}

/// The extension that `std::path::Path::extension` gives for a path.
pub uninterp spec fn std_path_extension(p: Seq<char>) -> Option<Seq<char>>;

/// The extension of a path's file name.
///
/// Trusted: calls `std::path::Path::extension` and renders it with
/// `to_string_lossy` (a part of UTF-8 text, so the text is kept); the
/// contract names the outcome `std_path_extension`.
#[verifier::external_body]
fn path_extension(p: &str) -> (r: Option<String>)
    ensures
        match r {
            Some(e) => std_path_extension(p@) == Some(e@),
            None => std_path_extension(p@) is None,
        },
{
    std::path::Path::new(p).extension().map(|e| e.to_string_lossy().into_owned())
}

/// The file stem that `std::path::Path::file_stem` gives for a path.
pub uninterp spec fn std_file_stem(p: Seq<char>) -> Option<Seq<char>>;

/// The file name of a path without its extension.
///
/// Trusted: calls `std::path::Path::file_stem` and renders it with
/// `to_string_lossy`; the contract names the outcome `std_file_stem`.
#[verifier::external_body]
fn path_file_stem(p: &str) -> (r: Option<String>)
    ensures
        match r {
            Some(e) => std_file_stem(p@) == Some(e@),
            None => std_file_stem(p@) is None,
        },
{
    std::path::Path::new(p).file_stem().map(|e| e.to_string_lossy().into_owned())
}

/// A file found under a classmap directory is scanned for a class when its
/// extension is `php`, in any case of its ASCII letters.
pub open spec fn is_php_source(p: Seq<char>) -> bool {
    match std_path_extension(p) {
        Some(e) => lower_seq(e) == "php"@,
        None => false,
    }
}

/// Whether a file found under a classmap directory is scanned for a class.
pub fn is_php_file(path: &str) -> (r: bool)
    ensures
        r == is_php_source(path@),
{
    match path_extension(path) {
        Some(e) => {
            let l = lower_vec(&str_chars(e.as_str()));
            chars_eq(&l, &str_chars("php"))
        },
        None => false,
    }
}

/// The classmap entry of a file named directly in a `classmap` section:
/// its file stem as the class, the path as the file.
pub fn classmap_file_entry(path: &str) -> (r: Option<(String, String)>)
    ensures
        match r {
            Some(e) => std_file_stem(path@) == Some(e.0@) && e.1@ == path@,
            None => std_file_stem(path@) is None,
        },
{
    match path_file_stem(path) {
        Some(stem) => Some((stem, chars_to_string(str_chars(path).as_slice()))),
        None => None,
    }
}

/// The classmap entry of a PHP source found under a classmap directory:
/// the class it declares, and its path.
pub fn classmap_source_entry(path: &str, content: &str) -> (r: Option<(String, String)>)
    ensures
        match r {
            Some(e) => class_name_of(content@) == Some(e.0@) && e.1@ == path@,
            None => class_name_of(content@) is None,
        },
{
    match extract_class_name(content) {
        Some(c) => Some((c, chars_to_string(str_chars(path).as_slice()))),
        None => None,
    }
}

// ---------------------------------------------------------------------------
// Sorted maps
// ---------------------------------------------------------------------------

/// Scanning a map sorted by key for `k` from index `i`: `(true, j)` when
/// entry `j` has key `k`, `(false, j)` when `k` belongs before entry `j`
/// (or at the end).
pub open spec fn scan<V>(m: Seq<(Seq<char>, V)>, k: Seq<char>, i: int) -> (bool, int)
    decreases m.len() - i,
{
    if i < 0 || i >= m.len() {
        (false, m.len() as int)
    } else if m[i].0 == k {
        (true, i)
    } else if seq_lt(k, m[i].0) {
        (false, i)
    } else {
        scan(m, k, i + 1)
    }
}

/// Adds `paths` under the namespace prefix `k`: appended to its list when
/// present, otherwise a new entry in key order.
pub open spec fn psr4_add<P>(m: Seq<(Seq<char>, Seq<P>)>, k: Seq<char>, paths: Seq<P>) -> Seq<(Seq<char>, Seq<P>)> {
    let (found, j) = scan(m, k, 0);
    if found {
        m.update(j, (k, m[j].1 + paths))
    } else {
        m.insert(j, (k, paths))
    }
}

/// Maps class `k` to file `v`: replaces a present entry, otherwise a new
/// entry in key order.
pub open spec fn classmap_add(m: Seq<(Seq<char>, Seq<char>)>, k: Seq<char>, v: Seq<char>) -> Seq<(Seq<char>, Seq<char>)> {
    let (found, j) = scan(m, k, 0);
    if found {
        m.update(j, (k, v))
    } else {
        m.insert(j, (k, v))
    }
}

pub proof fn lemma_scan_bounds<V>(m: Seq<(Seq<char>, V)>, k: Seq<char>, i: int)
    requires
        0 <= i <= m.len(),
    ensures
        i <= scan(m, k, i).1 <= m.len(),
        scan(m, k, i).0 ==> scan(m, k, i).1 < m.len() && m[scan(m, k, i).1].0 == k,
    decreases m.len() - i,
{
    if i < m.len() && m[i].0 != k && !seq_lt(k, m[i].0) {
        lemma_scan_bounds(m, k, i + 1);
    }
}

pub open spec fn str_list_view(v: Seq<String>) -> Seq<Seq<char>> {
    v.map_values(|s: String| s@)
}

pub open spec fn psr4_view(m: Seq<(String, Vec<String>)>) -> Seq<(Seq<char>, Seq<Seq<char>>)> {
    m.map_values(|e: (String, Vec<String>)| (e.0@, str_list_view(e.1@)))
}

pub open spec fn classmap_view(m: Seq<(String, String)>) -> Seq<(Seq<char>, Seq<char>)> {
    m.map_values(|e: (String, String)| (e.0@, e.1@))
}

fn scan_exec<V>(m: &Vec<(String, V)>, k: &Vec<char>) -> (r: (bool, usize))
    ensures
        ({
            let mv = m@.map_values(|e: (String, V)| (e.0@, e.1));
            scan(mv, k@, 0) == (r.0, r.1 as int) && r.1 <= m@.len()
        }),
{
    let ghost mv = m@.map_values(|e: (String, V)| (e.0@, e.1));
    let mut i: usize = 0;
    while i < m.len()
        invariant
            i <= m.len(),
            mv == m@.map_values(|e: (String, V)| (e.0@, e.1)),
            scan(mv, k@, 0) == scan(mv, k@, i as int),
        decreases m.len() - i,
    {
        let key = str_chars(m[i].0.as_str());
        assert(mv[i as int].0 == key@);
        if chars_eq(&key, k) {
            return (true, i);
        }
        if chars_lt(k, &key) {
            return (false, i);
        }
        i += 1;
    }
    (false, i)
}

/// `scan` looks at keys only.
pub proof fn lemma_scan_same_keys<V, W>(a: Seq<(Seq<char>, V)>, b: Seq<(Seq<char>, W)>, k: Seq<char>, i: int)
    requires
        a.len() == b.len(),
        forall|t: int| 0 <= t < a.len() ==> #[trigger] a[t].0 == b[t].0,
    ensures
        scan(a, k, i) == scan(b, k, i),
    decreases a.len() - i,
{
    if 0 <= i < a.len() && a[i].0 != k && !seq_lt(k, a[i].0) {
        lemma_scan_same_keys(a, b, k, i + 1);
    }
}

fn append_strings(dst: &mut Vec<String>, src: &Vec<String>)
    ensures
        str_list_view(final(dst)@) == str_list_view(old(dst)@) + str_list_view(src@),
{
    let ghost start = str_list_view(dst@);
    let mut i: usize = 0;
    while i < src.len()
        invariant
            i <= src.len(),
            str_list_view(dst@) == start + str_list_view(src@).take(i as int),
        decreases src.len() - i,
    {
        let ghost before = dst@;
        let c = src[i].clone();
        assert(c@ == src@[i as int]@);
        dst.push(c);
        assert(dst@ == before.push(c));
        assert(str_list_view(dst@) =~= str_list_view(before).push(c@));
        assert(str_list_view(src@).take(i + 1) =~= str_list_view(src@).take(i as int).push(src@[i as int]@));
        i += 1;
    }
    assert(str_list_view(src@).take(src.len() as int) =~= str_list_view(src@));
}

/// Adds `paths` under the namespace prefix `k` of a PSR-4 map.
pub fn psr4_insert(m: &mut Vec<(String, Vec<String>)>, k: String, paths: Vec<String>)
    ensures
        psr4_view(final(m)@) == psr4_add(psr4_view(old(m)@), k@, str_list_view(paths@)),
{
    let ghost mv = psr4_view(m@);
    let kv = str_chars(k.as_str());
    let (found, j) = scan_exec(m, &kv);
    proof {
        let raw = m@.map_values(|e: (String, Vec<String>)| (e.0@, e.1));
        assert forall|t: int| 0 <= t < mv.len() implies #[trigger] mv[t].0 == raw[t].0 by {}
        lemma_scan_same_keys(mv, raw, k@, 0);
        lemma_scan_bounds(mv, k@, 0);
    }
    if found {
        let mut merged: Vec<String> = Vec::new();
        append_strings(&mut merged, &m[j].1);
        append_strings(&mut merged, &paths);
        assert(str_list_view(merged@) =~= mv[j as int].1 + str_list_view(paths@));
        m.set(j, (k, merged));
        assert(psr4_view(m@) =~= mv.update(j as int, (kv@, mv[j as int].1 + str_list_view(paths@))));
    } else {
        let ghost pv = str_list_view(paths@);
        m.insert(j, (k, paths));
        assert(psr4_view(m@) =~= mv.insert(j as int, (kv@, pv)));
    }
}

/// Maps class `k` to file `v` in a classmap.
pub fn classmap_insert(m: &mut Vec<(String, String)>, k: String, v: String)
    ensures
        classmap_view(final(m)@) == classmap_add(classmap_view(old(m)@), k@, v@),
{
    let ghost mv = classmap_view(m@);
    let kv = str_chars(k.as_str());
    let (found, j) = scan_exec(m, &kv);
    proof {
        let raw = m@.map_values(|e: (String, String)| (e.0@, e.1));
        assert forall|t: int| 0 <= t < mv.len() implies #[trigger] mv[t].0 == raw[t].0 by {}
        lemma_scan_same_keys(mv, raw, k@, 0);
        lemma_scan_bounds(mv, k@, 0);
    }
    let ghost vv = v@;
    if found {
        m.set(j, (k, v));
        assert(classmap_view(m@) =~= mv.update(j as int, (kv@, vv)));
    } else {
        m.insert(j, (k, v));
        assert(classmap_view(m@) =~= mv.insert(j as int, (kv@, vv)));
    }
}

// ---------------------------------------------------------------------------
// Gathering autoload sections
// ---------------------------------------------------------------------------

/// The strings among `a`, in order.
pub open spec fn strings_in(a: Seq<JsonView>) -> Seq<Seq<char>>
    decreases a.len(),
{
    if a.len() == 0 {
        Seq::empty()
    } else {
        let r = strings_in(a.drop_last());
        if a.last() is Str { r.push(a.last()->Str_0) } else { r }
    }
}

/// The paths of a PSR-4 (or PSR-0) value: a string, or the strings of an
/// array; nothing for any other value.
pub open spec fn path_strings(v: JsonView) -> Seq<Seq<char>> {
    match v {
        JsonView::Str(s) => seq![s],
        JsonView::Array(a) => strings_in(a),
        _ => Seq::empty(),
    }
}

pub open spec fn resolve_all(base: Seq<char>, ps: Seq<Seq<char>>) -> Seq<Seq<char>> {
    Seq::new(ps.len(), |i: int| resolved_path(base, ps[i]))
}

/// Adds each namespace prefix of a PSR-4 object, in order.
pub open spec fn add_prefixes(
    m: Seq<(Seq<char>, Seq<Seq<char>>)>,
    entries: Seq<(Seq<char>, JsonView)>,
    base: Seq<char>,
) -> Seq<(Seq<char>, Seq<Seq<char>>)>
    decreases entries.len(),
{
    if entries.len() == 0 {
        m
    } else {
        psr4_add(add_prefixes(m, entries.drop_last(), base), entries.last().0, resolve_all(base, path_strings(entries.last().1)))
    }
}

/// What has been gathered so far: the PSR-4 map, the classmap paths still
/// to be scanned, and the files to load eagerly.
pub struct Collected {
    pub psr4: Vec<(String, Vec<String>)>,
    pub classmap_paths: Vec<String>,
    pub files: Vec<String>,
}

pub struct CollectedView {
    pub psr4: Seq<(Seq<char>, Seq<Seq<char>>)>,
    pub classmap_paths: Seq<Seq<char>>,
    pub files: Seq<Seq<char>>,
}

impl View for Collected {
    type V = CollectedView;

    open spec fn view(&self) -> CollectedView {
        CollectedView {
            psr4: psr4_view(self.psr4@),
            classmap_paths: str_list_view(self.classmap_paths@),
            files: str_list_view(self.files@),
        }
    }
}

/// Gathers one autoload section, with paths relative to `base`: its
/// `psr-4` map, then its `classmap` paths, then its `files`, then its
/// `psr-0` map (kept with the PSR-4 entries). A section that is not an
/// object adds nothing.
pub open spec fn collect_section(j: JsonView, base: Seq<char>, c: CollectedView) -> CollectedView {
    if !(j is Object) {
        c
    } else {
        let c1 = match get_member(j, "psr-4"@) {
            Some(JsonView::Object(m)) => CollectedView { psr4: add_prefixes(c.psr4, m, base), ..c },
            _ => c,
        };
        let c2 = match get_member(j, "classmap"@) {
            Some(JsonView::Array(a)) => CollectedView { classmap_paths: c1.classmap_paths + resolve_all(base, strings_in(a)), ..c1 },
            _ => c1,
        };
        let c3 = match get_member(j, "files"@) {
            Some(JsonView::Array(a)) => CollectedView { files: c2.files + resolve_all(base, strings_in(a)), ..c2 },
            _ => c2,
        };
        match get_member(j, "psr-0"@) {
            Some(JsonView::Object(m)) => CollectedView { psr4: add_prefixes(c3.psr4, m, base), ..c3 },
            _ => c3,
        }
    }
}

fn string_paths(v: &Json) -> (r: Vec<String>)
    ensures
        str_list_view(r@) == path_strings(v@),
{
    match v {
        Json::Str(s) => {
            let mut r: Vec<String> = Vec::new();
            r.push(s.clone());
            assert(str_list_view(r@) =~= seq![s@]);
            r
        },
        Json::Array(a) => strings_of_array(a),
        _ => {
            let r: Vec<String> = Vec::new();
            assert(str_list_view(r@) =~= Seq::<Seq<char>>::empty());
            r
        },
    }
}

fn strings_of_array(a: &Vec<Json>) -> (r: Vec<String>)
    ensures
        str_list_view(r@) == strings_in(elements_view(*a)),
{
    let ghost av = elements_view(*a);
    proof {
        lemma_elements_view(*a);
        assert(av.take(0) =~= Seq::<JsonView>::empty());
    }
    let mut r: Vec<String> = Vec::new();
    let mut i: usize = 0;
    while i < a.len()
        invariant
            i <= a.len(),
            av == elements_view(*a),
            av.len() == a@.len(),
            forall|k: int| 0 <= k < a@.len() ==> #[trigger] av[k] == a@[k]@,
            str_list_view(r@) == strings_in(av.take(i as int)),
        decreases a.len() - i,
    {
        let ghost before = r@;
        assert(av.take(i + 1).drop_last() =~= av.take(i as int));
        match &a[i] {
            Json::Str(s) => {
                r.push(s.clone());
                assert(str_list_view(r@) =~= str_list_view(before).push(s@));
            },
            _ => {},
        }
        i += 1;
    }
    assert(av.take(a.len() as int) =~= av);
    r
}

fn resolve_each(base: &str, ps: &Vec<String>) -> (r: Vec<String>)
    ensures
        str_list_view(r@) == resolve_all(base@, str_list_view(ps@)),
{
    let mut r: Vec<String> = Vec::new();
    let mut i: usize = 0;
    while i < ps.len()
        invariant
            i <= ps.len(),
            r@.len() == i,
            forall|k: int| 0 <= k < i ==> #[trigger] r@[k]@ == resolved_path(base@, ps@[k]@),
        decreases ps.len() - i,
    {
        r.push(resolve_path(base, ps[i].as_str()));
        i += 1;
    }
    assert(str_list_view(r@) =~= resolve_all(base@, str_list_view(ps@)));
    r
}

fn add_prefixes_exec(m: &mut Vec<(String, Vec<String>)>, obj: &crate::json::JsonObject, base: &str)
    ensures
        psr4_view(final(m)@) == add_prefixes(psr4_view(old(m)@), obj@, base@),
{
    let ghost start = psr4_view(m@);
    let ghost ov = obj@;
    proof {
        lemma_object_view(*obj);
        assert(ov.take(0) =~= Seq::<(Seq<char>, JsonView)>::empty());
    }
    let mut i: usize = 0;
    while i < obj.entries.len()
        invariant
            i <= obj.entries.len(),
            ov == obj@,
            ov.len() == obj.entries@.len(),
            forall|k: int| 0 <= k < obj.entries@.len() ==> #[trigger] ov[k] == (obj.entries@[k].0@, obj.entries@[k].1@),
            psr4_view(m@) == add_prefixes(start, ov.take(i as int), base@),
        decreases obj.entries.len() - i,
    {
        let ps = string_paths(&obj.entries[i].1);
        let resolved = resolve_each(base, &ps);
        assert(ov.take(i + 1).drop_last() =~= ov.take(i as int));
        assert(ov.take(i + 1).last() == ov[i as int]);
        psr4_insert(m, obj.entries[i].0.clone(), resolved);
        i += 1;
    }
    assert(ov.take(obj.entries.len() as int) =~= ov);
}

/// Gathers one autoload section into `c`.
pub fn collect_autoload(autoload: &Json, base_dir: &str, c: &mut Collected)
    ensures
        final(c)@ == collect_section(autoload@, base_dir@, old(c)@),
{
    proof {
        reveal_strlit("psr-4");
        reveal_strlit("classmap");
        reveal_strlit("files");
        reveal_strlit("psr-0");
    }
    if autoload.as_object().is_none() {
        return;
    }
    match autoload.get("psr-4") {
        Some(Json::Object(m)) => add_prefixes_exec(&mut c.psr4, m, base_dir),
        _ => {},
    }
    match autoload.get("classmap") {
        Some(Json::Array(a)) => {
            let ps = strings_of_array(a);
            let rs = resolve_each(base_dir, &ps);
            append_strings(&mut c.classmap_paths, &rs);
        },
        _ => {},
    }
    match autoload.get("files") {
        Some(Json::Array(a)) => {
            let ps = strings_of_array(a);
            let rs = resolve_each(base_dir, &ps);
            append_strings(&mut c.files, &rs);
        },
        _ => {},
    }
    match autoload.get("psr-0") {
        Some(Json::Object(m)) => add_prefixes_exec(&mut c.psr4, m, base_dir),
        _ => {},
    }
}

pub struct AutoloadSpecView {
    pub vendor_dir: Seq<char>,
    pub root_autoload: JsonView,
    pub packages: Seq<(Seq<char>, JsonView)>,
}

impl View for AutoloadSpec {
    type V = AutoloadSpecView;

    open spec fn view(&self) -> AutoloadSpecView {
        AutoloadSpecView {
            vendor_dir: self.vendor_dir@,
            root_autoload: self.root_autoload@,
            packages: self.packages@.map_values(|p: InstalledPackage| (p.name@, p.autoload@)),
        }
    }
}

/// The directory the root project's autoload paths are relative to: the
/// parent of `vendor/`, or `vendor/` itself when it has none.
pub open spec fn root_base(vendor: Seq<char>) -> Seq<char> {
    match std_path_parent(vendor) {
        Some(p) => p,
        None => vendor,
    }
}

/// Gathers the packages' sections in order, each relative to
/// `vendor/<name>`.
pub open spec fn collect_packages(c: CollectedView, vendor: Seq<char>, pkgs: Seq<(Seq<char>, JsonView)>) -> CollectedView
    decreases pkgs.len(),
{
    if pkgs.len() == 0 {
        c
    } else {
        collect_section(pkgs.last().1, path_join(vendor, pkgs.last().0), collect_packages(c, vendor, pkgs.drop_last()))
    }
}

pub open spec fn empty_collected() -> CollectedView {
    CollectedView { psr4: Seq::empty(), classmap_paths: Seq::empty(), files: Seq::empty() }
}

/// Everything an autoloader is generated from: the root section first,
/// then each package's.
pub open spec fn collected(spec: AutoloadSpecView) -> CollectedView {
    collect_packages(
        collect_section(spec.root_autoload, root_base(spec.vendor_dir), empty_collected()),
        spec.vendor_dir,
        spec.packages,
    )
}

// ---------------------------------------------------------------------------
// Rendering
// ---------------------------------------------------------------------------

/// How the character at `i` of `s` is written inside a PHP single-quoted
/// literal: `'` as `\'`; a `\` that is followed by `\` or `'`, or that
/// ends the text, as `\\`; any other character as itself (PHP reads a
/// lone backslash before another character literally).
pub open spec fn php_char(s: Seq<char>, i: int) -> Seq<char> {
    if s[i] == '\'' {
        seq!['\\', '\'']
    } else if s[i] == '\\' && (i + 1 == s.len() || s[i + 1] == '\\' || s[i + 1] == '\'') {
        seq!['\\', '\\']
    } else {
        seq![s[i]]
    }
}

/// The first `n` characters of `s` as written inside a PHP single-quoted
/// literal.
pub open spec fn escaped_prefix(s: Seq<char>, n: int) -> Seq<char>
    decreases n,
{
    if n <= 0 {
        Seq::empty()
    } else {
        escaped_prefix(s, n - 1) + php_char(s, n - 1)
    }
}

/// `s` as the body of a PHP single-quoted literal that reads back as `s`.
pub open spec fn escaped(s: Seq<char>) -> Seq<char> {
    escaped_prefix(s, s.len() as int)
}

/// How PHP reads a single-quoted literal from the text after its opening
/// quote: `\\` and `\'` stand for `\` and `'`, any other backslash for
/// itself, and the first other `'` closes it. The value read and the text
/// after the closing quote, or nothing when the literal is not closed.
pub open spec fn php_single_quoted(t: Seq<char>) -> Option<(Seq<char>, Seq<char>)>
    decreases t.len(),
{
    if t.len() == 0 {
        None
    } else if t[0] == '\'' {
        Some((Seq::empty(), t.skip(1)))
    } else if t[0] == '\\' && t.len() >= 2 && (t[1] == '\\' || t[1] == '\'') {
        match php_single_quoted(t.skip(2)) {
            Some(r) => Some((seq![t[1]] + r.0, r.1)),
            None => None,
        }
    } else {
        match php_single_quoted(t.skip(1)) {
            Some(r) => Some((seq![t[0]] + r.0, r.1)),
            None => None,
        }
    }
}

proof fn lemma_escaped_first(s: Seq<char>, n: int)
    requires
        1 <= n <= s.len(),
    ensures
        escaped_prefix(s, n) == php_char(s, 0) + escaped_prefix(s.skip(1), n - 1),
    decreases n,
{
    if n > 1 {
        lemma_escaped_first(s, n - 1);
        assert(php_char(s, n - 1) == php_char(s.skip(1), n - 2));
        assert(escaped_prefix(s.skip(1), n - 1) == escaped_prefix(s.skip(1), n - 2) + php_char(s.skip(1), n - 2));
        assert(escaped_prefix(s, n) =~= php_char(s, 0) + escaped_prefix(s.skip(1), n - 1));
    } else {
        assert(escaped_prefix(s, 0) =~= Seq::<char>::empty());
        assert(escaped_prefix(s.skip(1), 0) =~= Seq::<char>::empty());
        assert(escaped_prefix(s, 1) =~= php_char(s, 0) + escaped_prefix(s.skip(1), 0));
    }
}

/// A text written by `escaped` and closed by `'` reads back, in PHP, as
/// the text itself, and the reading ends right after that quote.
pub proof fn law_php_literal_reads_back(s: Seq<char>, tail: Seq<char>)
    ensures
        php_single_quoted(escaped(s) + seq!['\''] + tail) == Some((s, tail)),
    decreases s.len(),
{
    let t = escaped(s) + seq!['\''] + tail;
    if s.len() == 0 {
        assert(escaped(s) =~= Seq::<char>::empty());
        assert(t.skip(1) =~= tail);
    } else {
        let s1 = s.skip(1);
        lemma_escaped_first(s, s.len() as int);
        law_php_literal_reads_back(s1, tail);
        let rest = escaped(s1) + seq!['\''] + tail;
        let c = php_char(s, 0);
        assert(t =~= c + rest);
        if s.len() > 1 {
            lemma_escaped_first(s1, s1.len() as int);
            assert(php_char(s1, 0)[0] == rest[0]);
        } else {
            assert(escaped(s1) =~= Seq::<char>::empty());
            assert(rest[0] == '\'');
        }
        if c.len() == 2 {
            assert(t.skip(2) =~= rest);
            assert(seq![t[1]] + s1 =~= s);
        } else {
            assert(t.skip(1) =~= rest);
            assert(seq![t[0]] + s1 =~= s);
        }
    }
}

/// `'p1', 'p2', ...`, each path escaped.
pub open spec fn quoted_list(ps: Seq<Seq<char>>) -> Seq<char>
    decreases ps.len(),
{
    if ps.len() == 0 {
        Seq::empty()
    } else if ps.len() == 1 {
        seq!['\''] + escaped(ps[0]) + seq!['\'']
    } else {
        quoted_list(ps.drop_last()) + ", '"@ + escaped(ps.last()) + seq!['\'']
    }
}

pub open spec fn php_header(file: Seq<char>) -> Seq<char> {
    "<?php\n\n// "@ + file + " @generated by Tusk\n\nreturn array(\n"@
}

pub open spec fn psr4_lines(m: Seq<(Seq<char>, Seq<Seq<char>>)>) -> Seq<char>
    decreases m.len(),
{
    if m.len() == 0 {
        Seq::empty()
    } else {
        psr4_lines(m.drop_last()) + "  '"@ + escaped(m.last().0) + "' => array("@ + quoted_list(m.last().1) + "),\n"@
    }
}

pub open spec fn classmap_lines(m: Seq<(Seq<char>, Seq<char>)>) -> Seq<char>
    decreases m.len(),
{
    if m.len() == 0 {
        Seq::empty()
    } else {
        classmap_lines(m.drop_last()) + "  '"@ + escaped(m.last().0) + "' => '"@ + escaped(m.last().1) + "',\n"@
    }
}

pub open spec fn files_lines(fs: Seq<Seq<char>>) -> Seq<char>
    decreases fs.len(),
{
    if fs.len() == 0 {
        Seq::empty()
    } else {
        files_lines(fs.drop_last()) + "  '"@ + escaped(fs.last()) + "',\n"@
    }
}

/// `vendor/composer/autoload_psr4.php` for the map `m`.
pub open spec fn psr4_php(m: Seq<(Seq<char>, Seq<Seq<char>>)>) -> Seq<char> {
    php_header("autoload_psr4.php"@) + psr4_lines(m) + ");\n"@
}

/// `vendor/composer/autoload_classmap.php` for the classmap `m`.
pub open spec fn classmap_php(m: Seq<(Seq<char>, Seq<char>)>) -> Seq<char> {
    php_header("autoload_classmap.php"@) + classmap_lines(m) + ");\n"@
}

/// `vendor/composer/autoload_files.php` for the files `fs`.
pub open spec fn files_php(fs: Seq<Seq<char>>) -> Seq<char> {
    php_header("autoload_files.php"@) + files_lines(fs) + ");\n"@
}

fn push_escaped(out: &mut Vec<char>, s: &str)
    ensures
        final(out)@ == old(out)@ + escaped(s@),
{
    let v = str_chars(s);
    let ghost start = out@;
    let n = v.len();
    let mut i: usize = 0;
    while i < n
        invariant
            i <= n,
            n == v.len(),
            v@ == s@,
            out@ == start + escaped_prefix(v@, i as int),
        decreases n - i,
    {
        let c = v[i];
        if c == '\'' {
            out.push('\\');
            out.push('\'');
        } else if c == '\\' && (i + 1 == n || v[i + 1] == '\\' || v[i + 1] == '\'') {
            out.push('\\');
            out.push('\\');
        } else {
            out.push(c);
        }
        i += 1;
        assert(out@ =~= start + escaped_prefix(v@, i as int));
    }
}

fn push_header(out: &mut Vec<char>, file: &str)
    ensures
        final(out)@ == old(out)@ + php_header(file@),
{
    let ghost start = out@;
    push_str(out, "<?php\n\n// ");
    push_str(out, file);
    push_str(out, " @generated by Tusk\n\nreturn array(\n");
    assert(out@ =~= start + php_header(file@));
}

impl AutoloadGenerator {
    /// Gathers the root section (paths relative to the parent of `vendor/`)
    /// and then each package's (relative to `vendor/<name>`).
    pub fn collect(spec: &AutoloadSpec) -> (r: Collected)
        ensures
            r@ == collected(spec@),
    {
        let mut c = Collected { psr4: Vec::new(), classmap_paths: Vec::new(), files: Vec::new() };
        assert(c@ =~= empty_collected()) by {
            assert(psr4_view(c.psr4@) =~= Seq::<(Seq<char>, Seq<Seq<char>>)>::empty());
            assert(str_list_view(c.classmap_paths@) =~= Seq::<Seq<char>>::empty());
            assert(str_list_view(c.files@) =~= Seq::<Seq<char>>::empty());
        }
        let base = match path_parent(spec.vendor_dir.as_str()) {
            Some(p) => p,
            None => spec.vendor_dir.clone(),
        };
        collect_autoload(&spec.root_autoload, base.as_str(), &mut c);
        let ghost pkgs = spec@.packages;
        let ghost c0 = c@;
        let vendor = str_chars(spec.vendor_dir.as_str());
        let mut i: usize = 0;
        assert(pkgs.take(0) =~= Seq::<(Seq<char>, JsonView)>::empty());
        while i < spec.packages.len()
            invariant
                i <= spec.packages.len(),
                pkgs == spec@.packages,
                vendor@ == spec.vendor_dir@,
                c@ == collect_packages(c0, spec.vendor_dir@, pkgs.take(i as int)),
            decreases spec.packages.len() - i,
        {
            let name = str_chars(spec.packages[i].name.as_str());
            let dir = path_join_exec(&vendor, &name);
            let dir_s = chars_to_string(dir.as_slice());
            assert(pkgs.take(i + 1).drop_last() =~= pkgs.take(i as int));
            assert(pkgs.take(i + 1).last() == pkgs[i as int]);
            collect_autoload(&spec.packages[i].autoload, dir_s.as_str(), &mut c);
            i += 1;
        }
        assert(pkgs.take(spec.packages.len() as int) =~= pkgs);
        c
    }

    /// The PSR-4 file for the map `m`.
    pub fn render_psr4(m: &Vec<(String, Vec<String>)>) -> (r: String)
        ensures
            r@ == psr4_php(psr4_view(m@)),
    {
        proof {
            reveal_strlit("autoload_psr4.php");
            reveal_strlit("'");
            reveal_strlit(", ");
            reveal_strlit(", '");
        }
        let ghost mv = psr4_view(m@);
        let mut out: Vec<char> = Vec::new();
        push_header(&mut out, "autoload_psr4.php");
        let ghost start = out@;
        let mut i: usize = 0;
        assert(mv.take(0) =~= Seq::<(Seq<char>, Seq<Seq<char>>)>::empty());
        while i < m.len()
            invariant
                i <= m.len(),
                mv == psr4_view(m@),
                out@ == start + psr4_lines(mv.take(i as int)),
            decreases m.len() - i,
        {
            let ghost before = out@;
            push_str(&mut out, "  '");
            push_escaped(&mut out, m[i].0.as_str());
            push_str(&mut out, "' => array(");
            let paths = &m[i].1;
            let ghost pv = str_list_view(paths@);
            let ghost mid = out@;
            let mut q: usize = 0;
            assert(pv.take(0) =~= Seq::<Seq<char>>::empty());
            while q < paths.len()
                invariant
                    q <= paths.len(),
                    pv == str_list_view(paths@),
                    out@ == mid + quoted_list(pv.take(q as int)),
                decreases paths.len() - q,
            {
                proof {
                    reveal_strlit("'");
                    reveal_strlit(", ");
                    reveal_strlit(", '");
                }
                assert(pv.take(q + 1).drop_last() =~= pv.take(q as int));
                assert(pv.take(q + 1).last() == paths@[q as int]@);
                if q == 0 {
                    assert(pv.take(q + 1) =~= seq![paths@[0]@]);
                }
                if q > 0 {
                    push_str(&mut out, ", ");
                }
                push_str(&mut out, "'");
                push_escaped(&mut out, paths[q].as_str());
                push_str(&mut out, "'");
                q += 1;
                assert(out@ =~= mid + quoted_list(pv.take(q as int)));
            }
            assert(pv.take(paths.len() as int) =~= pv);
            push_str(&mut out, "),\n");
            assert(mv.take(i + 1).drop_last() =~= mv.take(i as int));
            assert(mv[i as int] == (m@[i as int].0@, pv));
            i += 1;
            assert(out@ =~= start + psr4_lines(mv.take(i as int)));
        }
        assert(mv.take(m.len() as int) =~= mv);
        push_str(&mut out, ");\n");
        chars_to_string(out.as_slice())
    }

    /// The classmap file for the classmap `m`.
    pub fn render_classmap(m: &Vec<(String, String)>) -> (r: String)
        ensures
            r@ == classmap_php(classmap_view(m@)),
    {
        proof {
            reveal_strlit("autoload_classmap.php");
        }
        let ghost mv = classmap_view(m@);
        let mut out: Vec<char> = Vec::new();
        push_header(&mut out, "autoload_classmap.php");
        let ghost start = out@;
        let mut i: usize = 0;
        assert(mv.take(0) =~= Seq::<(Seq<char>, Seq<char>)>::empty());
        while i < m.len()
            invariant
                i <= m.len(),
                mv == classmap_view(m@),
                out@ == start + classmap_lines(mv.take(i as int)),
            decreases m.len() - i,
        {
            push_str(&mut out, "  '");
            push_escaped(&mut out, m[i].0.as_str());
            push_str(&mut out, "' => '");
            push_escaped(&mut out, m[i].1.as_str());
            push_str(&mut out, "',\n");
            assert(mv.take(i + 1).drop_last() =~= mv.take(i as int));
            i += 1;
            assert(out@ =~= start + classmap_lines(mv.take(i as int)));
        }
        assert(mv.take(m.len() as int) =~= mv);
        push_str(&mut out, ");\n");
        chars_to_string(out.as_slice())
    }

    /// The eager-load file for the files `fs`.
    pub fn render_files(fs: &Vec<String>) -> (r: String)
        ensures
            r@ == files_php(str_list_view(fs@)),
    {
        proof {
            reveal_strlit("autoload_files.php");
        }
        let ghost fv = str_list_view(fs@);
        let mut out: Vec<char> = Vec::new();
        push_header(&mut out, "autoload_files.php");
        let ghost start = out@;
        let mut i: usize = 0;
        assert(fv.take(0) =~= Seq::<Seq<char>>::empty());
        while i < fs.len()
            invariant
                i <= fs.len(),
                fv == str_list_view(fs@),
                out@ == start + files_lines(fv.take(i as int)),
            decreases fs.len() - i,
        {
            push_str(&mut out, "  '");
            push_escaped(&mut out, fs[i].as_str());
            push_str(&mut out, "',\n");
            assert(fv.take(i + 1).drop_last() =~= fv.take(i as int));
            i += 1;
            assert(out@ =~= start + files_lines(fv.take(i as int)));
        }
        assert(fv.take(fs.len() as int) =~= fv);
        push_str(&mut out, ");\n");
        chars_to_string(out.as_slice())
    }
}

/// `vendor/autoload.php`: loads the three maps, registers a PSR-4 lookup
/// with a classmap fallback, and requires the eager files.
pub const AUTOLOAD_PHP: &'static str = r"<?php
// autoload.php @generated by Tusk

$tuskPsr4 = require __DIR__ . '/composer/autoload_psr4.php';
$tuskClassmap = require __DIR__ . '/composer/autoload_classmap.php';
$tuskFiles = require __DIR__ . '/composer/autoload_files.php';

spl_autoload_register(function (string $class) use (&$tuskPsr4, &$tuskClassmap): void {
    // PSR-4 lookup
    $prefix = $class;
    while (false !== $pos = strrpos($prefix, '\\')) {
        $prefix = substr($class, 0, $pos + 1);
        $relativeClass = substr($class, $pos + 1);
        if (isset($tuskPsr4[$prefix])) {
            foreach ($tuskPsr4[$prefix] as $baseDir) {
                $file = $baseDir . DIRECTORY_SEPARATOR . str_replace('\\', '/', $relativeClass) . '.php';
                if (is_file($file)) {
                    require $file;
                    return;
                }
            }
        }
        $prefix = rtrim($prefix, '\\');
    }

    // Classmap fallback
    if (isset($tuskClassmap[$class])) {
        require $tuskClassmap[$class];
    }
});

// Eager-require files
foreach ($tuskFiles as $file) {
    require_once $file;
}

return true;
";

// ---------------------------------------------------------------------------
// Class names in PHP source
// ---------------------------------------------------------------------------

/// Unicode white space, as `char::is_whitespace` classifies it.
pub open spec fn is_ws(c: char) -> bool {
    c == '\t' || c == '\n' || c == '\u{0B}' || c == '\u{0C}' || c == '\r' || c == ' ' || c == '\u{85}'
        || c == '\u{A0}' || c == '\u{1680}' || ('\u{2000}' <= c && c <= '\u{200A}') || c == '\u{2028}'
        || c == '\u{2029}' || c == '\u{202F}' || c == '\u{205F}' || c == '\u{3000}'
}

pub open spec fn trim_start(s: Seq<char>) -> Seq<char>
    decreases s.len(),
{
    if s.len() > 0 && is_ws(s[0]) { trim_start(s.drop_first()) } else { s }
}

pub open spec fn trim_end(s: Seq<char>) -> Seq<char>
    decreases s.len(),
{
    if s.len() > 0 && is_ws(s.last()) { trim_end(s.drop_last()) } else { s }
}

/// `str::trim`: white space removed at both ends.
pub open spec fn trim(s: Seq<char>) -> Seq<char> {
    trim_end(trim_start(s))
}

pub open spec fn begins_with(s: Seq<char>, p: Seq<char>) -> bool {
    p.len() <= s.len() && s.take(p.len() as int) == p
}

/// `str::trim_start_matches` with a non-empty text: every leading copy of
/// `p` removed.
pub open spec fn strip_all_prefix(s: Seq<char>, p: Seq<char>) -> Seq<char>
    decreases s.len(),
{
    if p.len() > 0 && begins_with(s, p) { strip_all_prefix(s.skip(p.len() as int), p) } else { s }
}

/// `str::trim_end_matches` with a character: every trailing `c` removed.
pub open spec fn strip_all_suffix(s: Seq<char>, c: char) -> Seq<char>
    decreases s.len(),
{
    if s.len() > 0 && s.last() == c { strip_all_suffix(s.drop_last(), c) } else { s }
}

/// Index of the first character of `s` from `i` on that satisfies `ws`
/// (white space when `ws`, a newline otherwise), or the length.
pub open spec fn find_from(s: Seq<char>, i: int, ws: bool) -> int
    decreases s.len() - i,
{
    if i < 0 || i >= s.len() {
        s.len() as int
    } else if (ws && is_ws(s[i])) || (!ws && s[i] == '\n') {
        i
    } else {
        find_from(s, i + 1, ws)
    }
}

/// The first white-space separated word of `s`.
pub open spec fn first_word(s: Seq<char>) -> Option<Seq<char>> {
    let t = trim_start(s);
    if t.len() == 0 { None } else { Some(t.take(find_from(t, 0, true))) }
}

/// The namespace declared by the first line (lines split at `\n`, trimmed)
/// that starts with `namespace `: the rest of the line without trailing
/// `;`, trimmed.
pub open spec fn namespace_of(s: Seq<char>) -> Option<Seq<char>>
    decreases s.len(),
{
    let e = find_from(s, 0, false);
    let t = trim(s.take(e));
    if begins_with(t, "namespace "@) {
        Some(trim(strip_all_suffix(strip_all_prefix(t, "namespace "@), ';')))
    } else if 0 <= e < s.len() {
        namespace_of(s.skip(e + 1))
    } else {
        None
    }
}

/// A trimmed line that declares a class.
pub open spec fn declares_class(t: Seq<char>) -> bool {
    begins_with(t, "class "@) || begins_with(t, "abstract class "@) || begins_with(t, "final class "@)
}

/// What follows the class keywords of a declaring line.
pub open spec fn after_class_keywords(t: Seq<char>) -> Seq<char> {
    strip_all_prefix(strip_all_prefix(strip_all_prefix(t, "abstract "@), "final "@), "class "@)
}

/// The name declared by the first line that declares a class and names
/// one.
pub open spec fn class_of(s: Seq<char>) -> Option<Seq<char>>
    decreases s.len(),
{
    let e = find_from(s, 0, false);
    let t = trim(s.take(e));
    if declares_class(t) && first_word(after_class_keywords(t)) is Some {
        first_word(after_class_keywords(t))
    } else if 0 <= e < s.len() {
        class_of(s.skip(e + 1))
    } else {
        None
    }
}

/// The fully qualified class name a PHP source declares: namespace, `\`
/// and class; the class alone without a namespace;
/// nothing without a class.
pub open spec fn class_name_of(s: Seq<char>) -> Option<Seq<char>> {
    match (namespace_of(s), class_of(s)) {
        (Some(ns), Some(c)) => Some(ns + seq!['\\'] + c),
        (None, Some(c)) => Some(c),
        _ => None,
    }
}

fn is_ws_exec(c: char) -> (r: bool)
    ensures
        r == is_ws(c),
{
    c == '\t' || c == '\n' || c == '\u{0B}' || c == '\u{0C}' || c == '\r' || c == ' ' || c == '\u{85}'
        || c == '\u{A0}' || c == '\u{1680}' || ('\u{2000}' <= c && c <= '\u{200A}') || c == '\u{2028}'
        || c == '\u{2029}' || c == '\u{202F}' || c == '\u{205F}' || c == '\u{3000}'
}

fn find_from_exec(s: &Vec<char>, start: usize, ws: bool) -> (r: usize)
    requires
        start <= s.len(),
    ensures
        r as int == find_from(s@, start as int, ws),
        start <= r <= s.len(),
{
    let mut i = start;
    while i < s.len() && !((ws && is_ws_exec(s[i])) || (!ws && s[i] == '\n'))
        invariant
            start <= i <= s.len(),
            find_from(s@, start as int, ws) == find_from(s@, i as int, ws),
        decreases s.len() - i,
    {
        i += 1;
    }
    i
}

fn trim_exec(s: &Vec<char>) -> (r: Vec<char>)
    ensures
        r@ == trim(s@),
{
    let mut lo: usize = 0;
    assert(s@.skip(0) =~= s@);
    while lo < s.len() && is_ws_exec(s[lo])
        invariant
            lo <= s.len(),
            trim_start(s@) == trim_start(s@.skip(lo as int)),
        decreases s.len() - lo,
    {
        assert(s@.skip(lo as int).drop_first() =~= s@.skip(lo + 1));
        lo += 1;
    }
    assert(trim_start(s@.skip(lo as int)) == s@.skip(lo as int));
    let mut hi: usize = s.len();
    assert(s@.skip(lo as int).take(hi - lo) =~= s@.skip(lo as int));
    while hi > lo && is_ws_exec(s[hi - 1])
        invariant
            lo <= hi <= s.len(),
            trim_end(s@.skip(lo as int)) == trim_end(s@.subrange(lo as int, hi as int)),
        decreases hi,
    {
        assert(s@.subrange(lo as int, hi as int).drop_last() =~= s@.subrange(lo as int, hi - 1));
        hi -= 1;
    }
    assert(s@.skip(lo as int) =~= s@.subrange(lo as int, s.len() as int));
    sub_vec_local(s, lo, hi)
}

fn sub_vec_local(s: &Vec<char>, lo: usize, hi: usize) -> (r: Vec<char>)
    requires
        lo <= hi <= s.len(),
    ensures
        r@ == s@.subrange(lo as int, hi as int),
{
    crate::text::sub_vec(s, lo, hi)
}

fn begins_with_exec(s: &Vec<char>, p: &Vec<char>) -> (r: bool)
    ensures
        r == begins_with(s@, p@),
{
    if p.len() > s.len() {
        return false;
    }
    let head = sub_vec_local(s, 0, p.len());
    assert(head@ == s@.take(p.len() as int));
    chars_eq(&head, p)
}

fn strip_all_prefix_exec(s: &Vec<char>, p: &Vec<char>) -> (r: Vec<char>)
    ensures
        r@ == strip_all_prefix(s@, p@),
{
    if p.len() == 0 {
        return sub_vec_local(s, 0, s.len());
    }
    let mut cur = sub_vec_local(s, 0, s.len());
    assert(cur@ =~= s@);
    while begins_with_exec(&cur, p)
        invariant
            p@.len() > 0,
            strip_all_prefix(s@, p@) == strip_all_prefix(cur@, p@),
        decreases cur@.len(),
    {
        let next = sub_vec_local(&cur, p.len(), cur.len());
        assert(next@ =~= cur@.skip(p@.len() as int));
        cur = next;
    }
    cur
}

fn strip_all_suffix_exec(s: &Vec<char>, c: char) -> (r: Vec<char>)
    ensures
        r@ == strip_all_suffix(s@, c),
{
    let mut hi: usize = s.len();
    assert(s@.take(hi as int) =~= s@);
    while hi > 0 && s[hi - 1] == c
        invariant
            hi <= s.len(),
            strip_all_suffix(s@, c) == strip_all_suffix(s@.take(hi as int), c),
        decreases hi,
    {
        assert(s@.take(hi as int).drop_last() =~= s@.take(hi - 1));
        hi -= 1;
    }
    sub_vec_local(s, 0, hi)
}

fn first_word_exec(s: &Vec<char>) -> (r: Option<Vec<char>>)
    ensures
        match r {
            Some(w) => first_word(s@) == Some(w@),
            None => first_word(s@) is None,
        },
{
    let mut lo: usize = 0;
    assert(s@.skip(0) =~= s@);
    while lo < s.len() && is_ws_exec(s[lo])
        invariant
            lo <= s.len(),
            trim_start(s@) == trim_start(s@.skip(lo as int)),
        decreases s.len() - lo,
    {
        assert(s@.skip(lo as int).drop_first() =~= s@.skip(lo + 1));
        lo += 1;
    }
    let t = sub_vec_local(s, lo, s.len());
    assert(t@ =~= s@.skip(lo as int));
    if t.len() == 0 {
        return None;
    }
    let e = find_from_exec(&t, 0, true);
    Some(sub_vec_local(&t, 0, e))
}

fn literal(s: &str) -> (r: Vec<char>)
    ensures
        r@ == s@,
{
    str_chars(s)
}

/// The fully qualified class name that a PHP source declares (see
/// `class_name_of`).
pub fn extract_class_name(php: &str) -> (r: Option<String>)
    ensures
        match r {
            Some(n) => class_name_of(php@) == Some(n@),
            None => class_name_of(php@) is None,
        },
{
    let s = str_chars(php);
    let kw_ns = literal("namespace ");
    let kw_class = literal("class ");
    let kw_abstract_class = literal("abstract class ");
    let kw_final_class = literal("final class ");
    let kw_abstract = literal("abstract ");
    let kw_final = literal("final ");
    // The namespace.
    let mut ns: Option<Vec<char>> = None;
    let mut pos: usize = 0;
    let mut searching = true;
    assert(s@.skip(0) =~= s@);
    while searching
        invariant
            pos <= s.len(),
            kw_ns@ == "namespace "@,
            searching ==> namespace_of(s@) == namespace_of(s@.skip(pos as int)),
            searching ==> ns is None,
            !searching ==> match ns {
                Some(v) => namespace_of(s@) == Some(v@),
                None => namespace_of(s@) is None,
            },
        decreases s.len() - pos + if searching { 1int } else { 0int },
    {
        let ghost rest = s@.skip(pos as int);
        let e = find_from_exec(&s, pos, false);
        assert(find_from(rest, 0, false) == e - pos) by {
            lemma_find_from_shift(s@, pos as int, pos as int, false);
        }
        let line = sub_vec_local(&s, pos, e);
        assert(line@ =~= rest.take(e - pos));
        let t = trim_exec(&line);
        if begins_with_exec(&t, &kw_ns) {
            let a = strip_all_prefix_exec(&t, &kw_ns);
            let b = strip_all_suffix_exec(&a, ';');
            let d = trim_exec(&b);
            assert(namespace_of(rest) == Some(d@));
            ns = Some(d);
            searching = false;
        } else if e < s.len() {
            assert(rest.skip(e - pos + 1) =~= s@.skip(e + 1));
            assert(namespace_of(rest) == namespace_of(rest.skip(e - pos + 1)));
            pos = e + 1;
        } else {
            assert(namespace_of(rest) is None);
            searching = false;
        }
    }
    // The class.
    let mut cls: Option<Vec<char>> = None;
    pos = 0;
    searching = true;
    while searching
        invariant
            pos <= s.len(),
            kw_class@ == "class "@,
            kw_abstract_class@ == "abstract class "@,
            kw_final_class@ == "final class "@,
            kw_abstract@ == "abstract "@,
            kw_final@ == "final "@,
            searching ==> class_of(s@) == class_of(s@.skip(pos as int)),
            searching ==> cls is None,
            !searching ==> match cls {
                Some(v) => class_of(s@) == Some(v@),
                None => class_of(s@) is None,
            },
        decreases s.len() - pos + if searching { 1int } else { 0int },
    {
        let ghost rest = s@.skip(pos as int);
        let e = find_from_exec(&s, pos, false);
        assert(find_from(rest, 0, false) == e - pos) by {
            lemma_find_from_shift(s@, pos as int, pos as int, false);
        }
        let line = sub_vec_local(&s, pos, e);
        assert(line@ =~= rest.take(e - pos));
        let t = trim_exec(&line);
        let declares = begins_with_exec(&t, &kw_class) || begins_with_exec(&t, &kw_abstract_class)
            || begins_with_exec(&t, &kw_final_class);
        let mut word: Option<Vec<char>> = None;
        if declares {
            let a = strip_all_prefix_exec(&t, &kw_abstract);
            let b = strip_all_prefix_exec(&a, &kw_final);
            let c = strip_all_prefix_exec(&b, &kw_class);
            word = first_word_exec(&c);
        }
        assert(declares == declares_class(t@));
        if word.is_some() {
            assert(class_of(rest) == Some(word->Some_0@));
            cls = word;
            searching = false;
        } else if e < s.len() {
            assert(rest.skip(e - pos + 1) =~= s@.skip(e + 1));
            assert(class_of(rest) == class_of(rest.skip(e - pos + 1)));
            pos = e + 1;
        } else {
            assert(class_of(rest) is None);
            searching = false;
        }
    }
    proof {
        reveal_strlit("namespace ");
    }
    match (ns, cls) {
        (Some(n), Some(c)) => {
            let mut out = n;
            out.push('\\');
            let ghost before = out@;
            crate::text::push_all(&mut out, &c);
            Some(chars_to_string(out.as_slice()))
        },
        (None, Some(c)) => Some(chars_to_string(c.as_slice())),
        _ => None,
    }
}

/// `find_from` on a suffix is `find_from` on the whole, shifted.
proof fn lemma_find_from_shift(s: Seq<char>, start: int, i: int, ws: bool)
    requires
        0 <= start <= i <= s.len(),
    ensures
        find_from(s.skip(start), i - start, ws) == find_from(s, i, ws) - start,
    decreases s.len() - i,
{
    if i < s.len() {
        assert(s.skip(start)[i - start] == s[i]);
        lemma_find_from_shift(s, start, i + 1, ws);
    }
}

// ---------------------------------------------------------------------------
// Map laws
// ---------------------------------------------------------------------------

/// Keys strictly increasing (hence distinct).
pub open spec fn keys_sorted<V>(m: Seq<(Seq<char>, V)>) -> bool {
    forall|i: int, j: int| 0 <= i < j < m.len() ==> seq_lt(#[trigger] m[i].0, #[trigger] m[j].0)
}

/// On a sorted map, `scan` stops at the key or at its place.
proof fn lemma_scan_sorted<V>(m: Seq<(Seq<char>, V)>, k: Seq<char>, i: int)
    requires
        keys_sorted(m),
        0 <= i <= m.len(),
        forall|t: int| 0 <= t < i ==> seq_lt(#[trigger] m[t].0, k),
    ensures
        i <= scan(m, k, i).1 <= m.len(),
        forall|t: int| 0 <= t < scan(m, k, i).1 ==> seq_lt(#[trigger] m[t].0, k),
        scan(m, k, i).0 ==> scan(m, k, i).1 < m.len() && m[scan(m, k, i).1].0 == k,
        !scan(m, k, i).0 ==> forall|t: int| scan(m, k, i).1 <= t < m.len() ==> seq_lt(k, #[trigger] m[t].0),
    decreases m.len() - i,
{
    if i < m.len() {
        if m[i].0 == k {
        } else if seq_lt(k, m[i].0) {
            assert forall|t: int| i <= t < m.len() implies seq_lt(k, #[trigger] m[t].0) by {
                if t > i {
                    lemma_seq_lt_trans(k, m[i].0, m[t].0);
                }
            }
        } else {
            lemma_seq_lt_total(m[i].0, k);
            lemma_scan_sorted(m, k, i + 1);
        }
    }
}

/// On a map with distinct keys, the entry found for `x` is the one whose
/// key is `x`.
proof fn lemma_key_index_unique<V>(m: Seq<(Seq<char>, V)>, x: Seq<char>, i: int)
    requires
        keys_sorted(m),
        0 <= i < m.len(),
        m[i].0 == x,
    ensures
        key_index(m, x) == i,
{
    lemma_key_index(m, x);
    let ki = key_index(m, x);
    if ki != i {
        if ki >= 0 && ki < i {
            lemma_seq_lt_irrefl(x);
            assert(seq_lt(m[ki].0, m[i].0));
        }
    }
}

proof fn lemma_key_absent<V>(m: Seq<(Seq<char>, V)>, x: Seq<char>)
    requires
        forall|t: int| 0 <= t < m.len() ==> #[trigger] m[t].0 != x,
    ensures
        key_index(m, x) == -1,
{
    lemma_key_index(m, x);
}

/// Adding to a sorted map by `scan`: keys stay sorted, the key `k` holds
/// `f` of its earlier value, and every other key keeps its value.
proof fn lemma_sorted_add<V>(m: Seq<(Seq<char>, V)>, k: Seq<char>, r: Seq<(Seq<char>, V)>, newv: V)
    requires
        keys_sorted(m),
        ({
            let (found, j) = scan(m, k, 0);
            if found { r == m.update(j, (k, newv)) } else { r == m.insert(j, (k, newv)) }
        }),
    ensures
        keys_sorted(r),
        entry_value(r, k) == Some(newv),
        forall|x: Seq<char>| x != k ==> #[trigger] entry_value(r, x) == entry_value(m, x),
{
    lemma_scan_sorted(m, k, 0);
    let (found, j) = scan(m, k, 0);
    if found {
        assert forall|a: int, b: int| 0 <= a < b < r.len() implies seq_lt(#[trigger] r[a].0, #[trigger] r[b].0) by {
            assert(r[a].0 == m[a].0 && r[b].0 == m[b].0);
        }
        lemma_key_index_unique(r, k, j);
        assert forall|x: Seq<char>| x != k implies #[trigger] entry_value(r, x) == entry_value(m, x) by {
            if exists|t: int| 0 <= t < m.len() && m[t].0 == x {
                let t = choose|t: int| 0 <= t < m.len() && m[t].0 == x;
                lemma_key_index_unique(m, x, t);
                lemma_key_index_unique(r, x, t);
            } else {
                lemma_key_absent(m, x);
                assert forall|t: int| 0 <= t < r.len() implies #[trigger] r[t].0 != x by {
                    assert(r[t].0 == m[t].0);
                }
                lemma_key_absent(r, x);
            }
        }
    } else {
        assert forall|a: int| 0 <= a < r.len() implies (a < j ==> #[trigger] r[a] == m[a]) && (a == j ==> r[a] == (k, newv))
            && (a > j ==> r[a] == m[a - 1]) by {}
        assert forall|a: int, b: int| 0 <= a < b < r.len() implies seq_lt(#[trigger] r[a].0, #[trigger] r[b].0) by {
            if a == j {
                assert(r[b] == m[b - 1]);
            } else if b == j {
                assert(r[a] == m[a]);
            } else {
                let a2 = if a < j { a } else { a - 1 };
                let b2 = if b < j { b } else { b - 1 };
                assert(r[a] == m[a2] && r[b] == m[b2]);
                assert(a2 < b2);
            }
        }
        lemma_key_index_unique(r, k, j);
        assert forall|x: Seq<char>| x != k implies #[trigger] entry_value(r, x) == entry_value(m, x) by {
            if exists|t: int| 0 <= t < m.len() && m[t].0 == x {
                let t = choose|t: int| 0 <= t < m.len() && m[t].0 == x;
                lemma_key_index_unique(m, x, t);
                if t < j {
                    assert(r[t] == m[t]);
                    lemma_key_index_unique(r, x, t);
                } else {
                    assert(r[t + 1] == m[t]);
                    lemma_key_index_unique(r, x, t + 1);
                }
            } else {
                lemma_key_absent(m, x);
                assert forall|t: int| 0 <= t < r.len() implies #[trigger] r[t].0 != x by {
                    if t < j {
                        assert(r[t] == m[t]);
                    } else if t > j {
                        assert(r[t] == m[t - 1]);
                    }
                }
                lemma_key_absent(r, x);
            }
        }
    }
}

/// Adding to a PSR-4 map whose prefixes are sorted keeps them sorted; the
/// prefix then maps to its earlier paths followed by the new ones, and
/// every other prefix keeps its paths.
pub proof fn law_psr4_add(m: Seq<(Seq<char>, Seq<Seq<char>>)>, k: Seq<char>, paths: Seq<Seq<char>>)
    requires
        keys_sorted(m),
    ensures
        keys_sorted(psr4_add(m, k, paths)),
        entry_value(psr4_add(m, k, paths), k) == Some(
            match entry_value(m, k) {
                Some(old) => old + paths,
                None => paths,
            },
        ),
        forall|x: Seq<char>| x != k ==> #[trigger] entry_value(psr4_add(m, k, paths), x) == entry_value(m, x),
{
    lemma_scan_sorted(m, k, 0);
    let (found, j) = scan(m, k, 0);
    if found {
        lemma_key_index_unique(m, k, j);
        lemma_sorted_add(m, k, psr4_add(m, k, paths), m[j].1 + paths);
    } else {
        assert forall|t: int| 0 <= t < m.len() implies #[trigger] m[t].0 != k by {
            lemma_seq_lt_irrefl(k);
        }
        lemma_key_absent(m, k);
        lemma_sorted_add(m, k, psr4_add(m, k, paths), paths);
    }
}

/// Adding to a classmap whose classes are sorted keeps them sorted; the
/// class then maps to the new file, and every other class keeps its file.
pub proof fn law_classmap_add(m: Seq<(Seq<char>, Seq<char>)>, k: Seq<char>, v: Seq<char>)
    requires
        keys_sorted(m),
    ensures
        keys_sorted(classmap_add(m, k, v)),
        entry_value(classmap_add(m, k, v), k) == Some(v),
        forall|x: Seq<char>| x != k ==> #[trigger] entry_value(classmap_add(m, k, v), x) == entry_value(m, x),
{
    lemma_sorted_add(m, k, classmap_add(m, k, v), v);
}

/// The PSR-4 map gathered from any autoload section is sorted by prefix
/// when the map it started from was.
pub proof fn law_collected_psr4_sorted(j: JsonView, base: Seq<char>, c: CollectedView)
    requires
        keys_sorted(c.psr4),
    ensures
        keys_sorted(collect_section(j, base, c).psr4),
{
    if j is Object {
        if let Some(JsonView::Object(m)) = get_member(j, "psr-4"@) {
            lemma_add_prefixes_sorted(c.psr4, m, base);
        }
        let c1 = match get_member(j, "psr-4"@) {
            Some(JsonView::Object(m)) => CollectedView { psr4: add_prefixes(c.psr4, m, base), ..c },
            _ => c,
        };
        if let Some(JsonView::Object(m)) = get_member(j, "psr-0"@) {
            lemma_add_prefixes_sorted(c1.psr4, m, base);
        }
    }
}

proof fn lemma_add_prefixes_sorted(m: Seq<(Seq<char>, Seq<Seq<char>>)>, entries: Seq<(Seq<char>, JsonView)>, base: Seq<char>)
    requires
        keys_sorted(m),
    ensures
        keys_sorted(add_prefixes(m, entries, base)),
    decreases entries.len(),
{
    if entries.len() > 0 {
        lemma_add_prefixes_sorted(m, entries.drop_last(), base);
        law_psr4_add(add_prefixes(m, entries.drop_last(), base), entries.last().0, resolve_all(base, path_strings(entries.last().1)));
    }
}

/// The PSR-4 map gathered for an autoloader is sorted by prefix, whatever
/// the order of the packages, so the rendered file is byte-stable.
pub proof fn law_autoload_psr4_sorted(spec: AutoloadSpecView)
    ensures
        keys_sorted(collected(spec).psr4),
{
    law_collected_psr4_sorted(spec.root_autoload, root_base(spec.vendor_dir), empty_collected());
    lemma_collect_packages_sorted(
        collect_section(spec.root_autoload, root_base(spec.vendor_dir), empty_collected()),
        spec.vendor_dir,
        spec.packages,
    );
}

proof fn lemma_collect_packages_sorted(c: CollectedView, vendor: Seq<char>, pkgs: Seq<(Seq<char>, JsonView)>)
    requires
        keys_sorted(c.psr4),
    ensures
        keys_sorted(collect_packages(c, vendor, pkgs).psr4),
    decreases pkgs.len(),
{
    if pkgs.len() > 0 {
        lemma_collect_packages_sorted(c, vendor, pkgs.drop_last());
        law_collected_psr4_sorted(pkgs.last().1, path_join(vendor, pkgs.last().0), collect_packages(c, vendor, pkgs.drop_last()));
    }
}


/// The PSR-4 prefixes in order, each with its number of paths.
pub open spec fn psr4_shape(m: Seq<(Seq<char>, Seq<Seq<char>>)>) -> Seq<(Seq<char>, nat)> {
    Seq::new(m.len(), |i: int| (m[i].0, m[i].1.len()))
}

/// What an autoloader holds apart from the directories in its paths.
pub open spec fn collected_shape(c: CollectedView) -> (Seq<(Seq<char>, nat)>, nat, nat) {
    (psr4_shape(c.psr4), c.classmap_paths.len(), c.files.len())
}

proof fn lemma_scan_shape(m1: Seq<(Seq<char>, Seq<Seq<char>>)>, m2: Seq<(Seq<char>, Seq<Seq<char>>)>, k: Seq<char>, i: int)
    requires
        psr4_shape(m1) == psr4_shape(m2),
    ensures
        scan(m1, k, i) == scan(m2, k, i),
    decreases m1.len() - i,
{
    assert(m1.len() == psr4_shape(m1).len());
    if 0 <= i < m1.len() {
        assert(psr4_shape(m1)[i] == psr4_shape(m2)[i]);
        assert(m1[i].0 == m2[i].0);
        lemma_scan_shape(m1, m2, k, i + 1);
    }
}

proof fn lemma_add_shape(
    m1: Seq<(Seq<char>, Seq<Seq<char>>)>,
    m2: Seq<(Seq<char>, Seq<Seq<char>>)>,
    k: Seq<char>,
    p1: Seq<Seq<char>>,
    p2: Seq<Seq<char>>,
)
    requires
        psr4_shape(m1) == psr4_shape(m2),
        p1.len() == p2.len(),
    ensures
        psr4_shape(psr4_add(m1, k, p1)) == psr4_shape(psr4_add(m2, k, p2)),
{
    lemma_scan_shape(m1, m2, k, 0);
    lemma_scan_bounds(m1, k, 0);
    assert(m1.len() == psr4_shape(m1).len() && m2.len() == psr4_shape(m2).len());
    assert forall|i: int| 0 <= i < m1.len() implies m1[i].0 == m2[i].0 && m1[i].1.len() == m2[i].1.len() by {
        assert(psr4_shape(m1)[i] == psr4_shape(m2)[i]);
    }
    let a1 = psr4_add(m1, k, p1);
    let a2 = psr4_add(m2, k, p2);
    assert(psr4_shape(a1) =~= psr4_shape(a2));
}

proof fn lemma_prefixes_shape(
    m1: Seq<(Seq<char>, Seq<Seq<char>>)>,
    m2: Seq<(Seq<char>, Seq<Seq<char>>)>,
    e: Seq<(Seq<char>, JsonView)>,
    b1: Seq<char>,
    b2: Seq<char>,
)
    requires
        psr4_shape(m1) == psr4_shape(m2),
    ensures
        psr4_shape(add_prefixes(m1, e, b1)) == psr4_shape(add_prefixes(m2, e, b2)),
    decreases e.len(),
{
    if e.len() > 0 {
        lemma_prefixes_shape(m1, m2, e.drop_last(), b1, b2);
        lemma_add_shape(
            add_prefixes(m1, e.drop_last(), b1),
            add_prefixes(m2, e.drop_last(), b2),
            e.last().0,
            resolve_all(b1, path_strings(e.last().1)),
            resolve_all(b2, path_strings(e.last().1)),
        );
    }
}

proof fn lemma_section_shape(j: JsonView, b1: Seq<char>, b2: Seq<char>, c1: CollectedView, c2: CollectedView)
    requires
        collected_shape(c1) == collected_shape(c2),
    ensures
        collected_shape(collect_section(j, b1, c1)) == collected_shape(collect_section(j, b2, c2)),
{
    if j is Object {
        match get_member(j, "psr-4"@) {
            Some(JsonView::Object(m)) => lemma_prefixes_shape(c1.psr4, c2.psr4, m, b1, b2),
            _ => {},
        }
        let d1 = match get_member(j, "psr-4"@) {
            Some(JsonView::Object(m)) => add_prefixes(c1.psr4, m, b1),
            _ => c1.psr4,
        };
        let d2 = match get_member(j, "psr-4"@) {
            Some(JsonView::Object(m)) => add_prefixes(c2.psr4, m, b2),
            _ => c2.psr4,
        };
        match get_member(j, "psr-0"@) {
            Some(JsonView::Object(m)) => lemma_prefixes_shape(d1, d2, m, b1, b2),
            _ => {},
        }
    }
}

proof fn lemma_packages_shape(c1: CollectedView, c2: CollectedView, v1: Seq<char>, v2: Seq<char>, pkgs: Seq<(Seq<char>, JsonView)>)
    requires
        collected_shape(c1) == collected_shape(c2),
    ensures
        collected_shape(collect_packages(c1, v1, pkgs)) == collected_shape(collect_packages(c2, v2, pkgs)),
    decreases pkgs.len(),
{
    if pkgs.len() > 0 {
        lemma_packages_shape(c1, c2, v1, v2, pkgs.drop_last());
        lemma_section_shape(
            pkgs.last().1,
            path_join(v1, pkgs.last().0),
            path_join(v2, pkgs.last().0),
            collect_packages(c1, v1, pkgs.drop_last()),
            collect_packages(c2, v2, pkgs.drop_last()),
        );
    }
}

/// Two autoloaders generated for the same root section and packages under
/// different vendor directories differ only in the directories of their
/// paths: the same PSR-4 prefixes in the same order, each with as many
/// paths, and as many classmap paths and eager files.
pub proof fn law_autoload_independent_of_vendor_dir(a: AutoloadSpecView, b: AutoloadSpecView)
    requires
        a.root_autoload == b.root_autoload,
        a.packages == b.packages,
    ensures
        collected_shape(collected(a)) == collected_shape(collected(b)),
{
    assert(collected_shape(empty_collected()) == collected_shape(empty_collected()));
    lemma_section_shape(a.root_autoload, root_base(a.vendor_dir), root_base(b.vendor_dir), empty_collected(), empty_collected());
    lemma_packages_shape(
        collect_section(a.root_autoload, root_base(a.vendor_dir), empty_collected()),
        collect_section(b.root_autoload, root_base(b.vendor_dir), empty_collected()),
        a.vendor_dir,
        b.vendor_dir,
        a.packages,
    );
}
// ---------------------------------------------------------------------------
// Every written path is gathered
// ---------------------------------------------------------------------------

/// The PSR-4 map `m` lists path `p` under prefix `k`.
pub open spec fn has_path(m: Seq<(Seq<char>, Seq<Seq<char>>)>, k: Seq<char>, p: Seq<char>) -> bool {
    exists|q: int| #![trigger m[q]] 0 <= q < m.len() && m[q].0 == k && m[q].1.contains(p)
}

/// A PSR-4 (or PSR-0) value names path `s`: it is the string `s`, or an
/// array with `s` among its elements.
pub open spec fn names_path(v: JsonView, s: Seq<char>) -> bool {
    v == JsonView::Str(s) || (v is Array && exists|i: int| #![trigger v->Array_0[i]] 0 <= i < v->Array_0.len()
        && v->Array_0[i] == JsonView::Str(s))
}

proof fn lemma_add_keeps_path(m: Seq<(Seq<char>, Seq<Seq<char>>)>, k2: Seq<char>, ps: Seq<Seq<char>>, k: Seq<char>, p: Seq<char>)
    requires
        has_path(m, k, p),
    ensures
        has_path(psr4_add(m, k2, ps), k, p),
{
    lemma_scan_bounds(m, k2, 0);
    let (found, j) = scan(m, k2, 0);
    let r = psr4_add(m, k2, ps);
    let q = choose|q: int| #![trigger m[q]] 0 <= q < m.len() && m[q].0 == k && m[q].1.contains(p);
    let w = choose|w: int| 0 <= w < m[q].1.len() && m[q].1[w] == p;
    if found {
        if q == j {
            assert((m[j].1 + ps)[w] == p);
            assert(r[j].0 == k && r[j].1.contains(p));
        } else {
            assert(r[q] == m[q]);
        }
    } else {
        if q < j {
            assert(r[q] == m[q]);
        } else {
            assert(r[q + 1] == m[q]);
        }
    }
}

proof fn lemma_add_gives_path(m: Seq<(Seq<char>, Seq<Seq<char>>)>, k: Seq<char>, ps: Seq<Seq<char>>, x: Seq<char>)
    requires
        ps.contains(x),
    ensures
        has_path(psr4_add(m, k, ps), k, x),
{
    lemma_scan_bounds(m, k, 0);
    let (found, j) = scan(m, k, 0);
    let r = psr4_add(m, k, ps);
    let w = choose|w: int| 0 <= w < ps.len() && ps[w] == x;
    if found {
        assert((m[j].1 + ps)[m[j].1.len() + w] == x);
        assert(r[j].0 == k && r[j].1.contains(x));
    } else {
        assert(r[j].0 == k && r[j].1.contains(x));
    }
}

proof fn lemma_prefixes_keep_path(
    m: Seq<(Seq<char>, Seq<Seq<char>>)>,
    e: Seq<(Seq<char>, JsonView)>,
    base: Seq<char>,
    k: Seq<char>,
    p: Seq<char>,
)
    requires
        has_path(m, k, p),
    ensures
        has_path(add_prefixes(m, e, base), k, p),
    decreases e.len(),
{
    if e.len() > 0 {
        lemma_prefixes_keep_path(m, e.drop_last(), base, k, p);
        lemma_add_keeps_path(add_prefixes(m, e.drop_last(), base), e.last().0, resolve_all(base, path_strings(e.last().1)), k, p);
    }
}

proof fn lemma_strings_in_has(a: Seq<JsonView>, i: int, s: Seq<char>)
    requires
        0 <= i < a.len(),
        a[i] == JsonView::Str(s),
    ensures
        strings_in(a).contains(s),
    decreases a.len(),
{
    if i == a.len() - 1 {
        assert(strings_in(a) == strings_in(a.drop_last()).push(s));
        assert(strings_in(a)[strings_in(a).len() - 1] == s);
    } else {
        assert(a.drop_last()[i] == a[i]);
        lemma_strings_in_has(a.drop_last(), i, s);
        let w = choose|w: int| 0 <= w < strings_in(a.drop_last()).len() && strings_in(a.drop_last())[w] == s;
        if a.last() is Str {
            assert(strings_in(a)[w] == s);
        }
    }
}

proof fn lemma_value_paths(v: JsonView, base: Seq<char>, s: Seq<char>)
    requires
        names_path(v, s),
    ensures
        resolve_all(base, path_strings(v)).contains(resolved_path(base, s)),
{
    let ps = path_strings(v);
    let w = if v == JsonView::Str(s) {
        assert(ps[0] == s);
        0
    } else {
        let a = v->Array_0;
        let i = choose|i: int| #![trigger a[i]] 0 <= i < a.len() && a[i] == JsonView::Str(s);
        lemma_strings_in_has(a, i, s);
        choose|w: int| 0 <= w < ps.len() && ps[w] == s
    };
    assert(resolve_all(base, ps)[w] == resolved_path(base, s));
}

proof fn lemma_prefixes_give_path(
    m: Seq<(Seq<char>, Seq<Seq<char>>)>,
    e: Seq<(Seq<char>, JsonView)>,
    base: Seq<char>,
    t: int,
    s: Seq<char>,
)
    requires
        0 <= t < e.len(),
        names_path(e[t].1, s),
    ensures
        has_path(add_prefixes(m, e, base), e[t].0, resolved_path(base, s)),
    decreases e.len(),
{
    let prev = add_prefixes(m, e.drop_last(), base);
    if t == e.len() - 1 {
        lemma_value_paths(e[t].1, base, s);
        lemma_add_gives_path(prev, e.last().0, resolve_all(base, path_strings(e.last().1)), resolved_path(base, s));
    } else {
        assert(e.drop_last()[t] == e[t]);
        lemma_prefixes_give_path(m, e.drop_last(), base, t, s);
        lemma_add_keeps_path(prev, e.last().0, resolve_all(base, path_strings(e.last().1)), e[t].0, resolved_path(base, s));
    }
}

proof fn lemma_section_keeps_path(j: JsonView, base: Seq<char>, c: CollectedView, k: Seq<char>, p: Seq<char>)
    requires
        has_path(c.psr4, k, p),
    ensures
        has_path(collect_section(j, base, c).psr4, k, p),
{
    if j is Object {
        let d1 = match get_member(j, "psr-4"@) {
            Some(JsonView::Object(m)) => add_prefixes(c.psr4, m, base),
            _ => c.psr4,
        };
        match get_member(j, "psr-4"@) {
            Some(JsonView::Object(m)) => lemma_prefixes_keep_path(c.psr4, m, base, k, p),
            _ => {},
        }
        match get_member(j, "psr-0"@) {
            Some(JsonView::Object(m)) => lemma_prefixes_keep_path(d1, m, base, k, p),
            _ => {},
        }
    }
}

proof fn lemma_section_gives_path(
    j: JsonView,
    base: Seq<char>,
    c: CollectedView,
    sec: Seq<char>,
    m: Seq<(Seq<char>, JsonView)>,
    t: int,
    s: Seq<char>,
)
    requires
        sec == "psr-4"@ || sec == "psr-0"@,
        get_member(j, sec) == Some(JsonView::Object(m)),
        0 <= t < m.len(),
        names_path(m[t].1, s),
    ensures
        has_path(collect_section(j, base, c).psr4, m[t].0, resolved_path(base, s)),
{
    assert(j is Object);
    let d1 = match get_member(j, "psr-4"@) {
        Some(JsonView::Object(m4)) => add_prefixes(c.psr4, m4, base),
        _ => c.psr4,
    };
    if sec == "psr-4"@ {
        lemma_prefixes_give_path(c.psr4, m, base, t, s);
        match get_member(j, "psr-0"@) {
            Some(JsonView::Object(m0)) => lemma_prefixes_keep_path(d1, m0, base, m[t].0, resolved_path(base, s)),
            _ => {},
        }
    } else {
        lemma_prefixes_give_path(d1, m, base, t, s);
    }
}

proof fn lemma_packages_keep_path(c: CollectedView, v: Seq<char>, pkgs: Seq<(Seq<char>, JsonView)>, k: Seq<char>, p: Seq<char>)
    requires
        has_path(c.psr4, k, p),
    ensures
        has_path(collect_packages(c, v, pkgs).psr4, k, p),
    decreases pkgs.len(),
{
    if pkgs.len() > 0 {
        lemma_packages_keep_path(c, v, pkgs.drop_last(), k, p);
        lemma_section_keeps_path(pkgs.last().1, path_join(v, pkgs.last().0), collect_packages(c, v, pkgs.drop_last()), k, p);
    }
}

proof fn lemma_packages_give_path(
    c: CollectedView,
    v: Seq<char>,
    pkgs: Seq<(Seq<char>, JsonView)>,
    pi: int,
    sec: Seq<char>,
    m: Seq<(Seq<char>, JsonView)>,
    t: int,
    s: Seq<char>,
)
    requires
        0 <= pi < pkgs.len(),
        sec == "psr-4"@ || sec == "psr-0"@,
        get_member(pkgs[pi].1, sec) == Some(JsonView::Object(m)),
        0 <= t < m.len(),
        names_path(m[t].1, s),
    ensures
        has_path(collect_packages(c, v, pkgs).psr4, m[t].0, resolved_path(path_join(v, pkgs[pi].0), s)),
    decreases pkgs.len(),
{
    let prev = collect_packages(c, v, pkgs.drop_last());
    if pi == pkgs.len() - 1 {
        lemma_section_gives_path(pkgs.last().1, path_join(v, pkgs.last().0), prev, sec, m, t, s);
    } else {
        assert(pkgs.drop_last()[pi] == pkgs[pi]);
        lemma_packages_give_path(c, v, pkgs.drop_last(), pi, sec, m, t, s);
        lemma_section_keeps_path(pkgs.last().1, path_join(v, pkgs.last().0), prev, m[t].0, resolved_path(path_join(v, pkgs[pi].0), s));
    }
}

/// Every path a package's `psr-4` (or `psr-0`) section writes for a
/// prefix, as a string or as any element of an array, is gathered under
/// that prefix, resolved against the package's directory.
pub proof fn law_package_paths_all_gathered(
    spec: AutoloadSpecView,
    pi: int,
    sec: Seq<char>,
    m: Seq<(Seq<char>, JsonView)>,
    t: int,
    s: Seq<char>,
)
    requires
        0 <= pi < spec.packages.len(),
        sec == "psr-4"@ || sec == "psr-0"@,
        get_member(spec.packages[pi].1, sec) == Some(JsonView::Object(m)),
        0 <= t < m.len(),
        names_path(m[t].1, s),
    ensures
        has_path(collected(spec).psr4, m[t].0, resolved_path(path_join(spec.vendor_dir, spec.packages[pi].0), s)),
{
    lemma_packages_give_path(
        collect_section(spec.root_autoload, root_base(spec.vendor_dir), empty_collected()),
        spec.vendor_dir,
        spec.packages,
        pi,
        sec,
        m,
        t,
        s,
    );
}

/// Every path the root project's `psr-4` (or `psr-0`) section writes for a
/// prefix, as a string or as any element of an array, is gathered under
/// that prefix, resolved against the project directory.
pub proof fn law_root_paths_all_gathered(spec: AutoloadSpecView, sec: Seq<char>, m: Seq<(Seq<char>, JsonView)>, t: int, s: Seq<char>)
    requires
        sec == "psr-4"@ || sec == "psr-0"@,
        get_member(spec.root_autoload, sec) == Some(JsonView::Object(m)),
        0 <= t < m.len(),
        names_path(m[t].1, s),
    ensures
        has_path(collected(spec).psr4, m[t].0, resolved_path(root_base(spec.vendor_dir), s)),
{
    let c0 = collect_section(spec.root_autoload, root_base(spec.vendor_dir), empty_collected());
    lemma_section_gives_path(spec.root_autoload, root_base(spec.vendor_dir), empty_collected(), sec, m, t, s);
    lemma_packages_keep_path(c0, spec.vendor_dir, spec.packages, m[t].0, resolved_path(root_base(spec.vendor_dir), s));
}

/// The `classmap` paths (for `"classmap"`) or the eager files (otherwise).
pub open spec fn listed_paths(c: CollectedView, sec: Seq<char>) -> Seq<Seq<char>> {
    if sec == "classmap"@ { c.classmap_paths } else { c.files }
}

/// Gathering a section only adds to the classmap paths and the files.
proof fn lemma_section_extends(j: JsonView, base: Seq<char>, c: CollectedView)
    ensures
        ({
            let r = collect_section(j, base, c);
            &&& r.files.len() >= c.files.len()
            &&& forall|i: int| 0 <= i < c.files.len() ==> #[trigger] r.files[i] == c.files[i]
            &&& r.classmap_paths.len() >= c.classmap_paths.len()
            &&& forall|i: int| 0 <= i < c.classmap_paths.len() ==> #[trigger] r.classmap_paths[i] == c.classmap_paths[i]
        }),
{
}

proof fn lemma_packages_keep_listed(c: CollectedView, v: Seq<char>, pkgs: Seq<(Seq<char>, JsonView)>, sec: Seq<char>, p: Seq<char>)
    requires
        listed_paths(c, sec).contains(p),
    ensures
        listed_paths(collect_packages(c, v, pkgs), sec).contains(p),
    decreases pkgs.len(),
{
    if pkgs.len() > 0 {
        lemma_packages_keep_listed(c, v, pkgs.drop_last(), sec, p);
        let prev = collect_packages(c, v, pkgs.drop_last());
        lemma_section_extends(pkgs.last().1, path_join(v, pkgs.last().0), prev);
        let w = choose|w: int| 0 <= w < listed_paths(prev, sec).len() && listed_paths(prev, sec)[w] == p;
        assert(listed_paths(collect_packages(c, v, pkgs), sec)[w] == p);
    }
}

proof fn lemma_section_gives_listed(j: JsonView, base: Seq<char>, c: CollectedView, sec: Seq<char>, a: Seq<JsonView>, i: int, s: Seq<char>)
    requires
        sec == "classmap"@ || sec == "files"@,
        get_member(j, sec) == Some(JsonView::Array(a)),
        0 <= i < a.len(),
        a[i] == JsonView::Str(s),
    ensures
        listed_paths(collect_section(j, base, c), sec).contains(resolved_path(base, s)),
{
    reveal_strlit("classmap");
    reveal_strlit("files");
    assert(j is Object);
    lemma_strings_in_has(a, i, s);
    let ps = strings_in(a);
    let w = choose|w: int| 0 <= w < ps.len() && ps[w] == s;
    let added = resolve_all(base, ps);
    assert(added[w] == resolved_path(base, s));
    let c1 = match get_member(j, "psr-4"@) {
        Some(JsonView::Object(m)) => CollectedView { psr4: add_prefixes(c.psr4, m, base), ..c },
        _ => c,
    };
    let c2 = match get_member(j, "classmap"@) {
        Some(JsonView::Array(a2)) => CollectedView { classmap_paths: c1.classmap_paths + resolve_all(base, strings_in(a2)), ..c1 },
        _ => c1,
    };
    let c3 = match get_member(j, "files"@) {
        Some(JsonView::Array(a2)) => CollectedView { files: c2.files + resolve_all(base, strings_in(a2)), ..c2 },
        _ => c2,
    };
    let r = collect_section(j, base, c);
    if sec == "classmap"@ {
        assert(c2.classmap_paths[c1.classmap_paths.len() + w] == resolved_path(base, s));
        assert(r.classmap_paths == c2.classmap_paths);
        assert(r.classmap_paths[c1.classmap_paths.len() + w] == resolved_path(base, s));
    } else {
        assert(sec != "classmap"@);
        assert(c3.files[c2.files.len() + w] == resolved_path(base, s));
        assert(r.files == c3.files);
        assert(r.files[c2.files.len() + w] == resolved_path(base, s));
    }
}

/// Every string of a package's `classmap` (or `files`) array is gathered
/// among the classmap paths (or the eager files), resolved against the
/// package's directory.
pub proof fn law_package_listed_paths_all_gathered(spec: AutoloadSpecView, pi: int, sec: Seq<char>, a: Seq<JsonView>, i: int, s: Seq<char>)
    requires
        0 <= pi < spec.packages.len(),
        sec == "classmap"@ || sec == "files"@,
        get_member(spec.packages[pi].1, sec) == Some(JsonView::Array(a)),
        0 <= i < a.len(),
        a[i] == JsonView::Str(s),
    ensures
        listed_paths(collected(spec), sec).contains(resolved_path(path_join(spec.vendor_dir, spec.packages[pi].0), s)),
{
    let v = spec.vendor_dir;
    let pkgs = spec.packages;
    let c0 = collect_section(spec.root_autoload, root_base(v), empty_collected());
    let upto = pkgs.take(pi + 1);
    assert(upto.last() == pkgs[pi]);
    assert(upto.drop_last() =~= pkgs.take(pi));
    lemma_section_gives_listed(pkgs[pi].1, path_join(v, pkgs[pi].0), collect_packages(c0, v, pkgs.take(pi)), sec, a, i, s);
    lemma_packages_split(c0, v, pkgs, pi + 1);
    lemma_packages_keep_listed(collect_packages(c0, v, upto), v, pkgs.skip(pi + 1), sec, resolved_path(path_join(v, pkgs[pi].0), s));
}

/// Gathering the packages in two stretches is gathering them all.
proof fn lemma_packages_split(c: CollectedView, v: Seq<char>, pkgs: Seq<(Seq<char>, JsonView)>, n: int)
    requires
        0 <= n <= pkgs.len(),
    ensures
        collect_packages(c, v, pkgs) == collect_packages(collect_packages(c, v, pkgs.take(n)), v, pkgs.skip(n)),
    decreases pkgs.len() - n,
{
    if n == pkgs.len() {
        assert(pkgs.take(n) =~= pkgs);
        assert(pkgs.skip(n) =~= Seq::<(Seq<char>, JsonView)>::empty());
    } else {
        lemma_packages_split(c, v, pkgs, n + 1);
        lemma_packages_split_last(collect_packages(c, v, pkgs.take(n)), v, pkgs.skip(n));
        assert(pkgs.skip(n).drop_first() =~= pkgs.skip(n + 1));
        assert(pkgs.take(n + 1).drop_last() =~= pkgs.take(n));
        assert(pkgs.take(n + 1).last() == pkgs.skip(n)[0]);
    }
}

/// Gathering a first package and then the rest is gathering them all.
proof fn lemma_packages_split_last(c: CollectedView, v: Seq<char>, pkgs: Seq<(Seq<char>, JsonView)>)
    requires
        pkgs.len() > 0,
    ensures
        collect_packages(c, v, pkgs) == collect_packages(
            collect_section(pkgs[0].1, path_join(v, pkgs[0].0), c),
            v,
            pkgs.drop_first(),
        ),
    decreases pkgs.len(),
{
    let c1 = collect_section(pkgs[0].1, path_join(v, pkgs[0].0), c);
    if pkgs.len() == 1 {
        assert(pkgs.drop_last() =~= Seq::<(Seq<char>, JsonView)>::empty());
        assert(pkgs.drop_first() =~= Seq::<(Seq<char>, JsonView)>::empty());
        assert(collect_packages(c, v, pkgs.drop_last()) == c);
        assert(pkgs.last() == pkgs[0]);
        assert(collect_packages(c1, v, pkgs.drop_first()) == c1);
    } else {
        lemma_packages_split_last(c, v, pkgs.drop_last());
        assert(pkgs.drop_last().drop_first() =~= pkgs.drop_first().drop_last());
        assert(pkgs.drop_last()[0] == pkgs[0]);
        assert(pkgs.drop_first().last() == pkgs.last());
        assert(collect_packages(c1, v, pkgs.drop_first()) == collect_section(
            pkgs.last().1,
            path_join(v, pkgs.last().0),
            collect_packages(c1, v, pkgs.drop_first().drop_last()),
        ));
    }
}

/// Every string of the root project's `classmap` (or `files`) array is
/// gathered, resolved against the project directory.
pub proof fn law_root_listed_paths_all_gathered(spec: AutoloadSpecView, sec: Seq<char>, a: Seq<JsonView>, i: int, s: Seq<char>)
    requires
        sec == "classmap"@ || sec == "files"@,
        get_member(spec.root_autoload, sec) == Some(JsonView::Array(a)),
        0 <= i < a.len(),
        a[i] == JsonView::Str(s),
    ensures
        listed_paths(collected(spec), sec).contains(resolved_path(root_base(spec.vendor_dir), s)),
{
    let c0 = collect_section(spec.root_autoload, root_base(spec.vendor_dir), empty_collected());
    lemma_section_gives_listed(spec.root_autoload, root_base(spec.vendor_dir), empty_collected(), sec, a, i, s);
    lemma_packages_keep_listed(c0, spec.vendor_dir, spec.packages, sec, resolved_path(root_base(spec.vendor_dir), s));
}

} // verus!
