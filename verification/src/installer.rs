//! Archive checks and extraction layout: SHA-1 verification of downloaded
//! archives, the common top-level directory that is stripped when an
//! archive is unpacked, and the errors of downloading and installing.
use vstd::prelude::*;
use crate::text::{chars_eq, chars_to_string, push_str, push_u32, str_chars, sub_vec, nat_chars};

verus! {

/// The lowercase hexadecimal SHA-1 digest that `sha1_smol` gives for `bytes`.
pub uninterp spec fn sha1_hex(bytes: Seq<u8>) -> Seq<char>;

/// SHA-1 of `bytes` as lowercase hexadecimal text.
///
/// Trusted: feeds `bytes` to a fresh `sha1_smol::Sha1` and renders its digest
/// with `Display`; the contract names the text `sha1_hex` of the bytes.
#[verifier::external_body]
fn sha1_digest_hex(bytes: &[u8]) -> (r: String)
    ensures
        r@ == sha1_hex(bytes@),
{
    let mut hasher = sha1_smol::Sha1::new();
    hasher.update(bytes);
    hasher.digest().to_string()
}

/// Why a download was refused.
#[derive(Debug)]
pub enum DownloadError {
    Http(String),
    ShasumMismatch { expected: String, actual: String },
}

pub enum DownloadErrorView {
    Http(Seq<char>),
    ShasumMismatch(Seq<char>, Seq<char>),
}

impl View for DownloadError {
    type V = DownloadErrorView;

    open spec fn view(&self) -> DownloadErrorView {
        match self {
            DownloadError::Http(m) => DownloadErrorView::Http(m@),
            DownloadError::ShasumMismatch { expected, actual } => DownloadErrorView::ShasumMismatch(expected@, actual@),
        }
    }
}

pub open spec fn download_error_text(e: DownloadErrorView) -> Seq<char> {
    match e {
        DownloadErrorView::Http(m) => "http error: "@ + m,
        DownloadErrorView::ShasumMismatch(x, a) => "shasum mismatch: expected "@ + x + ", got "@ + a,
    }
}

impl DownloadError {
    /// The error as text.
    pub fn message(&self) -> (r: String)
        ensures
            r@ == download_error_text(self@),
    {
        proof {
            reveal_strlit("http error: ");
            reveal_strlit("shasum mismatch: expected ");
            reveal_strlit(", got ");
        }
        let mut out: Vec<char> = Vec::new();
        match self {
            DownloadError::Http(m) => {
                push_str(&mut out, "http error: ");
                push_str(&mut out, m.as_str());
            },
            DownloadError::ShasumMismatch { expected, actual } => {
                push_str(&mut out, "shasum mismatch: expected ");
                push_str(&mut out, expected.as_str());
                push_str(&mut out, ", got ");
                push_str(&mut out, actual.as_str());
            },
        }
        chars_to_string(out.as_slice())
    }
}

/// The verdict on an archive whose digest is `actual`, against the
/// expected digest `expected`: accepted when they are the same text.
pub fn check_shasum(expected: &str, actual: String) -> (r: Result<(), DownloadError>)
    ensures
        match r {
            Ok(()) => actual@ == expected@,
            Err(e) => actual@ != expected@ && e@ == DownloadErrorView::ShasumMismatch(expected@, actual@),
        },
{
    let a = str_chars(actual.as_str());
    let x = str_chars(expected);
    if chars_eq(&a, &x) {
        Ok(())
    } else {
        Err(DownloadError::ShasumMismatch { expected: expected.to_string(), actual })
    }
}

/// Checks downloaded bytes against the expected SHA-1 digest. An empty
/// expected digest accepts any bytes (Composer allows packages without one).
pub fn verify_shasum(bytes: &[u8], expected: &str) -> (r: Result<(), DownloadError>)
    ensures
        expected@.len() == 0 ==> r is Ok,
        expected@.len() > 0 ==> match r {
            Ok(()) => sha1_hex(bytes@) == expected@,
            Err(e) => sha1_hex(bytes@) != expected@
                && e@ == DownloadErrorView::ShasumMismatch(expected@, sha1_hex(bytes@)),
        },
{
    if expected.is_empty() {
        return Ok(());
    }
    let actual = sha1_digest_hex(bytes);
    check_shasum(expected, actual)
}

/// Why an installation failed.
#[derive(Debug)]
pub enum InstallError {
    Failed(String),
}

impl InstallError {
    /// The error as text: `install failed: <detail>`.
    pub fn message(&self) -> (r: String)
        ensures
            r@ == "install failed: "@ + match self {
                InstallError::Failed(m) => m@,
            },
    {
        proof {
            reveal_strlit("install failed: ");
        }
        let mut out: Vec<char> = Vec::new();
        push_str(&mut out, "install failed: ");
        match self {
            InstallError::Failed(m) => push_str(&mut out, m.as_str()),
        }
        chars_to_string(out.as_slice())
    }
}

/// Why a batch transfer failed.
#[derive(Debug)]
pub enum CurlError {
    Multi(String),
    Easy(String),
    HttpStatus { status: u32, url: String },
}

pub open spec fn curl_error_text(e: &CurlError) -> Seq<char> {
    match e {
        CurlError::Multi(m) => "curl multi error: "@ + m@,
        CurlError::Easy(m) => "curl easy error: "@ + m@,
        CurlError::HttpStatus { status, url } => "HTTP "@ + nat_chars(*status as nat) + " for "@ + url@,
    }
}

impl CurlError {
    /// The error as text.
    pub fn message(&self) -> (r: String)
        ensures
            r@ == curl_error_text(self),
    {
        proof {
            reveal_strlit("curl multi error: ");
            reveal_strlit("curl easy error: ");
            reveal_strlit("HTTP ");
            reveal_strlit(" for ");
        }
        let mut out: Vec<char> = Vec::new();
        match self {
            CurlError::Multi(m) => {
                push_str(&mut out, "curl multi error: ");
                push_str(&mut out, m.as_str());
            },
            CurlError::Easy(m) => {
                push_str(&mut out, "curl easy error: ");
                push_str(&mut out, m.as_str());
            },
            CurlError::HttpStatus { status, url } => {
                push_str(&mut out, "HTTP ");
                push_u32(&mut out, *status);
                push_str(&mut out, " for ");
                push_str(&mut out, url.as_str());
            },
        }
        chars_to_string(out.as_slice())
    }
}

/// The archive a transfer of `url` gave, from its response code (or the
/// text of the error reading it) and its body.
pub fn download_outcome(url: &str, code: Result<u32, String>, body: Vec<u8>) -> (r: Result<Vec<u8>, CurlError>)
    ensures
        match code {
            Err(m) => r matches Err(CurlError::Easy(e)) && e@ == m@,
            Ok(s) => if 200 <= s < 400 {
                r matches Ok(b) && b@ == body@
            } else {
                r matches Err(CurlError::HttpStatus { status, url: u }) && status == s && u@ == url@
            },
        },
{
    match code {
        Err(m) => Err(CurlError::Easy(m)),
        Ok(status) => {
            if 200 <= status && status < 400 {
                Ok(body)
            } else {
                let v = str_chars(url);
                Err(CurlError::HttpStatus { status, url: chars_to_string(v.as_slice()) })
            }
        },
    }
}

/// A handle on the download cache.
pub struct Cache {
    pub root: String,
}

impl Cache {
    /// A handle on the content-addressed download cache under `root`.
    pub fn new(root: String) -> (r: Cache)
        ensures
            r.root@ == root@,
    {
        Cache { root }
    }
}

// ---------------------------------------------------------------------------
// Archive layout
// ---------------------------------------------------------------------------

/// Index of the first `/` in `s`, if any.
pub open spec fn first_slash(s: Seq<char>) -> Option<int> {
    if s.contains('/') {
        Some(choose|i: int| 0 <= i < s.len() && s[i] == '/' && forall|k: int| 0 <= k < i ==> s[k] != '/')
    } else {
        None
    }
}

/// The top-level directory of an entry name, with its `/`; `None` for a
/// name without one.
pub open spec fn top_dir(name: Seq<char>) -> Option<Seq<char>> {
    match first_slash(name) {
        Some(i) => Some(name.take(i + 1)),
        None => None,
    }
}

/// The directory that every entry of an archive sits in (with its `/`), or
/// empty when some entry has no directory or two top-level directories
/// differ. An empty archive has none.
pub open spec fn common_prefix(names: Seq<Seq<char>>) -> Seq<char> {
    if names.len() == 0 {
        Seq::empty()
    } else if exists|i: int| 0 <= i < names.len() && top_dir(#[trigger] names[i]) is None {
        Seq::empty()
    } else if forall|i: int| 0 <= i < names.len() ==> #[trigger] top_dir(names[i]) == top_dir(names[0]) {
        top_dir(names[0])->Some_0
    } else {
        Seq::empty()
    }
}

/// `path` without the leading `prefix`, when `prefix` is non-empty and
/// leads it; otherwise `path` itself.
pub open spec fn stripped(path: Seq<char>, prefix: Seq<char>) -> Seq<char> {
    if prefix.len() > 0 && prefix.len() <= path.len() && path.take(prefix.len() as int) == prefix {
        path.skip(prefix.len() as int)
    } else {
        path
    }
}

fn slash_index(v: &Vec<char>) -> (r: Option<usize>)
    ensures
        match r {
            Some(i) => first_slash(v@) == Some(i as int) && i < v@.len(),
            None => first_slash(v@) is None,
        },
{
    let mut i: usize = 0;
    while i < v.len()
        invariant
            i <= v.len(),
            forall|k: int| 0 <= k < i ==> v@[k] != '/',
        decreases v.len() - i,
    {
        if v[i] == '/' {
            let ghost c = choose|j: int| 0 <= j < v@.len() && v@[j] == '/' && forall|k: int| 0 <= k < j ==> v@[k] != '/';
            assert(v@.contains('/'));
            assert(c == i) by {
                if c < i {
                    assert(v@[c] != '/');
                } else if c > i {
                    assert(v@[i as int] == '/');
                }
            }
            return Some(i);
        }
        i += 1;
    }
    None
}

/// The common top-level directory of the archive entries `names` (with
/// its `/`), or empty when there is none.
pub fn detect_common_prefix(names: &Vec<String>) -> (r: String)
    ensures
        r@ == common_prefix(names@.map_values(|n: String| n@)),
{
    let ghost ns = names@.map_values(|n: String| n@);
    let mut prefix: Option<Vec<char>> = None;
    let mut i: usize = 0;
    while i < names.len()
        invariant
            i <= names.len(),
            ns == names@.map_values(|n: String| n@),
            forall|k: int| 0 <= k < i ==> #[trigger] top_dir(ns[k]) is Some,
            i == 0 <==> prefix is None,
            prefix matches Some(p) ==> forall|k: int| 0 <= k < i ==> #[trigger] top_dir(ns[k]) == Some(p@),
        decreases names.len() - i,
    {
        let name = str_chars(names[i].as_str());
        assert(name@ == ns[i as int]);
        let idx = match slash_index(&name) {
            Some(k) => k,
            None => {
                assert(top_dir(ns[i as int]) is None);
                return String::new();
            },
        };
        let top = sub_vec(&name, 0, idx + 1);
        assert(top@ == name@.take(idx + 1));
        match &prefix {
            None => {
                prefix = Some(top);
            },
            Some(p) => {
                if !chars_eq(p, &top) {
                    assert(top_dir(ns[i as int]) != top_dir(ns[0]));
                    assert(!(forall|k: int| 0 <= k < ns.len() ==> #[trigger] top_dir(ns[k]) == top_dir(ns[0])));
                    return String::new();
                }
            },
        }
        i += 1;
    }
    match prefix {
        None => {
            assert(ns.len() == 0);
            String::new()
        },
        Some(p) => {
            assert(top_dir(ns[0]) == Some(p@));
            chars_to_string(p.as_slice())
        },
    }
}

/// `path` without the leading `prefix` (when `prefix` is non-empty and
/// leads it).
pub fn strip_prefix(path: &str, prefix: &str) -> (r: String)
    ensures
        r@ == stripped(path@, prefix@),
{
    let p = str_chars(path);
    let x = str_chars(prefix);
    if x.len() > 0 && x.len() <= p.len() {
        let head = sub_vec(&p, 0, x.len());
        if chars_eq(&head, &x) {
            let rest = sub_vec(&p, x.len(), p.len());
            assert(rest@ =~= path@.skip(prefix@.len() as int));
            return chars_to_string(rest.as_slice());
        }
    }
    path.to_string()
}

/// Where an archive entry lands below the package directory, with the
/// common directory `prefix` removed; `None` for the entry of that
/// directory itself (nothing is left, or only `/`) and for an entry that
/// would land outside the package directory (absolute, or with a `..`
/// component).
pub fn entry_destination(name: &str, prefix: &str) -> (r: Option<String>)
    ensures
        match r {
            Some(d) => destination(name@, prefix@) == Some(d@),
            None => destination(name@, prefix@) is None,
        },
{
    let s = strip_prefix(name, prefix);
    let v = str_chars(s.as_str());
    if v.len() == 0 || (v.len() == 1 && v[0] == '/') || escapes_dir_exec(&v) {
        assert(v.len() == 1 && v[0] == '/' ==> v@ =~= seq!['/']);
        None
    } else {
        assert(v@ != seq!['/']) by {
            if v@.len() == 1 {
                assert(v@[0] != '/');
            }
        }
        Some(s)
    }
}

/// The entry names of the ZIP archive in `bytes`, in archive order, or the
/// text of the reader's error.
pub uninterp spec fn zip_entry_names(bytes: Seq<u8>) -> Result<Seq<Seq<char>>, Seq<char>>;

pub open spec fn names_view(v: Seq<String>) -> Seq<Seq<char>> {
    v.map_values(|n: String| n@)
}

/// Reads the entry names of a ZIP archive held in memory.
///
/// Trusted: opens the bytes with `zip::ZipArchive::new` and collects
/// `file_names()`, which yields the names in archive order; the contract
/// names the outcome `zip_entry_names` of the bytes.
#[verifier::external_body]
fn read_zip_names(bytes: &[u8]) -> (r: Result<Vec<String>, String>)
    ensures
        match r {
            Ok(v) => zip_entry_names(bytes@) == Ok::<Seq<Seq<char>>, Seq<char>>(names_view(v@)),
            Err(e) => zip_entry_names(bytes@) == Err::<Seq<Seq<char>>, Seq<char>>(e@),
        },
{
    match zip::ZipArchive::new(std::io::Cursor::new(bytes)) {
        Ok(archive) => Ok(archive.file_names().map(|n| n.to_string()).collect()),
        Err(e) => Err(e.to_string()),
    }
}

/// A path separator in an archive entry name.
pub open spec fn is_sep(c: char) -> bool {
    c == '/' || c == '\\'
}

/// `s` has a `..` component starting at `i`.
pub open spec fn dotdot_at(s: Seq<char>, i: int) -> bool {
    &&& 0 <= i
    &&& i + 2 <= s.len()
    &&& s[i] == '.'
    &&& s[i + 1] == '.'
    &&& (i == 0 || is_sep(s[i - 1]))
    &&& (i + 2 == s.len() || is_sep(s[i + 2]))
}

/// A relative entry path that would leave the directory it is joined to:
/// it is absolute (starts with a separator) or has a `..` component.
pub open spec fn escapes_dir(s: Seq<char>) -> bool {
    (s.len() > 0 && is_sep(s[0])) || exists|i: int| #[trigger] dotdot_at(s, i)
}

fn escapes_dir_exec(v: &Vec<char>) -> (r: bool)
    ensures
        r == escapes_dir(v@),
{
    if v.len() > 0 && (v[0] == '/' || v[0] == '\\') {
        return true;
    }
    let mut i: usize = 0;
    while i < v.len() && i + 1 < v.len()
        invariant
            i <= v.len(),
            !(v@.len() > 0 && is_sep(v@[0])),
            forall|j: int| 0 <= j < i ==> !dotdot_at(v@, j),
        decreases v.len() - i,
    {
        if v[i] == '.' && v[i + 1] == '.' && (i == 0 || v[i - 1] == '/' || v[i - 1] == '\\')
            && (i + 2 == v.len() || v[i + 2] == '/' || v[i + 2] == '\\') {
            assert(dotdot_at(v@, i as int));
            return true;
        }
        i += 1;
    }
    assert forall|j: int| !dotdot_at(v@, j) by {
        if 0 <= j < i {
        }
    }
    false
}

/// Where an entry named `name` of an archive whose common directory is
/// `prefix` lands, or `None` when it is skipped: the common directory's own
/// entry, and any entry that would land outside the package directory.
pub open spec fn destination(name: Seq<char>, prefix: Seq<char>) -> Option<Seq<char>> {
    let s = stripped(name, prefix);
    if s.len() == 0 || s == seq!['/'] || escapes_dir(s) { None } else { Some(s) }
}

pub open spec fn opt_names_view(v: Seq<Option<String>>) -> Seq<Option<Seq<char>>> {
    v.map_values(|o: Option<String>| match o { Some(s) => Some(s@), None => None })
}

/// The extraction plan for the ZIP archive in `bytes`: for each entry, in
/// archive order, the path it lands at below the package directory (the
/// common top-level directory stripped), or `None` when it is skipped
/// (the directory's own entry, or an entry that would land outside). A
/// refusal carries the reader's error.
pub fn extraction_plan(bytes: &[u8]) -> (r: Result<Vec<Option<String>>, String>)
    ensures
        match r {
            Ok(plan) => zip_entry_names(bytes@) is Ok && ({
                let names = zip_entry_names(bytes@)->Ok_0;
                &&& opt_names_view(plan@).len() == names.len()
                &&& forall|i: int| 0 <= i < names.len() ==> #[trigger] opt_names_view(plan@)[i] == destination(names[i], common_prefix(names))
            }),
            Err(e) => zip_entry_names(bytes@) == Err::<Seq<Seq<char>>, Seq<char>>(e@),
        },
{
    let names = match read_zip_names(bytes) {
        Ok(v) => v,
        Err(e) => return Err(e),
    };
    let ghost ns = names_view(names@);
    let prefix = detect_common_prefix(&names);
    let mut plan: Vec<Option<String>> = Vec::new();
    let mut i: usize = 0;
    while i < names.len()
        invariant
            i <= names.len(),
            ns == names_view(names@),
            prefix@ == common_prefix(ns),
            plan@.len() == i,
            forall|k: int| 0 <= k < i ==> #[trigger] opt_names_view(plan@)[k] == destination(ns[k], prefix@),
        decreases names.len() - i,
    {
        let d = entry_destination(names[i].as_str(), prefix.as_str());
        let ghost before = plan@;
        assert(ns[i as int] == names@[i as int]@);
        let ghost dv: Option<Seq<char>> = opt_names_view(seq![d])[0];
        assert(destination(ns[i as int], prefix@) == dv);
        plan.push(d);
        assert forall|k: int| 0 <= k < i + 1 implies #[trigger] opt_names_view(plan@)[k] == destination(ns[k], prefix@) by {
            if k < i {
                assert(plan@[k] == before[k]);
                assert(opt_names_view(before)[k] == destination(ns[k], prefix@));
            } else {
                assert(plan@[k] == d);
                assert(opt_names_view(plan@)[k] == dv);
            }
        }
        i += 1;
    }
    Ok(plan)
}

/// Nothing is ever planned outside the package directory: a planned path is
/// non-empty, relative, and has no `..` component.
pub proof fn law_planned_paths_stay_inside(name: Seq<char>, prefix: Seq<char>)
    ensures
        destination(name, prefix) matches Some(s) ==> s.len() > 0 && !is_sep(s[0]) && forall|i: int| !#[trigger] dotdot_at(s, i),
{
}

/// Where `s` holds a `/`, `first_slash` finds the first one.
proof fn lemma_first_slash(s: Seq<char>, n: int)
    requires
        0 <= n <= s.len(),
    ensures
        (exists|j: int| 0 <= j < n && s[j] == '/') ==> exists|j: int|
            0 <= j < n && s[j] == '/' && forall|k: int| 0 <= k < j ==> #[trigger] s[k] != '/',
    decreases n,
{
    if n > 0 {
        lemma_first_slash(s, n - 1);
        if !(exists|j: int| 0 <= j < n - 1 && s[j] == '/') && s[n - 1] == '/' {
            assert(forall|k: int| 0 <= k < n - 1 ==> #[trigger] s[k] != '/');
        }
    }
}

/// An archive whose entries all sit in one top-level directory `t` is
/// extracted without it: `t` is the common prefix, the entry for `t` itself
/// is skipped, and every other entry lands at its name with `t` taken off,
/// unless that path would leave the package directory.
pub proof fn law_shared_directory_is_stripped(names: Seq<Seq<char>>, t: Seq<char>)
    requires
        names.len() > 0,
        forall|i: int| 0 <= i < names.len() ==> top_dir(#[trigger] names[i]) == Some(t),
    ensures
        common_prefix(names) == t,
        forall|i: int| 0 <= i < names.len() ==> names[i] == t + names[i].skip(t.len() as int),
        forall|i: int| 0 <= i < names.len() ==> #[trigger] destination(names[i], common_prefix(names)) == ({
            let s = names[i].skip(t.len() as int);
            if s.len() == 0 || s == seq!['/'] || escapes_dir(s) { None } else { Some(s) }
        }),
{
    assert(top_dir(names[0]) == Some(t));
    assert forall|i: int| 0 <= i < names.len() implies names[i] == t + names[i].skip(t.len() as int) && stripped(
        names[i],
        t,
    ) == names[i].skip(t.len() as int) by {
        assert(top_dir(names[i]) == Some(t));
        assert(names[i].contains('/'));
        lemma_first_slash(names[i], names[i].len() as int);
        let k = first_slash(names[i])->Some_0;
        assert(0 <= k < names[i].len());
        assert(t == names[i].take(k + 1));
        assert(names[i] =~= t + names[i].skip(t.len() as int));
        assert(names[i].take(t.len() as int) == t);
    }
}

} // verus!
