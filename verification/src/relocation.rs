//! The autoloader as a function of the vendor directory: what is gathered,
//! and the PSR-4 and files maps rendered from it, are one template with a
//! hole wherever the vendor directory goes.
use vstd::prelude::*;
use crate::autoload::{
    collect_packages, collect_section, collected, empty_collected, escaped, escaped_prefix, files_lines, files_php,
    lemma_scan_bounds, lemma_scan_same_keys, path_join, path_strings, php_char, php_header, psr4_add, psr4_lines,
    psr4_php, quoted_list, add_prefixes, resolve_all, root_base, scan, strings_in, trim_end_slashes, AutoloadSpecView,
    CollectedView,
};
use crate::json::{get_member, JsonView};

verus! {

// ---------------------------------------------------------------------------
// Paths with the vendor directory left open
// ---------------------------------------------------------------------------

/// The vendor directory as it starts the paths under it: followed by a `/`
/// unless it is empty or already ends with one.
pub open spec fn vendor_prefix(v: Seq<char>) -> Seq<char> {
    if v.len() == 0 || v.last() == '/' {
        v
    } else {
        v + seq!['/']
    }
}

/// A path as it depends on the vendor directory `v`: `(true, w)` is `w`
/// under `v`; `(false, p)` is `p` whatever `v` is.
pub open spec fn place(v: Seq<char>, p: (bool, Seq<char>)) -> Seq<char> {
    if p.0 {
        vendor_prefix(v) + p.1
    } else {
        p.1
    }
}

pub open spec fn place_all(v: Seq<char>, ps: Seq<(bool, Seq<char>)>) -> Seq<Seq<char>> {
    Seq::new(ps.len(), |i: int| place(v, ps[i]))
}

pub open spec fn place_map(
    v: Seq<char>,
    m: Seq<(Seq<char>, Seq<(bool, Seq<char>)>)>,
) -> Seq<(Seq<char>, Seq<Seq<char>>)> {
    Seq::new(m.len(), |i: int| (m[i].0, place_all(v, m[i].1)))
}

/// `path_join` on a base that may lie under the vendor directory.
pub open spec fn join_template(b: (bool, Seq<char>), rel: Seq<char>) -> (bool, Seq<char>) {
    if rel.len() > 0 && rel[0] == '/' {
        (false, rel)
    } else {
        (b.0, path_join(b.1, rel))
    }
}

/// The directory of package `name`: `name` under the vendor directory.
pub open spec fn package_dir_template(name: Seq<char>) -> (bool, Seq<char>) {
    join_template((true, Seq::empty()), name)
}

pub open spec fn resolve_all_template(b: (bool, Seq<char>), ps: Seq<Seq<char>>) -> Seq<(bool, Seq<char>)> {
    Seq::new(ps.len(), |i: int| join_template(b, trim_end_slashes(ps[i])))
}

pub open spec fn add_prefixes_template(
    m: Seq<(Seq<char>, Seq<(bool, Seq<char>)>)>,
    entries: Seq<(Seq<char>, JsonView)>,
    b: (bool, Seq<char>),
) -> Seq<(Seq<char>, Seq<(bool, Seq<char>)>)>
    decreases entries.len(),
{
    if entries.len() == 0 {
        m
    } else {
        psr4_add(
            add_prefixes_template(m, entries.drop_last(), b),
            entries.last().0,
            resolve_all_template(b, path_strings(entries.last().1)),
        )
    }
}

/// What is gathered, with the vendor directory left open.
pub struct CollectedTemplate {
    pub psr4: Seq<(Seq<char>, Seq<(bool, Seq<char>)>)>,
    pub classmap_paths: Seq<(bool, Seq<char>)>,
    pub files: Seq<(bool, Seq<char>)>,
}

pub open spec fn place_collected(v: Seq<char>, t: CollectedTemplate) -> CollectedView {
    CollectedView {
        psr4: place_map(v, t.psr4),
        classmap_paths: place_all(v, t.classmap_paths),
        files: place_all(v, t.files),
    }
}

pub open spec fn empty_template() -> CollectedTemplate {
    CollectedTemplate { psr4: Seq::empty(), classmap_paths: Seq::empty(), files: Seq::empty() }
}

/// `collect_section` with its base directory left open.
pub open spec fn section_template(j: JsonView, b: (bool, Seq<char>), c: CollectedTemplate) -> CollectedTemplate {
    if !(j is Object) {
        c
    } else {
        let c1 = match get_member(j, "psr-4"@) {
            Some(JsonView::Object(m)) => CollectedTemplate { psr4: add_prefixes_template(c.psr4, m, b), ..c },
            _ => c,
        };
        let c2 = match get_member(j, "classmap"@) {
            Some(JsonView::Array(a)) => CollectedTemplate {
                classmap_paths: c1.classmap_paths + resolve_all_template(b, strings_in(a)),
                ..c1
            },
            _ => c1,
        };
        let c3 = match get_member(j, "files"@) {
            Some(JsonView::Array(a)) => CollectedTemplate { files: c2.files + resolve_all_template(b, strings_in(a)), ..c2 },
            _ => c2,
        };
        match get_member(j, "psr-0"@) {
            Some(JsonView::Object(m)) => CollectedTemplate { psr4: add_prefixes_template(c3.psr4, m, b), ..c3 },
            _ => c3,
        }
    }
}

pub open spec fn packages_template(c: CollectedTemplate, pkgs: Seq<(Seq<char>, JsonView)>) -> CollectedTemplate
    decreases pkgs.len(),
{
    if pkgs.len() == 0 {
        c
    } else {
        section_template(pkgs.last().1, package_dir_template(pkgs.last().0), packages_template(c, pkgs.drop_last()))
    }
}

/// What is gathered from a root section with paths relative to `root_dir`
/// and from the packages `pkgs`, whatever the vendor directory.
pub open spec fn collected_template(
    root: JsonView,
    root_dir: Seq<char>,
    pkgs: Seq<(Seq<char>, JsonView)>,
) -> CollectedTemplate {
    packages_template(section_template(root, (false, root_dir), empty_template()), pkgs)
}

proof fn lemma_vendor_prefix(v: Seq<char>)
    ensures
        vendor_prefix(v).len() == 0 || vendor_prefix(v).last() == '/',
{
}

/// Joining onto a placed path is placing the joined template.
proof fn lemma_join_template(v: Seq<char>, b: (bool, Seq<char>), rel: Seq<char>)
    ensures
        path_join(place(v, b), rel) == place(v, join_template(b, rel)),
{
    if !(rel.len() > 0 && rel[0] == '/') && b.0 {
        let p = vendor_prefix(v);
        let w = b.1;
        let s = p + w;
        lemma_vendor_prefix(v);
        assert(place(v, b) == s);
        if s.len() == 0 {
            assert(w =~= Seq::<char>::empty());
            assert(p =~= Seq::<char>::empty());
            assert(s + rel =~= p + (w + rel));
        } else if s.last() == '/' {
            if w.len() > 0 {
                assert(s.last() == w.last());
                assert(s + rel =~= p + (w + rel));
            } else {
                assert(s =~= p);
                assert(w + rel =~= rel);
            }
        } else {
            if w.len() == 0 {
                assert(s =~= p);
            }
            assert(w.len() > 0);
            assert(s.last() == w.last());
            assert(s + seq!['/'] + rel =~= p + (w + seq!['/'] + rel));
        }
    }
}

/// A package's directory is its name under the vendor directory.
proof fn lemma_package_dir(v: Seq<char>, name: Seq<char>)
    ensures
        path_join(v, name) == place(v, package_dir_template(name)),
{
    lemma_join_template(v, (true, Seq::empty()), name);
    assert(vendor_prefix(v) + Seq::<char>::empty() =~= vendor_prefix(v));
    if !(name.len() > 0 && name[0] == '/') && !(v.len() == 0 || v.last() == '/') {
        let p = v + seq!['/'];
        assert(p.last() == '/');
        assert(v + seq!['/'] + name =~= p + name);
    }
}

proof fn lemma_resolve_all_placed(v: Seq<char>, b: (bool, Seq<char>), ps: Seq<Seq<char>>)
    ensures
        resolve_all(place(v, b), ps) == place_all(v, resolve_all_template(b, ps)),
{
    assert forall|i: int| 0 <= i < ps.len() implies #[trigger] resolve_all(place(v, b), ps)[i] == place_all(
        v,
        resolve_all_template(b, ps),
    )[i] by {
        lemma_join_template(v, b, trim_end_slashes(ps[i]));
    }
    assert(resolve_all(place(v, b), ps) =~= place_all(v, resolve_all_template(b, ps)));
}

proof fn lemma_place_all_append(v: Seq<char>, x: Seq<(bool, Seq<char>)>, y: Seq<(bool, Seq<char>)>)
    ensures
        place_all(v, x + y) == place_all(v, x) + place_all(v, y),
{
    assert(place_all(v, x + y) =~= place_all(v, x) + place_all(v, y));
}

proof fn lemma_place_add(v: Seq<char>, m: Seq<(Seq<char>, Seq<(bool, Seq<char>)>)>, k: Seq<char>, ps: Seq<(bool, Seq<char>)>)
    ensures
        psr4_add(place_map(v, m), k, place_all(v, ps)) == place_map(v, psr4_add(m, k, ps)),
{
    let pm = place_map(v, m);
    lemma_scan_same_keys(pm, m, k, 0);
    lemma_scan_bounds(m, k, 0);
    let (found, j) = scan(m, k, 0);
    if found {
        lemma_place_all_append(v, m[j].1, ps);
        assert(pm.update(j, (k, pm[j].1 + place_all(v, ps))) =~= place_map(v, m.update(j, (k, m[j].1 + ps))));
    } else {
        assert(pm.insert(j, (k, place_all(v, ps))) =~= place_map(v, m.insert(j, (k, ps))));
    }
}

proof fn lemma_prefixes_placed(
    v: Seq<char>,
    m: Seq<(Seq<char>, Seq<(bool, Seq<char>)>)>,
    e: Seq<(Seq<char>, JsonView)>,
    b: (bool, Seq<char>),
)
    ensures
        add_prefixes(place_map(v, m), e, place(v, b)) == place_map(v, add_prefixes_template(m, e, b)),
    decreases e.len(),
{
    if e.len() > 0 {
        lemma_prefixes_placed(v, m, e.drop_last(), b);
        lemma_resolve_all_placed(v, b, path_strings(e.last().1));
        lemma_place_add(
            v,
            add_prefixes_template(m, e.drop_last(), b),
            e.last().0,
            resolve_all_template(b, path_strings(e.last().1)),
        );
    }
}

proof fn lemma_section_placed(v: Seq<char>, j: JsonView, b: (bool, Seq<char>), t: CollectedTemplate)
    ensures
        collect_section(j, place(v, b), place_collected(v, t)) == place_collected(v, section_template(j, b, t)),
{
    if j is Object {
        let base = place(v, b);
        let c = place_collected(v, t);
        let t1 = match get_member(j, "psr-4"@) {
            Some(JsonView::Object(m)) => CollectedTemplate { psr4: add_prefixes_template(t.psr4, m, b), ..t },
            _ => t,
        };
        let c1 = match get_member(j, "psr-4"@) {
            Some(JsonView::Object(m)) => CollectedView { psr4: add_prefixes(c.psr4, m, base), ..c },
            _ => c,
        };
        match get_member(j, "psr-4"@) {
            Some(JsonView::Object(m)) => lemma_prefixes_placed(v, t.psr4, m, b),
            _ => {},
        }
        assert(c1 == place_collected(v, t1));
        let t2 = match get_member(j, "classmap"@) {
            Some(JsonView::Array(a)) => CollectedTemplate {
                classmap_paths: t1.classmap_paths + resolve_all_template(b, strings_in(a)),
                ..t1
            },
            _ => t1,
        };
        let c2 = match get_member(j, "classmap"@) {
            Some(JsonView::Array(a)) => CollectedView { classmap_paths: c1.classmap_paths + resolve_all(base, strings_in(a)), ..c1 },
            _ => c1,
        };
        match get_member(j, "classmap"@) {
            Some(JsonView::Array(a)) => {
                lemma_resolve_all_placed(v, b, strings_in(a));
                lemma_place_all_append(v, t1.classmap_paths, resolve_all_template(b, strings_in(a)));
            },
            _ => {},
        }
        assert(c2 == place_collected(v, t2));
        let t3 = match get_member(j, "files"@) {
            Some(JsonView::Array(a)) => CollectedTemplate { files: t2.files + resolve_all_template(b, strings_in(a)), ..t2 },
            _ => t2,
        };
        let c3 = match get_member(j, "files"@) {
            Some(JsonView::Array(a)) => CollectedView { files: c2.files + resolve_all(base, strings_in(a)), ..c2 },
            _ => c2,
        };
        match get_member(j, "files"@) {
            Some(JsonView::Array(a)) => {
                lemma_resolve_all_placed(v, b, strings_in(a));
                lemma_place_all_append(v, t2.files, resolve_all_template(b, strings_in(a)));
            },
            _ => {},
        }
        assert(c3 == place_collected(v, t3));
        match get_member(j, "psr-0"@) {
            Some(JsonView::Object(m)) => lemma_prefixes_placed(v, t3.psr4, m, b),
            _ => {},
        }
    }
}

proof fn lemma_packages_placed(v: Seq<char>, t: CollectedTemplate, pkgs: Seq<(Seq<char>, JsonView)>)
    ensures
        collect_packages(place_collected(v, t), v, pkgs) == place_collected(v, packages_template(t, pkgs)),
    decreases pkgs.len(),
{
    if pkgs.len() > 0 {
        lemma_packages_placed(v, t, pkgs.drop_last());
        lemma_package_dir(v, pkgs.last().0);
        lemma_section_placed(v, pkgs.last().1, package_dir_template(pkgs.last().0), packages_template(t, pkgs.drop_last()));
    }
}

/// What is gathered for an autoloader is its template placed under its
/// vendor directory, the root section's paths being relative to
/// `root_dir`.
pub proof fn lemma_collected_placed(spec: AutoloadSpecView, root_dir: Seq<char>)
    requires
        root_dir == root_base(spec.vendor_dir) || !(spec.root_autoload is Object),
    ensures
        collected(spec) == place_collected(
            spec.vendor_dir,
            collected_template(spec.root_autoload, root_dir, spec.packages),
        ),
{
    let v = spec.vendor_dir;
    assert(place_collected(v, empty_template()) =~= empty_collected()) by {
        assert(place_map(v, Seq::empty()) =~= Seq::<(Seq<char>, Seq<Seq<char>>)>::empty());
        assert(place_all(v, Seq::empty()) =~= Seq::<Seq<char>>::empty());
    }
    lemma_section_placed(v, spec.root_autoload, (false, root_dir), empty_template());
    if spec.root_autoload is Object {
        assert(place(v, (false, root_dir)) == root_base(v));
    }
    lemma_packages_placed(v, section_template(spec.root_autoload, (false, root_dir), empty_template()), spec.packages);
}

// ---------------------------------------------------------------------------
// Rendered text with the vendor directory left open
// ---------------------------------------------------------------------------

/// A text with holes, filled with `x`: `(true, s)` is `x` followed by `s`,
/// `(false, s)` is `s`.
pub open spec fn fill(t: Seq<(bool, Seq<char>)>, x: Seq<char>) -> Seq<char>
    decreases t.len(),
{
    if t.len() == 0 {
        Seq::empty()
    } else {
        fill(t.drop_last(), x) + (if t.last().0 {
            x + t.last().1
        } else {
            t.last().1
        })
    }
}

pub open spec fn lit(s: Seq<char>) -> Seq<(bool, Seq<char>)> {
    seq![(false, s)]
}

/// An escaped path: its vendor directory is the hole.
pub open spec fn escaped_template(p: (bool, Seq<char>)) -> Seq<(bool, Seq<char>)> {
    seq![(p.0, escaped(p.1))]
}

pub open spec fn quoted_template(ps: Seq<(bool, Seq<char>)>) -> Seq<(bool, Seq<char>)>
    decreases ps.len(),
{
    if ps.len() == 0 {
        Seq::empty()
    } else if ps.len() == 1 {
        lit(seq!['\'']) + escaped_template(ps[0]) + lit(seq!['\''])
    } else {
        quoted_template(ps.drop_last()) + lit(", '"@) + escaped_template(ps.last()) + lit(seq!['\''])
    }
}

pub open spec fn psr4_lines_template(m: Seq<(Seq<char>, Seq<(bool, Seq<char>)>)>) -> Seq<(bool, Seq<char>)>
    decreases m.len(),
{
    if m.len() == 0 {
        Seq::empty()
    } else {
        psr4_lines_template(m.drop_last()) + lit("  '"@ + escaped(m.last().0) + "' => array("@) + quoted_template(
            m.last().1,
        ) + lit("),\n"@)
    }
}

/// The PSR-4 file with the vendor directory left open.
pub open spec fn psr4_text_template(m: Seq<(Seq<char>, Seq<(bool, Seq<char>)>)>) -> Seq<(bool, Seq<char>)> {
    lit(php_header("autoload_psr4.php"@)) + psr4_lines_template(m) + lit(");\n"@)
}

pub open spec fn files_lines_template(fs: Seq<(bool, Seq<char>)>) -> Seq<(bool, Seq<char>)>
    decreases fs.len(),
{
    if fs.len() == 0 {
        Seq::empty()
    } else {
        files_lines_template(fs.drop_last()) + lit("  '"@) + escaped_template(fs.last()) + lit("',\n"@)
    }
}

/// The eager-files file with the vendor directory left open.
pub open spec fn files_text_template(fs: Seq<(bool, Seq<char>)>) -> Seq<(bool, Seq<char>)> {
    lit(php_header("autoload_files.php"@)) + files_lines_template(fs) + lit(");\n"@)
}

proof fn lemma_fill_append(t1: Seq<(bool, Seq<char>)>, t2: Seq<(bool, Seq<char>)>, x: Seq<char>)
    ensures
        fill(t1 + t2, x) == fill(t1, x) + fill(t2, x),
    decreases t2.len(),
{
    if t2.len() == 0 {
        assert(t1 + t2 =~= t1);
        assert(fill(t1, x) + fill(t2, x) =~= fill(t1, x));
    } else {
        lemma_fill_append(t1, t2.drop_last(), x);
        assert((t1 + t2).drop_last() =~= t1 + t2.drop_last());
        assert((t1 + t2).last() == t2.last());
        let g = if t2.last().0 {
            x + t2.last().1
        } else {
            t2.last().1
        };
        assert(fill(t1, x) + fill(t2.drop_last(), x) + g =~= fill(t1, x) + (fill(t2.drop_last(), x) + g));
    }
}

proof fn lemma_fill_one(e: (bool, Seq<char>), x: Seq<char>)
    ensures
        fill(seq![e], x) == (if e.0 {
            x + e.1
        } else {
            e.1
        }),
{
    let t = seq![e];
    assert(t.drop_last() =~= Seq::<(bool, Seq<char>)>::empty());
    assert(t.last() == e);
    assert(fill(t.drop_last(), x) == Seq::<char>::empty());
    let g = if e.0 {
        x + e.1
    } else {
        e.1
    };
    assert(Seq::<char>::empty() + g =~= g);
}

proof fn lemma_escaped_left(a: Seq<char>, w: Seq<char>, n: int)
    requires
        0 <= n <= a.len(),
        a.len() == 0 || a.last() == '/',
    ensures
        escaped_prefix(a + w, n) == escaped_prefix(a, n),
    decreases n,
{
    if n > 0 {
        lemma_escaped_left(a, w, n - 1);
        let s = a + w;
        let i = n - 1;
        assert(s[i] == a[i]);
        if i + 1 < a.len() {
            assert(s[i + 1] == a[i + 1]);
        } else {
            assert(a[i] == '/');
        }
        assert(php_char(s, i) == php_char(a, i));
    }
}

proof fn lemma_escaped_right(a: Seq<char>, w: Seq<char>, m: int)
    requires
        0 <= m <= w.len(),
        a.len() == 0 || a.last() == '/',
    ensures
        escaped_prefix(a + w, a.len() + m) == escaped(a) + escaped_prefix(w, m),
    decreases m,
{
    let s = a + w;
    if m == 0 {
        lemma_escaped_left(a, w, a.len() as int);
        assert(escaped(a) + escaped_prefix(w, 0) =~= escaped(a));
    } else {
        lemma_escaped_right(a, w, m - 1);
        let i = a.len() + m - 1;
        assert(s[i] == w[m - 1]);
        if m < w.len() {
            assert(s[i + 1] == w[m]);
        }
        assert(php_char(s, i) == php_char(w, m - 1));
        assert(escaped(a) + escaped_prefix(w, m - 1) + php_char(w, m - 1) =~= escaped(a) + (escaped_prefix(
            w,
            m - 1,
        ) + php_char(w, m - 1)));
    }
}

/// Escaping a path under the vendor directory escapes the directory and
/// the rest apart: the directory ends with a `/`, which is never escaped
/// and never escapes what follows.
proof fn lemma_escaped_placed(v: Seq<char>, p: (bool, Seq<char>))
    ensures
        escaped(place(v, p)) == fill(escaped_template(p), escaped(vendor_prefix(v))),
{
    lemma_fill_one((p.0, escaped(p.1)), escaped(vendor_prefix(v)));
    if p.0 {
        lemma_vendor_prefix(v);
        lemma_escaped_right(vendor_prefix(v), p.1, p.1.len() as int);
    }
}

proof fn lemma_quoted_placed(v: Seq<char>, ps: Seq<(bool, Seq<char>)>)
    ensures
        fill(quoted_template(ps), escaped(vendor_prefix(v))) == quoted_list(place_all(v, ps)),
    decreases ps.len(),
{
    let x = escaped(vendor_prefix(v));
    let q = place_all(v, ps);
    if ps.len() == 1 {
        let a = lit(seq!['\'']);
        lemma_fill_append(a + escaped_template(ps[0]), a, x);
        lemma_fill_append(a, escaped_template(ps[0]), x);
        lemma_fill_one((false, seq!['\'']), x);
        lemma_escaped_placed(v, ps[0]);
    } else if ps.len() > 1 {
        lemma_quoted_placed(v, ps.drop_last());
        assert(q.drop_last() =~= place_all(v, ps.drop_last()));
        let l = quoted_template(ps.drop_last());
        lemma_fill_append(l + lit(", '"@) + escaped_template(ps.last()), lit(seq!['\'']), x);
        lemma_fill_append(l + lit(", '"@), escaped_template(ps.last()), x);
        lemma_fill_append(l, lit(", '"@), x);
        lemma_fill_one((false, ", '"@), x);
        lemma_fill_one((false, seq!['\'']), x);
        lemma_escaped_placed(v, ps.last());
    } else {
        assert(q.len() == 0);
    }
}

proof fn lemma_psr4_lines_placed(v: Seq<char>, m: Seq<(Seq<char>, Seq<(bool, Seq<char>)>)>)
    ensures
        fill(psr4_lines_template(m), escaped(vendor_prefix(v))) == psr4_lines(place_map(v, m)),
    decreases m.len(),
{
    let x = escaped(vendor_prefix(v));
    let pm = place_map(v, m);
    if m.len() > 0 {
        lemma_psr4_lines_placed(v, m.drop_last());
        assert(pm.drop_last() =~= place_map(v, m.drop_last()));
        let l = psr4_lines_template(m.drop_last());
        let head = "  '"@ + escaped(m.last().0) + "' => array("@;
        lemma_fill_append(l + lit(head) + quoted_template(m.last().1), lit("),\n"@), x);
        lemma_fill_append(l + lit(head), quoted_template(m.last().1), x);
        lemma_fill_append(l, lit(head), x);
        lemma_fill_one((false, head), x);
        lemma_fill_one((false, "),\n"@), x);
        lemma_quoted_placed(v, m.last().1);
        assert(psr4_lines(pm) =~= psr4_lines(pm.drop_last()) + head + quoted_list(pm.last().1) + "),\n"@);
    } else {
        assert(pm.len() == 0);
    }
}

proof fn lemma_files_lines_placed(v: Seq<char>, fs: Seq<(bool, Seq<char>)>)
    ensures
        fill(files_lines_template(fs), escaped(vendor_prefix(v))) == files_lines(place_all(v, fs)),
    decreases fs.len(),
{
    let x = escaped(vendor_prefix(v));
    let pf = place_all(v, fs);
    if fs.len() > 0 {
        lemma_files_lines_placed(v, fs.drop_last());
        assert(pf.drop_last() =~= place_all(v, fs.drop_last()));
        let l = files_lines_template(fs.drop_last());
        lemma_fill_append(l + lit("  '"@) + escaped_template(fs.last()), lit("',\n"@), x);
        lemma_fill_append(l + lit("  '"@), escaped_template(fs.last()), x);
        lemma_fill_append(l, lit("  '"@), x);
        lemma_fill_one((false, "  '"@), x);
        lemma_fill_one((false, "',\n"@), x);
        lemma_escaped_placed(v, fs.last());
        assert(files_lines(pf) =~= files_lines(pf.drop_last()) + "  '"@ + escaped(pf.last()) + "',\n"@);
    } else {
        assert(pf.len() == 0);
    }
}

/// The PSR-4 file of a placed map is its template filled with the escaped
/// vendor directory.
proof fn lemma_psr4_text_placed(v: Seq<char>, m: Seq<(Seq<char>, Seq<(bool, Seq<char>)>)>)
    ensures
        psr4_php(place_map(v, m)) == fill(psr4_text_template(m), escaped(vendor_prefix(v))),
{
    let x = escaped(vendor_prefix(v));
    let h = lit(php_header("autoload_psr4.php"@));
    lemma_fill_append(h + psr4_lines_template(m), lit(");\n"@), x);
    lemma_fill_append(h, psr4_lines_template(m), x);
    lemma_fill_one((false, php_header("autoload_psr4.php"@)), x);
    lemma_fill_one((false, ");\n"@), x);
    lemma_psr4_lines_placed(v, m);
}

proof fn lemma_files_text_placed(v: Seq<char>, fs: Seq<(bool, Seq<char>)>)
    ensures
        files_php(place_all(v, fs)) == fill(files_text_template(fs), escaped(vendor_prefix(v))),
{
    let x = escaped(vendor_prefix(v));
    let h = lit(php_header("autoload_files.php"@));
    lemma_fill_append(h + files_lines_template(fs), lit(");\n"@), x);
    lemma_fill_append(h, files_lines_template(fs), x);
    lemma_fill_one((false, php_header("autoload_files.php"@)), x);
    lemma_fill_one((false, ");\n"@), x);
    lemma_files_lines_placed(v, fs);
}

/// Two autoloaders generated for the same root section and packages under
/// two vendor directories write the same PSR-4 and eager-files text up to
/// the vendor directory: both files are one text with holes, each hole
/// filled with the file's own vendor directory (escaped, and followed by
/// a `/`). Where the root section is an object, its paths are relative to
/// the parent of the vendor directory, which the two then share.
pub proof fn law_autoload_text_independent_of_vendor_dir(a: AutoloadSpecView, b: AutoloadSpecView)
    requires
        a.root_autoload == b.root_autoload,
        a.packages == b.packages,
        root_base(a.vendor_dir) == root_base(b.vendor_dir) || !(a.root_autoload is Object),
    ensures
        psr4_php(collected(a).psr4) == fill(
            psr4_text_template(collected_template(a.root_autoload, root_base(a.vendor_dir), a.packages).psr4),
            escaped(vendor_prefix(a.vendor_dir)),
        ),
        psr4_php(collected(b).psr4) == fill(
            psr4_text_template(collected_template(a.root_autoload, root_base(a.vendor_dir), a.packages).psr4),
            escaped(vendor_prefix(b.vendor_dir)),
        ),
        files_php(collected(a).files) == fill(
            files_text_template(collected_template(a.root_autoload, root_base(a.vendor_dir), a.packages).files),
            escaped(vendor_prefix(a.vendor_dir)),
        ),
        files_php(collected(b).files) == fill(
            files_text_template(collected_template(a.root_autoload, root_base(a.vendor_dir), a.packages).files),
            escaped(vendor_prefix(b.vendor_dir)),
        ),
{
    let t = collected_template(a.root_autoload, root_base(a.vendor_dir), a.packages);
    lemma_collected_placed(a, root_base(a.vendor_dir));
    lemma_collected_placed(b, root_base(a.vendor_dir));
    lemma_psr4_text_placed(a.vendor_dir, t.psr4);
    lemma_psr4_text_placed(b.vendor_dir, t.psr4);
    lemma_files_text_placed(a.vendor_dir, t.files);
    lemma_files_text_placed(b.vendor_dir, t.files);
}

} // verus!
