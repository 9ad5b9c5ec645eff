//! The command line: its commands and their arguments, and how they turn
//! into resolution options and manifest requirements.
use vstd::prelude::*;
use crate::json::{
    lemma_member_removed_gone, lemma_member_removed_other, lemma_member_set_other, lemma_member_set_same, member,
    member_removed, member_set, names_distinct, Json, JsonObject, JsonView,
};
use crate::manifest::ComposerJson;
use crate::resolver::ResolveOptions;
use crate::text::{chars_to_string, str_chars, sub_vec};

verus! {

/// `tusk <command>`.
#[derive(Debug)]
pub struct Cli {
    pub command: Command,
}

/// The subcommands.
#[derive(Debug)]
pub enum Command {
    /// Resolve and install all dependencies declared in composer.json.
    Install(InstallArgs),
    /// Update dependencies to the latest versions allowed by composer.json.
    Update(UpdateArgs),
    /// Add a new package to composer.json and install it.
    Require(RequireArgs),
    /// Remove a package from composer.json and vendor/.
    Remove(RemoveArgs),
}

/// `tusk install`.
#[derive(Debug, Default)]
pub struct InstallArgs {
    /// Skip dev dependencies (require-dev).
    pub no_dev: bool,
    /// Operate quietly (no progress UI).
    pub quiet: bool,
    /// A JSON file of platform requirements (PHP version, extensions).
    pub platform: Option<String>,
    /// The Packagist repository to read metadata from.
    pub packagist_url: Option<String>,
}

/// `tusk update`.
#[derive(Debug, Default)]
pub struct UpdateArgs {
    /// Skip dev dependencies.
    pub no_dev: bool,
    /// Operate quietly.
    pub quiet: bool,
    /// Update only the listed packages.
    pub packages: Vec<String>,
}

/// `tusk require`.
#[derive(Debug)]
pub struct RequireArgs {
    /// Packages in `vendor/package` or `vendor/package:^1.0` form.
    pub packages: Vec<String>,
    /// Add to require-dev instead of require.
    pub dev: bool,
    /// Operate quietly.
    pub quiet: bool,
}

/// `tusk remove`.
#[derive(Debug)]
pub struct RemoveArgs {
    /// Packages to remove.
    pub packages: Vec<String>,
    /// Operate quietly.
    pub quiet: bool,
}

/// Resolution options for a run that does or does not skip development
/// requirements; the other options keep their defaults.
pub fn options_for(no_dev: bool) -> (r: ResolveOptions)
    ensures
        r.include_dev == !no_dev,
        r.minimum_stability@ == Seq::<char>::empty(),
        !r.prefer_stable,
{
    ResolveOptions { include_dev: !no_dev, minimum_stability: String::new(), prefer_stable: false }
}

impl InstallArgs {
    /// The resolution options of this install.
    pub fn resolve_options(&self) -> (r: ResolveOptions)
        ensures
            r.include_dev == !self.no_dev,
            r.minimum_stability@ == Seq::<char>::empty(),
            !r.prefer_stable,
    {
        options_for(self.no_dev)
    }
}

impl UpdateArgs {
    /// The resolution options of this update.
    pub fn resolve_options(&self) -> (r: ResolveOptions)
        ensures
            r.include_dev == !self.no_dev,
            r.minimum_stability@ == Seq::<char>::empty(),
            !r.prefer_stable,
    {
        options_for(self.no_dev)
    }
}

/// The options with the minimum stability and the stable preference that
/// the manifest sets (an absent minimum stability is the default, `stable`).
pub fn with_manifest_stability(opts: ResolveOptions, manifest: &ComposerJson) -> (r: ResolveOptions)
    ensures
        r.include_dev == opts.include_dev,
        r.minimum_stability@ == match manifest.minimum_stability {
            Some(m) => m@,
            None => Seq::<char>::empty(),
        },
        r.prefer_stable == manifest.prefer_stable,
{
    let minimum_stability = match &manifest.minimum_stability {
        Some(m) => m.clone(),
        None => String::new(),
    };
    ResolveOptions { include_dev: opts.include_dev, minimum_stability, prefer_stable: manifest.prefer_stable }
}

/// Index of the first `:` in `s`, or its length.
pub open spec fn colon_at(s: Seq<char>, i: int) -> int
    decreases s.len() - i,
{
    if i < 0 || i >= s.len() {
        s.len() as int
    } else if s[i] == ':' {
        i
    } else {
        colon_at(s, i + 1)
    }
}

/// A `require` argument split into the package name and, after the first
/// `:`, its constraint.
pub open spec fn package_arg(s: Seq<char>) -> (Seq<char>, Option<Seq<char>>) {
    let c = colon_at(s, 0);
    if c < s.len() { (s.take(c), Some(s.skip(c + 1))) } else { (s, None) }
}

/// Splits a `require` argument such as `vendor/package:^1.0` into the
/// package name and its constraint (none without a `:`).
pub fn split_package_arg(arg: &str) -> (r: (String, Option<String>))
    ensures
        r.0@ == package_arg(arg@).0,
        match r.1 {
            Some(c) => package_arg(arg@).1 == Some(c@),
            None => package_arg(arg@).1 is None,
        },
{
    let v = str_chars(arg);
    let mut i: usize = 0;
    while i < v.len() && v[i] != ':'
        invariant
            i <= v.len(),
            v@ == arg@,
            colon_at(v@, 0) == colon_at(v@, i as int),
        decreases v.len() - i,
    {
        i += 1;
    }
    if i < v.len() {
        let name = sub_vec(&v, 0, i);
        let constraint = sub_vec(&v, i + 1, v.len());
        assert(name@ =~= arg@.take(i as int));
        assert(constraint@ =~= arg@.skip(i + 1));
        (chars_to_string(name.as_slice()), Some(chars_to_string(constraint.as_slice())))
    } else {
        (arg.to_string(), None)
    }
}

// ---------------------------------------------------------------------------
// Editing the requirements of composer.json
// ---------------------------------------------------------------------------

/// The members of the object under `key`, or none when there is no object.
pub open spec fn section_of(doc: Seq<(Seq<char>, JsonView)>, key: Seq<char>) -> Seq<(Seq<char>, JsonView)> {
    match member(doc, key) {
        Some(JsonView::Object(o)) => o,
        _ => Seq::empty(),
    }
}

/// The constraint a `require` argument asks for: the text after its first
/// `:`, or `*` when it has none.
pub open spec fn arg_constraint(a: Seq<char>) -> Seq<char> {
    match package_arg(a).1 {
        Some(c) => c,
        None => "*"@,
    }
}

/// A section after each `require` argument, in turn, set its package's
/// constraint (`*` when the argument names none).
pub open spec fn requirements_added(sec: Seq<(Seq<char>, JsonView)>, args: Seq<String>) -> Seq<(Seq<char>, JsonView)>
    decreases args.len(),
{
    if args.len() == 0 {
        sec
    } else {
        member_set(
            requirements_added(sec, args.drop_last()),
            package_arg(args.last()@).0,
            JsonView::Str(arg_constraint(args.last()@)),
        )
    }
}

/// A section after each named package, in turn, was taken out.
pub open spec fn requirements_removed(sec: Seq<(Seq<char>, JsonView)>, names: Seq<String>) -> Seq<(Seq<char>, JsonView)>
    decreases names.len(),
{
    if names.len() == 0 {
        sec
    } else {
        member_removed(requirements_removed(sec, names.drop_last()), names.last()@)
    }
}

/// The section a requirement goes to.
pub open spec fn requirement_key(dev: bool) -> Seq<char> {
    if dev { "require-dev"@ } else { "require"@ }
}

/// The document after `require` of `packages`; a section that is absent
/// (or not an object) starts empty.
pub open spec fn document_required(doc: Seq<(Seq<char>, JsonView)>, dev: bool, packages: Seq<String>) -> Seq<(Seq<char>, JsonView)> {
    let key = requirement_key(dev);
    member_set(doc, key, JsonView::Object(requirements_added(section_of(doc, key), packages)))
}

/// A present section of `doc` under `key` without the named packages.
pub open spec fn section_removed(doc: Seq<(Seq<char>, JsonView)>, key: Seq<char>, names: Seq<String>) -> Seq<(Seq<char>, JsonView)> {
    if member(doc, key) is Some {
        member_set(doc, key, JsonView::Object(requirements_removed(section_of(doc, key), names)))
    } else {
        doc
    }
}

/// The document after `remove` of `names` from `require` and `require-dev`.
pub open spec fn document_removed(doc: Seq<(Seq<char>, JsonView)>, names: Seq<String>) -> Seq<(Seq<char>, JsonView)> {
    section_removed(section_removed(doc, "require"@, names), "require-dev"@, names)
}

/// A copy of the object under `key`, or an empty object.
fn section_copy(doc: &JsonObject, key: &str) -> (r: JsonObject)
    ensures
        r@ == section_of(doc@, key@),
{
    match doc.get(key) {
        Some(j) => match j.copy() {
            Json::Object(o) => o,
            _ => JsonObject::new(),
        },
        None => JsonObject::new(),
    }
}

/// Records each `require` argument (`vendor/package` or
/// `vendor/package:constraint`) in the `require` section, or `require-dev`
/// for `dev`; a package named without a constraint takes `*`.
pub fn add_requirements(doc: &mut JsonObject, dev: bool, packages: &Vec<String>)
    ensures
        final(doc)@ == document_required(old(doc)@, dev, packages@),
{
    proof {
        reveal_strlit("require");
        reveal_strlit("require-dev");
        reveal_strlit("*");
    }
    let key: &str = if dev { "require-dev" } else { "require" };
    let mut sec = section_copy(doc, key);
    let ghost start = sec@;
    let mut i: usize = 0;
    assert(packages@.take(0) =~= Seq::<String>::empty());
    while i < packages.len()
        invariant
            i <= packages.len(),
            sec@ == requirements_added(start, packages@.take(i as int)),
        decreases packages.len() - i,
    {
        let (name, constraint) = split_package_arg(packages[i].as_str());
        let c = match constraint {
            Some(c) => c,
            None => {
                let v = str_chars("*");
                chars_to_string(v.as_slice())
            },
        };
        sec.set(name, Json::Str(c));
        i += 1;
        assert(packages@.take(i as int).drop_last() =~= packages@.take(i - 1));
    }
    assert(packages@.take(packages.len() as int) =~= packages@);
    let k = str_chars(key);
    doc.set(chars_to_string(k.as_slice()), Json::Object(sec));
}

/// Takes the named packages out of a present section under `key`.
fn remove_from_section(doc: &mut JsonObject, key: &str, names: &Vec<String>)
    ensures
        final(doc)@ == section_removed(old(doc)@, key@, names@),
{
    if doc.get(key).is_some() {
        let mut sec = section_copy(doc, key);
        let ghost start = sec@;
        let mut i: usize = 0;
        assert(names@.take(0) =~= Seq::<String>::empty());
        while i < names.len()
            invariant
                i <= names.len(),
                sec@ == requirements_removed(start, names@.take(i as int)),
            decreases names.len() - i,
        {
            let _ = sec.remove(names[i].as_str());
            i += 1;
            assert(names@.take(i as int).drop_last() =~= names@.take(i - 1));
        }
        assert(names@.take(names.len() as int) =~= names@);
        let k = str_chars(key);
        doc.set(chars_to_string(k.as_slice()), Json::Object(sec));
    }
}

/// Takes the named packages out of `require` and `require-dev`, where
/// those sections are present.
pub fn remove_requirements(doc: &mut JsonObject, names: &Vec<String>)
    ensures
        final(doc)@ == document_removed(old(doc)@, names@),
{
    proof {
        reveal_strlit("require");
        reveal_strlit("require-dev");
    }
    remove_from_section(doc, "require", names);
    remove_from_section(doc, "require-dev", names);
}

proof fn lemma_added_reads(sec: Seq<(Seq<char>, JsonView)>, args: Seq<String>, i: int)
    requires
        0 <= i < args.len(),
        forall|j: int| i < j < args.len() ==> package_arg((#[trigger] args[j])@).0 != package_arg(args[i]@).0,
    ensures
        member(requirements_added(sec, args), package_arg(args[i]@).0) == Some(JsonView::Str(arg_constraint(args[i]@))),
    decreases args.len(),
{
    let d = args.drop_last();
    let prev = requirements_added(sec, d);
    let last = args.last()@;
    if i == args.len() - 1 {
        lemma_member_set_same(prev, package_arg(last).0, JsonView::Str(arg_constraint(last)));
    } else {
        assert(d[i] == args[i]);
        assert forall|j: int| i < j < d.len() implies package_arg((#[trigger] d[j])@).0 != package_arg(d[i]@).0 by {
            assert(d[j] == args[j]);
        }
        lemma_added_reads(sec, d, i);
        assert(package_arg(args[args.len() - 1]@).0 != package_arg(args[i]@).0);
        lemma_member_set_other(prev, package_arg(last).0, JsonView::Str(arg_constraint(last)), package_arg(args[i]@).0);
    }
}

/// After `require`, the section it writes to (`require`, or `require-dev`
/// for `dev`) holds each argument's constraint, `*` where none is given,
/// under the argument's package name, unless a later argument names the
/// same package; every other member of the document reads as before.
pub proof fn law_require_records_constraints(doc: Seq<(Seq<char>, JsonView)>, dev: bool, packages: Seq<String>, i: int)
    requires
        0 <= i < packages.len(),
        forall|j: int| i < j < packages.len() ==> package_arg((#[trigger] packages[j])@).0 != package_arg(packages[i]@).0,
    ensures
        member(section_of(document_required(doc, dev, packages), requirement_key(dev)), package_arg(packages[i]@).0)
            == Some(JsonView::Str(arg_constraint(packages[i]@))),
        forall|k: Seq<char>| k != requirement_key(dev) ==> #[trigger] member(document_required(doc, dev, packages), k) == member(doc, k),
{
    let key = requirement_key(dev);
    let sec = requirements_added(section_of(doc, key), packages);
    lemma_member_set_same(doc, key, JsonView::Object(sec));
    lemma_added_reads(section_of(doc, key), packages, i);
    assert forall|k: Seq<char>| k != key implies #[trigger] member(document_required(doc, dev, packages), k) == member(doc, k) by {
        lemma_member_set_other(doc, key, JsonView::Object(sec), k);
    }
}

/// Whether one of `names` is `k`.
pub open spec fn named(names: Seq<String>, k: Seq<char>) -> bool {
    exists|j: int| 0 <= j < names.len() && (#[trigger] names[j])@ == k
}

proof fn lemma_removed_reads(sec: Seq<(Seq<char>, JsonView)>, names: Seq<String>)
    requires
        names_distinct(sec),
    ensures
        names_distinct(requirements_removed(sec, names)),
        forall|k: Seq<char>| #[trigger] member(requirements_removed(sec, names), k)
            == if named(names, k) { None } else { member(sec, k) },
    decreases names.len(),
{
    if names.len() > 0 {
        let d = names.drop_last();
        lemma_removed_reads(sec, d);
        let prev = requirements_removed(sec, d);
        let n = names.last()@;
        lemma_member_removed_gone(prev, n);
        assert forall|k: Seq<char>| #[trigger] member(requirements_removed(sec, names), k)
            == if named(names, k) { None } else { member(sec, k) } by {
            assert(member(prev, k) == if named(d, k) { None } else { member(sec, k) });
            if named(d, k) {
                let j = choose|j: int| 0 <= j < d.len() && (#[trigger] d[j])@ == k;
                assert(names[j] == d[j]);
            }
            if named(names, k) && k != n {
                let j = choose|j: int| 0 <= j < names.len() && (#[trigger] names[j])@ == k;
                assert(j != names.len() - 1);
                assert(d[j] == names[j]);
            }
            if k == n {
                assert(names[names.len() - 1]@ == k);
            } else {
                lemma_member_removed_other(prev, n, k);
            }
        }
    }
}

/// After `remove`, a present `require` or `require-dev` section whose names
/// are distinct (as those of a document read from text are) names none of
/// the removed packages and keeps every other requirement; an absent one
/// stays absent, and every other member of the document reads as before.
pub proof fn law_remove_drops_requirements(doc: Seq<(Seq<char>, JsonView)>, names: Seq<String>)
    requires
        names_distinct(section_of(doc, "require"@)),
        names_distinct(section_of(doc, "require-dev"@)),
    ensures
        member(doc, "require"@) is Some ==> forall|k: Seq<char>|
            #[trigger] member(section_of(document_removed(doc, names), "require"@), k)
                == if named(names, k) { None } else { member(section_of(doc, "require"@), k) },
        member(doc, "require-dev"@) is Some ==> forall|k: Seq<char>|
            #[trigger] member(section_of(document_removed(doc, names), "require-dev"@), k)
                == if named(names, k) { None } else { member(section_of(doc, "require-dev"@), k) },
        member(doc, "require"@) is None ==> member(document_removed(doc, names), "require"@) is None,
        member(doc, "require-dev"@) is None ==> member(document_removed(doc, names), "require-dev"@) is None,
        forall|k: Seq<char>| k != "require"@ && k != "require-dev"@
            ==> #[trigger] member(document_removed(doc, names), k) == member(doc, k),
{
    reveal_strlit("require");
    reveal_strlit("require-dev");
    let r = "require"@;
    let rd = "require-dev"@;
    assert(r != rd) by {
        assert(r.len() != rd.len());
    }
    let doc1 = section_removed(doc, r, names);
    let out = document_removed(doc, names);
    let s1 = requirements_removed(section_of(doc, r), names);
    lemma_removed_reads(section_of(doc, r), names);
    if member(doc, r) is Some {
        lemma_member_set_same(doc, r, JsonView::Object(s1));
        lemma_member_set_other(doc, r, JsonView::Object(s1), rd);
    }
    assert(member(doc1, rd) == member(doc, rd));
    assert(section_of(doc1, rd) == section_of(doc, rd));
    let s2 = requirements_removed(section_of(doc1, rd), names);
    lemma_removed_reads(section_of(doc1, rd), names);
    if member(doc1, rd) is Some {
        lemma_member_set_same(doc1, rd, JsonView::Object(s2));
        lemma_member_set_other(doc1, rd, JsonView::Object(s2), r);
    }
    assert(member(out, r) == member(doc1, r));
    assert forall|k: Seq<char>| k != r && k != rd implies #[trigger] member(out, k) == member(doc, k) by {
        if member(doc, r) is Some {
            lemma_member_set_other(doc, r, JsonView::Object(s1), k);
        }
        if member(doc1, rd) is Some {
            lemma_member_set_other(doc1, rd, JsonView::Object(s2), k);
        }
    }
}

} // verus!
