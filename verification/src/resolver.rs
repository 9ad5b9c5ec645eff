//! Dependency resolution.
//!
//! Breadth-first and greedy: requirements are taken from a queue; each
//! package is resolved once, to the highest version that satisfies every
//! constraint recorded on it so far and is stable enough for the
//! minimum stability (a stable release first, with `prefer_stable`); its own
//! requirements are then queued. A constraint recorded on a package after it
//! was resolved is checked against the version chosen, and a miss is a
//! conflict. Platform requirements (`php`, `ext-*`, `lib-*`, `composer-*`,
//! names without a `/`) are skipped.
use vstd::prelude::*;
use std::collections::VecDeque;
use crate::constraint::{constraint_matches, parse_constraint, Constraint};
use crate::registry::{
    metadata_result_view, registry_lookup, versions_view, DistRef, MockRegistry, PackageMetadata,
    PackageVersion, PackageVersionView, RegistryError, RegistryErrorView,
};
use crate::require_map::{entry_value, key_index, lemma_key_index, pairs_view, require_entries, rm_clone, rm_entries, RequireMap};
use crate::text::{chars_eq, chars_lt, chars_to_string, lower_seq, lower_vec, push_all, push_str, seq_lt, str_chars, sub_vec};
use crate::version::{stability_rank, stability_rank_exec, version_chars, version_lt, version_lt_exec, Version, VersionView};

verus! {

/// Why resolution failed.
#[derive(Debug)]
pub enum ResolveError {
    /// No version of a package that is stable enough satisfies all the
    /// constraints recorded on it, or the version already chosen misses one
    /// recorded later.
    Conflict(String),
    NotFound(String),
    /// The registry could not give a package's metadata.
    Registry { package: String, source: RegistryError },
}

pub enum ResolveErrorView {
    Conflict(Seq<char>),
    NotFound(Seq<char>),
    Registry(Seq<char>, RegistryErrorView),
}

impl View for ResolveError {
    type V = ResolveErrorView;

    open spec fn view(&self) -> ResolveErrorView {
        match self {
            ResolveError::Conflict(m) => ResolveErrorView::Conflict(m@),
            ResolveError::NotFound(m) => ResolveErrorView::NotFound(m@),
            ResolveError::Registry { package, source } => ResolveErrorView::Registry(package@, source@),
        }
    }
}

pub open spec fn resolve_error_text(e: ResolveErrorView) -> Seq<char> {
    match e {
        ResolveErrorView::Conflict(m) => "version solving failed:\n"@ + m,
        ResolveErrorView::NotFound(m) => "package not found in registry: "@ + m,
        ResolveErrorView::Registry(p, s) => "registry error for "@ + p + ": "@ + crate::registry::registry_error_text(s),
    }
}

impl ResolveError {
    /// The error as text (`version solving failed:\n...` for a conflict).
    pub fn message(&self) -> (r: String)
        ensures
            r@ == resolve_error_text(self@),
    {
        let mut out: Vec<char> = Vec::new();
        proof {
            reveal_strlit("version solving failed:\n");
            reveal_strlit("package not found in registry: ");
            reveal_strlit("registry error for ");
            reveal_strlit(": ");
        }
        match self {
            ResolveError::Conflict(m) => {
                push_str(&mut out, "version solving failed:\n");
                push_str(&mut out, m.as_str());
            },
            ResolveError::NotFound(m) => {
                push_str(&mut out, "package not found in registry: ");
                push_str(&mut out, m.as_str());
            },
            ResolveError::Registry { package, source } => {
                push_str(&mut out, "registry error for ");
                push_str(&mut out, package.as_str());
                push_str(&mut out, ": ");
                let s = source.message();
                push_str(&mut out, s.as_str());
            },
        }
        chars_to_string(out.as_slice())
    }
}

/// Resolution options: whether development requirements count, the
/// lowest stability allowed (`dev`, `alpha`, `beta`, `RC`, or `stable`,
/// the default), and whether a stable release is taken over a higher
/// unstable one.
#[derive(Debug, Clone, Default)]
pub struct ResolveOptions {
    pub include_dev: bool,
    pub minimum_stability: String,
    pub prefer_stable: bool,
}

/// A package resolved to one version.
#[derive(Debug)]
pub struct ResolvedDependency {
    pub name: String,
    pub version: Version,
    pub require: RequireMap,
    pub dist: DistRef,
}

/// A resolved package: its name and the chosen version's metadata.
pub struct DepView {
    pub name: Seq<char>,
    pub pv: PackageVersionView,
}

impl View for ResolvedDependency {
    type V = DepView;

    open spec fn view(&self) -> DepView {
        DepView {
            name: self.name@,
            pv: PackageVersionView { version: self.version@, dist: self.dist@, require: require_entries(self.require) },
        }
    }
}

impl ResolvedDependency {
    pub fn copy(&self) -> (r: ResolvedDependency)
        ensures
            r@ == self@,
    {
        ResolvedDependency {
            name: self.name.clone(),
            version: self.version.copy(),
            require: rm_clone(&self.require),
            dist: self.dist.copy(),
        }
    }
}

impl Clone for ResolvedDependency {
    fn clone(&self) -> (r: Self)
        ensures
            r@ == self@,
    {
        self.copy()
    }
}

pub open spec fn deps_view(v: Seq<ResolvedDependency>) -> Seq<DepView> {
    v.map_values(|d: ResolvedDependency| d@)
}

/// Version adapter: a `Version` as the resolver orders it.
#[derive(Debug, Clone)]
pub struct ComposerVersion(pub Version);

// ---------------------------------------------------------------------------
// Specification
// ---------------------------------------------------------------------------

pub open spec fn has_prefix(s: Seq<char>, p: Seq<char>) -> bool {
    p.len() <= s.len() && s.take(p.len() as int) == p
}

/// A platform requirement, not an installable package: `php`, `ext-*`,
/// `lib-*`, `composer-*`, or a name without a `/`.
pub open spec fn is_platform(n: Seq<char>) -> bool {
    n == "php"@ || has_prefix(n, "ext-"@) || has_prefix(n, "lib-"@) || has_prefix(n, "composer-"@)
        || !n.contains('/')
}

/// The resolver's state: every constraint recorded so far as
/// `(package, constraint, requested by)`, the queue of package names, the
/// resolved packages sorted by name, and the stability policy.
pub struct RState {
    pub cons: Seq<(Seq<char>, Seq<char>, Seq<char>)>,
    pub queue: Seq<Seq<char>>,
    pub resolved: Seq<DepView>,
    /// The lowest stability allowed, as a `stability_rank`.
    pub min_rank: nat,
    /// Whether a stable release is taken over a higher unstable one.
    pub prefer_stable: bool,
}

pub open spec fn has_dep(resolved: Seq<DepView>, n: Seq<char>) -> bool {
    exists|i: int| 0 <= i < resolved.len() && resolved[i].name == n
}

/// The constraints recorded on `n`, as `(constraint, requested by)`, in the
/// order they were recorded.
pub open spec fn cons_for(cons: Seq<(Seq<char>, Seq<char>, Seq<char>)>, n: Seq<char>) -> Seq<(Seq<char>, Seq<char>)>
    decreases cons.len(),
{
    if cons.len() == 0 {
        Seq::empty()
    } else {
        let rest = cons_for(cons.drop_last(), n);
        if cons.last().0 == n { rest.push((cons.last().1, cons.last().2)) } else { rest }
    }
}

/// `v` satisfies the constraint text `c`; text that does not parse
/// constrains nothing.
pub open spec fn cmatch(c: Seq<char>, v: VersionView) -> bool {
    match parse_constraint(c) {
        Some(b) => constraint_matches(b, v),
        None => true,
    }
}

pub open spec fn all_match(cs: Seq<(Seq<char>, Seq<char>)>, v: VersionView) -> bool {
    forall|k: int| 0 <= k < cs.len() ==> cmatch(#[trigger] cs[k].0, v)
}

/// `v` satisfies every constraint in `cs` and is at least as stable as the
/// rank `floor`.
pub open spec fn eligible(cs: Seq<(Seq<char>, Seq<char>)>, floor: nat, v: VersionView) -> bool {
    all_match(cs, v) && stability_rank(v.stability) >= floor
}

/// Index of the highest version in `vs[i..]` (the first of equals) that is
/// eligible under `cs` and `floor`, given the best so far `cur` (`-1` for
/// none).
pub open spec fn best_from(vs: Seq<PackageVersionView>, cs: Seq<(Seq<char>, Seq<char>)>, floor: nat, i: int, cur: int) -> int
    decreases vs.len() - i,
{
    if i >= vs.len() || i < 0 {
        cur
    } else if eligible(cs, floor, vs[i].version) && (cur < 0 || version_lt(vs[cur].version, vs[i].version)) {
        best_from(vs, cs, floor, i + 1, i)
    } else {
        best_from(vs, cs, floor, i + 1, cur)
    }
}

pub open spec fn best_index(vs: Seq<PackageVersionView>, cs: Seq<(Seq<char>, Seq<char>)>, floor: nat) -> int {
    best_from(vs, cs, floor, 0, -1)
}

/// The version chosen among `vs` for the constraints `cs`: with
/// `prefer_stable`, the highest stable one that satisfies them, when there
/// is one; otherwise the highest one that satisfies them and is at least
/// as stable as `min_rank`.
pub open spec fn choose_index(vs: Seq<PackageVersionView>, cs: Seq<(Seq<char>, Seq<char>)>, min_rank: nat, prefer_stable: bool) -> int {
    if prefer_stable && best_index(vs, cs, 4) >= 0 {
        best_index(vs, cs, 4)
    } else {
        best_index(vs, cs, min_rank)
    }
}

/// The rank of a `minimum-stability` setting: `dev`, `alpha`, `beta`, `RC`
/// (in any case); anything else, `stable` and the empty setting among them,
/// is `stable`.
pub open spec fn min_rank_of(s: Seq<char>) -> nat {
    let l = lower_seq(s);
    if l == "dev"@ {
        0
    } else if l == "alpha"@ {
        1
    } else if l == "beta"@ {
        2
    } else if l == "rc"@ {
        3
    } else {
        4
    }
}

/// Where a dependency named `n` goes among `s[i..]`, kept sorted by name.
pub open spec fn sorted_pos(s: Seq<DepView>, n: Seq<char>, i: int) -> int
    decreases s.len() - i,
{
    if i >= s.len() || i < 0 {
        s.len() as int
    } else if seq_lt(n, s[i].name) {
        i
    } else {
        sorted_pos(s, n, i + 1)
    }
}

pub proof fn lemma_sorted_pos(s: Seq<DepView>, n: Seq<char>, i: int)
    requires
        0 <= i <= s.len(),
    ensures
        i <= sorted_pos(s, n, i) <= s.len(),
    decreases s.len() - i,
{
    if i < s.len() && !seq_lt(n, s[i].name) {
        lemma_sorted_pos(s, n, i + 1);
    }
}

pub open spec fn insert_sorted(s: Seq<DepView>, d: DepView) -> Seq<DepView> {
    s.insert(sorted_pos(s, d.name, 0), d)
}

/// The non-platform requirements of `req`, recorded as requested by `src`.
pub open spec fn new_cons(req: Seq<(Seq<char>, Seq<char>)>, src: Seq<char>) -> Seq<(Seq<char>, Seq<char>, Seq<char>)>
    decreases req.len(),
{
    if req.len() == 0 {
        Seq::empty()
    } else {
        let rest = new_cons(req.drop_last(), src);
        if is_platform(req.last().0) { rest } else { rest.push((req.last().0, req.last().1, src)) }
    }
}

/// The non-platform names of `req`, in order.
pub open spec fn new_names(req: Seq<(Seq<char>, Seq<char>)>) -> Seq<Seq<char>>
    decreases req.len(),
{
    if req.len() == 0 {
        Seq::empty()
    } else {
        let rest = new_names(req.drop_last());
        if is_platform(req.last().0) { rest } else { rest.push(req.last().0) }
    }
}

pub open spec fn join_from(items: Seq<Seq<char>>, sep: Seq<char>, i: int, acc: Seq<char>) -> Seq<char>
    decreases items.len() - i,
{
    if i >= items.len() || i < 0 {
        acc
    } else {
        join_from(items, sep, i + 1, if i == 0 { acc + items[i] } else { acc + sep + items[i] })
    }
}

/// `items` joined with `sep`.
pub open spec fn join(items: Seq<Seq<char>>, sep: Seq<char>) -> Seq<char> {
    join_from(items, sep, 0, Seq::empty())
}

pub open spec fn conflict_line(n: Seq<char>, c: (Seq<char>, Seq<char>)) -> Seq<char> {
    "  "@ + c.1 + " requires "@ + n + ": "@ + c.0
}

/// The conflict report: the constraints recorded on `n` and the versions
/// the registry offers.
pub open spec fn conflict_text(n: Seq<char>, cs: Seq<(Seq<char>, Seq<char>)>, vs: Seq<PackageVersionView>) -> Seq<char> {
    "No version of "@ + n + " satisfies all constraints:\n"@
        + join(Seq::new(cs.len(), |k: int| conflict_line(n, cs[k])), "\n"@) + "\n\nAvailable versions: "@
        + join(Seq::new(vs.len(), |k: int| version_chars(vs[k].version)), ", "@)
}

pub enum Step {
    Continue(RState),
    Done(Seq<DepView>),
    Fail(ResolveErrorView),
}

/// Index of the resolved package named `n`, or `-1`.
pub open spec fn dep_index(s: Seq<DepView>, n: Seq<char>) -> int
    decreases s.len(),
{
    if s.len() == 0 {
        -1
    } else if dep_index(s.drop_last(), n) >= 0 {
        dep_index(s.drop_last(), n)
    } else if s.last().name == n {
        s.len() - 1
    } else {
        -1
    }
}

pub proof fn lemma_dep_index(s: Seq<DepView>, n: Seq<char>)
    ensures
        -1 <= dep_index(s, n) < s.len(),
        dep_index(s, n) >= 0 ==> s[dep_index(s, n)].name == n,
        dep_index(s, n) >= 0 <==> has_dep(s, n),
        forall|j: int| 0 <= j < s.len() && (dep_index(s, n) == -1 || j < dep_index(s, n)) ==> s[j].name != n,
    decreases s.len(),
{
    if s.len() > 0 {
        lemma_dep_index(s.drop_last(), n);
        assert forall|j: int| 0 <= j < s.len() - 1 implies s.drop_last()[j] == s[j] by {}
        if has_dep(s, n) && dep_index(s, n) < 0 {
            let j = choose|j: int| 0 <= j < s.len() && s[j].name == n;
            assert(j < s.len() - 1 ==> s.drop_last()[j].name == n);
        }
        if dep_index(s, n) >= 0 {
            assert(s[dep_index(s, n)].name == n);
        }
    }
}

/// The resolved package named `n` satisfies every constraint recorded on it.
pub open spec fn holds(st: RState, n: Seq<char>) -> bool {
    dep_index(st.resolved, n) >= 0 && all_match(cons_for(st.cons, n), st.resolved[dep_index(st.resolved, n)].pv.version)
}

/// The head of the queue needs no metadata: a platform requirement, or a
/// package already resolved at a version that satisfies every constraint
/// recorded on it (the new ones among them).
pub open spec fn skippable(st: RState) -> bool {
    st.queue.len() > 0 && (is_platform(st.queue[0]) || holds(st, st.queue[0]))
}

/// Resolves the head of the queue with the registry's answer `md`. A head
/// already resolved (at a version that misses a constraint recorded on it
/// since) is a conflict naming that version.
pub open spec fn resolve_head(st: RState, md: Result<Seq<PackageVersionView>, RegistryErrorView>) -> Step {
    let n = st.queue[0];
    let i = dep_index(st.resolved, n);
    if i >= 0 {
        Step::Fail(ResolveErrorView::Conflict(conflict_text(n, cons_for(st.cons, n), seq![st.resolved[i].pv])))
    } else {
    match md {
        Err(e) => Step::Fail(ResolveErrorView::Registry(n, e)),
        Ok(vs) => {
            let cs = cons_for(st.cons, n);
            let b = choose_index(vs, cs, st.min_rank, st.prefer_stable);
            if b < 0 {
                Step::Fail(ResolveErrorView::Conflict(conflict_text(n, cs, vs)))
            } else {
                let pv = vs[b];
                Step::Continue(RState {
                    cons: st.cons + new_cons(pv.require, n),
                    queue: st.queue.drop_first() + new_names(pv.require),
                    resolved: insert_sorted(st.resolved, DepView { name: n, pv }),
                    ..st
                })
            }
        },
    }
    }
}

/// One step against a registry holding `reg`.
pub open spec fn step(st: RState, reg: Seq<(Seq<char>, Seq<PackageVersionView>)>) -> Step {
    if st.queue.len() == 0 {
        Step::Done(st.resolved)
    } else if skippable(st) {
        Step::Continue(RState { queue: st.queue.drop_first(), ..st })
    } else {
        resolve_head(st, registry_lookup(reg, st.queue[0]))
    }
}

/// States reachable in a resolution against `reg`: resolved names are
/// distinct and known to the registry.
pub open spec fn wf(st: RState, reg: Seq<(Seq<char>, Seq<PackageVersionView>)>) -> bool {
    &&& forall|i: int, j: int| 0 <= i < j < st.resolved.len() ==> st.resolved[i].name != st.resolved[j].name
    &&& forall|i: int| 0 <= i < st.resolved.len() ==> key_index(reg, #[trigger] st.resolved[i].name) >= 0
}

pub proof fn lemma_count_known(names: Seq<Seq<char>>, reg: Seq<(Seq<char>, Seq<PackageVersionView>)>)
    requires
        forall|i: int, j: int| 0 <= i < j < names.len() ==> names[i] != names[j],
        forall|i: int| 0 <= i < names.len() ==> key_index(reg, #[trigger] names[i]) >= 0,
    ensures
        names.len() <= reg.len(),
{
    let idx = Seq::new(names.len(), |i: int| key_index(reg, names[i]));
    assert forall|i: int| 0 <= i < names.len() implies reg[key_index(reg, names[i])].0 == names[i] by {
        lemma_key_index(reg, names[i]);
    }
    assert(idx.no_duplicates()) by {
        assert forall|i: int, j: int| 0 <= i < idx.len() && 0 <= j < idx.len() && i != j implies idx[i] != idx[j] by {
            if idx[i] == idx[j] {
                assert(reg[idx[i]].0 == names[i]);
                assert(reg[idx[j]].0 == names[j]);
                if i < j {
                    assert(names[i] != names[j]);
                } else {
                    assert(names[j] != names[i]);
                }
            }
        }
    }
    idx.unique_seq_to_set();
    assert forall|k: int| idx.to_set().contains(k) implies vstd::set_lib::set_int_range(0, reg.len() as int).contains(k) by {
        let i = choose|i: int| 0 <= i < idx.len() && idx[i] == k;
        lemma_key_index(reg, names[i]);
    }
    vstd::set_lib::lemma_int_range(0, reg.len() as int);
    vstd::set_lib::lemma_len_subset(idx.to_set(), vstd::set_lib::set_int_range(0, reg.len() as int));
}

/// One step of `run`.
pub proof fn lemma_run_unfold(st: RState, reg: Seq<(Seq<char>, Seq<PackageVersionView>)>)
    requires
        wf(st, reg),
    ensures
        run(st, reg) == match step(st, reg) {
            Step::Continue(s2) => run(s2, reg),
            Step::Done(d) => Ok(d),
            Step::Fail(e) => Err(e),
        },
{
    reveal_with_fuel(run, 1);
}

pub open spec fn measure(st: RState, reg: Seq<(Seq<char>, Seq<PackageVersionView>)>) -> nat {
    if st.resolved.len() <= reg.len() { (reg.len() - st.resolved.len()) as nat } else { 0 }
}

/// The outcome of resolving from state `st` against a registry holding `reg`.
#[verifier::opaque]
pub open spec fn run(st: RState, reg: Seq<(Seq<char>, Seq<PackageVersionView>)>) -> Result<Seq<DepView>, ResolveErrorView>
    decreases measure(st, reg), st.queue.len(),
{
    if !wf(st, reg) {
        Ok(Seq::empty())
    } else {
    match step(st, reg) {
        Step::Continue(s2) => {
            proof {
                if !skippable(st) {
                    let n = st.queue[0];
                    let names = Seq::new(st.resolved.len(), |i: int| st.resolved[i].name).push(n);
                    assert(key_index(reg, n) >= 0) by {
                        lemma_key_index(reg, n);
                    }
                    lemma_dep_index(st.resolved, n);
                    assert forall|i: int, j: int| 0 <= i < j < names.len() implies names[i] != names[j] by {
                        if j == names.len() - 1 {
                            assert(!has_dep(st.resolved, n));
                        }
                    }
                    assert forall|i: int| 0 <= i < names.len() implies key_index(reg, #[trigger] names[i]) >= 0 by {
                        if i < st.resolved.len() {
                            assert(key_index(reg, st.resolved[i].name) >= 0);
                        }
                    }
                    lemma_count_known(names, reg);
                    lemma_sorted_pos(st.resolved, n, 0);
                    assert(s2.resolved.len() == st.resolved.len() + 1);
                }
            }
            run(s2, reg)
        },
        Step::Done(d) => Ok(d),
        Step::Fail(e) => Err(e),
    }
}
}

/// Entries of a requirement map as `(package, constraint, requested by)`.
pub open spec fn root_cons(req: Seq<(Seq<char>, Seq<char>)>, src: Seq<char>) -> Seq<(Seq<char>, Seq<char>, Seq<char>)> {
    Seq::new(req.len(), |i: int| (req[i].0, req[i].1, src))
}

pub open spec fn root_names(req: Seq<(Seq<char>, Seq<char>)>) -> Seq<Seq<char>> {
    Seq::new(req.len(), |i: int| req[i].0)
}

/// The state a resolution starts from: the root requirements (and the
/// development ones when included) recorded and queued.
pub open spec fn init_state(
    root: Seq<(Seq<char>, Seq<char>)>,
    dev: Seq<(Seq<char>, Seq<char>)>,
    include_dev: bool,
    min_rank: nat,
    prefer_stable: bool,
) -> RState {
    RState {
        min_rank,
        prefer_stable,
        cons: root_cons(root, "<root>"@) + (if include_dev { root_cons(dev, "<root-dev>"@) } else { Seq::empty() }),
        queue: root_names(root) + (if include_dev { root_names(dev) } else { Seq::empty() }),
        resolved: Seq::empty(),
    }
}

/// The result of resolving `root` (and `dev` when included) against a
/// registry holding `reg`.
pub open spec fn resolution(
    reg: Seq<(Seq<char>, Seq<PackageVersionView>)>,
    root: Seq<(Seq<char>, Seq<char>)>,
    dev: Seq<(Seq<char>, Seq<char>)>,
    include_dev: bool,
    min_rank: nat,
    prefer_stable: bool,
) -> Result<Seq<DepView>, ResolveErrorView> {
    run(init_state(root, dev, include_dev, min_rank, prefer_stable), reg)
}


// ---------------------------------------------------------------------------
// Executable resolution
// ---------------------------------------------------------------------------

pub open spec fn triples_view(v: Seq<(String, String, String)>) -> Seq<(Seq<char>, Seq<char>, Seq<char>)> {
    v.map_values(|t: (String, String, String)| (t.0@, t.1@, t.2@))
}

pub open spec fn strings_view(v: Seq<String>) -> Seq<Seq<char>> {
    v.map_values(|s: String| s@)
}

pub open spec fn cons_pairs_view(v: Seq<(String, String)>) -> Seq<(Seq<char>, Seq<char>)> {
    v.map_values(|t: (String, String)| (t.0@, t.1@))
}

/// A resolution in progress. `next_request` names the package whose
/// metadata is needed next; `accept` takes the registry's answer for it.
pub struct ResolveState {
    cons: Vec<(String, String, String)>,
    queue: VecDeque<String>,
    resolved: Vec<ResolvedDependency>,
    min_rank: u8,
    prefer_stable: bool,
}

impl View for ResolveState {
    type V = RState;

    closed spec fn view(&self) -> RState {
        RState {
            cons: triples_view(self.cons@),
            queue: strings_view(self.queue@),
            resolved: deps_view(self.resolved@),
            min_rank: self.min_rank as nat,
            prefer_stable: self.prefer_stable,
        }
    }
}

/// Pops every head of the queue that needs no metadata.
pub open spec fn skip_all(st: RState) -> RState
    decreases st.queue.len(),
{
    if skippable(st) {
        skip_all(RState { queue: st.queue.drop_first(), ..st })
    } else {
        st
    }
}

/// What `accept` does with the registry's answer `md` for the head.
pub open spec fn accept_step(st: RState, md: Result<Seq<PackageVersionView>, RegistryErrorView>) -> Step {
    if st.queue.len() == 0 {
        Step::Continue(st)
    } else if skippable(st) {
        Step::Continue(RState { queue: st.queue.drop_first(), ..st })
    } else {
        resolve_head(st, md)
    }
}

pub fn is_platform_exec(n: &Vec<char>) -> (r: bool)
    ensures
        r == is_platform(n@),
{
    proof {
        reveal_strlit("php");
        reveal_strlit("ext-");
        reveal_strlit("lib-");
        reveal_strlit("composer-");
    }
    let php = str_chars("php");
    if chars_eq(n, &php) {
        return true;
    }
    if has_prefix_exec(n, "ext-") || has_prefix_exec(n, "lib-") || has_prefix_exec(n, "composer-") {
        return true;
    }
    let mut i: usize = 0;
    while i < n.len()
        invariant
            i <= n.len(),
            n@ != "php"@,
            !has_prefix(n@, "ext-"@),
            !has_prefix(n@, "lib-"@),
            !has_prefix(n@, "composer-"@),
            forall|k: int| 0 <= k < i ==> n@[k] != '/',
        decreases n.len() - i,
    {
        if n[i] == '/' {
            assert(n@[i as int] == '/');
            assert(n@.contains('/'));
            assert(n@ != "php"@);
            assert(!has_prefix(n@, "ext-"@));
            assert(!is_platform(n@));
            return false;
        }
        i += 1;
    }
    true
}

fn has_prefix_exec(n: &Vec<char>, p: &str) -> (r: bool)
    ensures
        r == has_prefix(n@, p@),
{
    let pv = str_chars(p);
    if pv.len() > n.len() {
        return false;
    }
    let mut i: usize = 0;
    while i < pv.len()
        invariant
            i <= pv.len(),
            pv.len() <= n.len(),
            pv@ == p@,
            forall|k: int| 0 <= k < i ==> n@[k] == pv@[k],
        decreases pv.len() - i,
    {
        if n[i] != pv[i] {
            assert(n@.take(pv.len() as int)[i as int] != pv@[i as int]);
            return false;
        }
        i += 1;
    }
    assert(n@.take(pv.len() as int) =~= pv@);
    true
}

fn name_lt(n: &Vec<char>, s: &String) -> (r: bool)
    ensures
        r == seq_lt(n@, s@),
{
    let m = str_chars(s.as_str());
    chars_lt(n, &m)
}

fn string_chars(s: &String) -> (r: Vec<char>)
    ensures
        r@ == s@,
{
    str_chars(s.as_str())
}

/// The rank of a `minimum-stability` setting (see `min_rank_of`).
pub fn min_stability_rank(s: &str) -> (r: u8)
    ensures
        r as nat == min_rank_of(s@),
{
    let l = lower_vec(&str_chars(s));
    if chars_eq(&l, &str_chars("dev")) {
        0
    } else if chars_eq(&l, &str_chars("alpha")) {
        1
    } else if chars_eq(&l, &str_chars("beta")) {
        2
    } else if chars_eq(&l, &str_chars("rc")) {
        3
    } else {
        4
    }
}

/// A platform requirement (`php`, `ext-*`, `lib-*`, `composer-*`, or a name
/// without a `/`), which is not an installable package.
pub fn is_platform_requirement(name: &str) -> (r: bool)
    ensures
        r == is_platform(name@),
{
    let v = str_chars(name);
    is_platform_exec(&v)
}

/// Splits `vendor/package` at the first `/`; a name without one is all
/// vendor, with an empty package.
pub fn split_name(full: &str) -> (r: (String, String))
    ensures
        full@.contains('/') ==> r.0@ + "/"@ + r.1@ == full@ && !r.0@.contains('/'),
        !full@.contains('/') ==> r.0@ == full@ && r.1@ == Seq::<char>::empty(),
{
    proof {
        reveal_strlit("/");
    }
    let v = str_chars(full);
    let mut i: usize = 0;
    while i < v.len() && v[i] != '/'
        invariant
            i <= v.len(),
            v@ == full@,
            forall|k: int| 0 <= k < i ==> v@[k] != '/',
        decreases v.len() - i,
    {
        i += 1;
    }
    if i == v.len() {
        assert(!full@.contains('/'));
        let e: Vec<char> = Vec::new();
        assert(e@ =~= Seq::<char>::empty());
        (chars_to_string(v.as_slice()), chars_to_string(e.as_slice()))
    } else {
        let a = sub_vec(&v, 0, i);
        let b = sub_vec(&v, i + 1, v.len());
        assert(a@ + "/"@ + b@ =~= full@);
        assert(!a@.contains('/')) by {
            if a@.contains('/') {
                let k = choose|k: int| 0 <= k < a@.len() && a@[k] == '/';
                assert(v@[k] == '/');
            }
        }
        (chars_to_string(a.as_slice()), chars_to_string(b.as_slice()))
    }
}

impl ResolveState {
    /// A resolution of `root` (and `dev` when `opts.include_dev`).
    pub fn start(root: &RequireMap, dev: &RequireMap, opts: &ResolveOptions) -> (s: Self)
        ensures
            s@ == init_state(
                require_entries(*root),
                require_entries(*dev),
                opts.include_dev,
                min_rank_of(opts.minimum_stability@),
                opts.prefer_stable,
            ),
    {
        let mut cons: Vec<(String, String, String)> = Vec::new();
        let mut queue: VecDeque<String> = VecDeque::new();
        proof {
            reveal_strlit("<root>");
            reveal_strlit("<root-dev>");
        }
        let r = rm_entries(root);
        let ghost rv = pairs_view(r@);
        let mut i: usize = 0;
        while i < r.len()
            invariant
                i <= r.len(),
                rv == pairs_view(r@),
                triples_view(cons@) == root_cons(rv.take(i as int), "<root>"@),
                strings_view(queue@) == root_names(rv.take(i as int)),
            decreases r.len() - i,
        {
            let ghost c0 = triples_view(cons@);
            let ghost q0 = strings_view(queue@);
            let src = chars_to_string(str_chars("<root>").as_slice());
            assert(rv[i as int] == (r@[i as int].0@, r@[i as int].1@));
            cons.push((r[i].0.clone(), r[i].1.clone(), src));
            queue.push_back(r[i].0.clone());
            assert(triples_view(cons@) =~= c0.push((rv[i as int].0, rv[i as int].1, "<root>"@)));
            assert(strings_view(queue@) =~= q0.push(rv[i as int].0));
            assert(rv.take(i + 1) =~= rv.take(i as int).push(rv[i as int]));
            i += 1;
            assert(triples_view(cons@) =~= root_cons(rv.take(i as int), "<root>"@));
            assert(strings_view(queue@) =~= root_names(rv.take(i as int)));
        }
        assert(rv.take(r.len() as int) =~= rv);
        let ghost c_root = triples_view(cons@);
        let ghost q_root = strings_view(queue@);
        let d = rm_entries(dev);
        let ghost dv = pairs_view(d@);
        if opts.include_dev {
            let mut j: usize = 0;
            while j < d.len()
                invariant
                    j <= d.len(),
                    dv == pairs_view(d@),
                    triples_view(cons@) == c_root + root_cons(dv.take(j as int), "<root-dev>"@),
                    strings_view(queue@) == q_root + root_names(dv.take(j as int)),
                decreases d.len() - j,
            {
                let src = chars_to_string(str_chars("<root-dev>").as_slice());
                let ghost c0 = triples_view(cons@);
                let ghost q0 = strings_view(queue@);
                assert(dv[j as int] == (d@[j as int].0@, d@[j as int].1@));
                cons.push((d[j].0.clone(), d[j].1.clone(), src));
                queue.push_back(d[j].0.clone());
                assert(triples_view(cons@) =~= c0.push((dv[j as int].0, dv[j as int].1, "<root-dev>"@)));
                assert(strings_view(queue@) =~= q0.push(dv[j as int].0));
                assert(dv.take(j + 1) =~= dv.take(j as int).push(dv[j as int]));
                j += 1;
                assert(triples_view(cons@) =~= c_root + root_cons(dv.take(j as int), "<root-dev>"@));
                assert(strings_view(queue@) =~= q_root + root_names(dv.take(j as int)));
            }
            assert(dv.take(d.len() as int) =~= dv);
        } else {
            assert(triples_view(cons@) =~= c_root + Seq::<(Seq<char>, Seq<char>, Seq<char>)>::empty());
            assert(strings_view(queue@) =~= q_root + Seq::<Seq<char>>::empty());
        }
        let min_rank = min_stability_rank(opts.minimum_stability.as_str());
        let s = ResolveState { cons, queue, resolved: Vec::new(), min_rank, prefer_stable: opts.prefer_stable };
        assert(deps_view(s.resolved@) =~= Seq::<DepView>::empty());
        s
    }

    fn dep_index_exec(&self, n: &Vec<char>) -> (r: Option<usize>)
        ensures
            match r {
                Some(i) => dep_index(self@.resolved, n@) == i && i < self.resolved.len(),
                None => dep_index(self@.resolved, n@) == -1,
            },
    {
        proof { lemma_dep_index(self@.resolved, n@); }
        let mut i: usize = 0;
        while i < self.resolved.len()
            invariant
                i <= self.resolved.len(),
                self@.resolved.len() == self.resolved.len(),
                forall|k: int| 0 <= k < i ==> self@.resolved[k].name != n@,
            decreases self.resolved.len() - i,
        {
            let m = string_chars(&self.resolved[i].name);
            assert(self@.resolved[i as int].name == self.resolved@[i as int].name@);
            if chars_eq(&m, n) {
                proof {
                    lemma_dep_index(self@.resolved, n@);
                    let d = dep_index(self@.resolved, n@);
                    if d == -1 || d > i {
                        assert(self@.resolved[i as int].name != n@);
                    }
                }
                return Some(i);
            }
            i += 1;
        }
        proof { lemma_dep_index(self@.resolved, n@); }
        None
    }

    fn holds_exec(&self, n: &Vec<char>) -> (r: bool)
        ensures
            r == holds(self@, n@),
    {
        match self.dep_index_exec(n) {
            None => false,
            Some(i) => {
                let cs = self.cons_for_exec(n);
                let parsed = parse_all(&cs);
                assert(self@.resolved[i as int].pv.version == self.resolved@[i as int].version@);
                all_match_exec(&parsed, &self.resolved[i].version, Ghost(cons_pairs_view(cs@)))
            },
        }
    }

    /// Drops the queued names that need no metadata (platform requirements
    /// and packages already resolved at a version that satisfies every
    /// constraint recorded on them); then names the package to fetch next,
    /// or nothing when the queue is empty.
    pub fn next_request(&mut self) -> (r: Option<String>)
        ensures
            final(self)@ == skip_all(old(self)@),
            match r {
                Some(n) => final(self)@.queue.len() > 0 && n@ == final(self)@.queue[0],
                None => final(self)@.queue.len() == 0,
            },
    {
        loop
            invariant
                skip_all(self@) == skip_all(old(self)@),
            decreases self@.queue.len(),
        {
            if self.queue.len() == 0 {
                return None;
            }
            let head = string_chars(&self.queue[0]);
            assert(self@.queue[0] == self.queue@[0]@);
            if is_platform_exec(&head) || self.holds_exec(&head) {
                let ghost before = self@;
                let _ = self.queue.pop_front();
                assert(strings_view(self.queue@) =~= before.queue.drop_first());
                assert(self@ == RState { queue: before.queue.drop_first(), ..before });
            } else {
                return Some(self.queue[0].clone());
            }
        }
    }

    fn cons_for_exec(&self, n: &Vec<char>) -> (r: Vec<(String, String)>)
        ensures
            cons_pairs_view(r@) == cons_for(self@.cons, n@),
    {
        let mut out: Vec<(String, String)> = Vec::new();
        let ghost cv = self@.cons;
        let mut i: usize = 0;
        assert(cv.take(0) =~= Seq::<(Seq<char>, Seq<char>, Seq<char>)>::empty());
        assert(cons_pairs_view(out@) =~= Seq::<(Seq<char>, Seq<char>)>::empty());
        while i < self.cons.len()
            invariant
                i <= self.cons.len(),
                cv == self@.cons,
                cv.len() == self.cons.len(),
                cons_pairs_view(out@) == cons_for(cv.take(i as int), n@),
            decreases self.cons.len() - i,
        {
            let m = string_chars(&self.cons[i].0);
            assert(cv[i as int] == (self.cons@[i as int].0@, self.cons@[i as int].1@, self.cons@[i as int].2@));
            assert(cv.take(i + 1).drop_last() =~= cv.take(i as int));
            let ghost before = cons_pairs_view(out@);
            if chars_eq(&m, n) {
                out.push((self.cons[i].1.clone(), self.cons[i].2.clone()));
                assert(cons_pairs_view(out@) =~= before.push((cv[i as int].1, cv[i as int].2)));
            }
            i += 1;
        }
        assert(cv.take(self.cons.len() as int) =~= cv);
        out
    }

    /// Takes the registry's answer for the package named by `next_request`
    /// and resolves it: to the highest version that satisfies every
    /// constraint recorded on it (the first of equal versions), queueing its
    /// requirements; or fails with a conflict report or the registry error.
    pub fn accept(&mut self, md: Result<PackageMetadata, RegistryError>) -> (r: Result<(), ResolveError>)
        ensures
            match accept_step(old(self)@, metadata_result_view(md)) {
                Step::Continue(s2) => r is Ok && final(self)@ == s2,
                Step::Fail(e) => r matches Err(x) && x@ == e,
                Step::Done(_) => false,
            },
    {
        if self.queue.len() == 0 {
            return Ok(());
        }
        let head = string_chars(&self.queue[0]);
        assert(self@.queue[0] == self.queue@[0]@);
        if is_platform_exec(&head) || self.holds_exec(&head) {
            let ghost before = self@;
            let _ = self.queue.pop_front();
            assert(strings_view(self.queue@) =~= before.queue.drop_first());
            assert(self@ == RState { queue: before.queue.drop_first(), ..before });
            return Ok(());
        }
        let ghost st = self@;
        let ghost n = st.queue[0];
        match self.dep_index_exec(&head) {
            Some(i) => {
                let cs = self.cons_for_exec(&head);
                let d = &self.resolved[i];
                let pv = PackageVersion { version: d.version.copy(), dist: d.dist.copy(), require: rm_clone(&d.require) };
                assert(pv@ == st.resolved[i as int].pv);
                let one = vec![pv];
                assert(versions_view(one@) =~= seq![st.resolved[i as int].pv]);
                let msg = conflict_message(&head, &cs, &one);
                return Err(ResolveError::Conflict(msg));
            },
            None => {},
        }
        match md {
            Err(e) => {
                let name = self.queue[0].clone();
                Err(ResolveError::Registry { package: name, source: e })
            },
            Ok(meta) => {
                let cs = self.cons_for_exec(&head);
                let ghost vs = meta@;
                let chosen = if self.prefer_stable {
                    match best_index_exec(&meta.versions, &cs, 4) {
                        Some(b) => Some(b),
                        None => best_index_exec(&meta.versions, &cs, self.min_rank),
                    }
                } else {
                    best_index_exec(&meta.versions, &cs, self.min_rank)
                };
                assert(match chosen {
                    Some(b) => choose_index(vs, cons_pairs_view(cs@), st.min_rank, st.prefer_stable) == b && b < meta.versions.len(),
                    None => choose_index(vs, cons_pairs_view(cs@), st.min_rank, st.prefer_stable) < 0,
                });
                match chosen {
                    None => {
                        let msg = conflict_message(&head, &cs, &meta.versions);
                        Err(ResolveError::Conflict(msg))
                    },
                    Some(b) => {
                        let pv = meta.versions[b].copy();
                        assert(vs[b as int] == meta.versions@[b as int]@);
                        let name = self.queue.pop_front().unwrap();
                        assert(name@ == n);
                        assert(strings_view(self.queue@) =~= st.queue.drop_first());
                        let ghost pvv = pv@;
                        let entries = rm_entries(&pv.require);
                        let ghost ev = pairs_view(entries@);
                        let ghost cons0 = self@.cons;
                        let ghost queue0 = self@.queue;
                        let mut i: usize = 0;
                        assert(ev.take(0) =~= Seq::<(Seq<char>, Seq<char>)>::empty());
                        assert(cons0 + new_cons(ev.take(0), n) =~= cons0);
                        assert(queue0 + new_names(ev.take(0)) =~= queue0);
                        while i < entries.len()
                            invariant
                                i <= entries.len(),
                                ev == pairs_view(entries@),
                                name@ == n,
                                triples_view(self.cons@) == cons0 + new_cons(ev.take(i as int), n),
                                strings_view(self.queue@) == queue0 + new_names(ev.take(i as int)),
                                deps_view(self.resolved@) == st.resolved,
                                self.min_rank as nat == st.min_rank,
                                self.prefer_stable == st.prefer_stable,
                            decreases entries.len() - i,
                        {
                            let dn = string_chars(&entries[i].0);
                            assert(ev.take(i + 1).drop_last() =~= ev.take(i as int));
                            assert(ev[i as int] == (entries@[i as int].0@, entries@[i as int].1@));
                            let ghost c1 = triples_view(self.cons@);
                            let ghost q1 = strings_view(self.queue@);
                            if !is_platform_exec(&dn) {
                                self.cons.push((entries[i].0.clone(), entries[i].1.clone(), name.clone()));
                                self.queue.push_back(entries[i].0.clone());
                                assert(triples_view(self.cons@) =~= c1.push((ev[i as int].0, ev[i as int].1, n)));
                                assert(strings_view(self.queue@) =~= q1.push(ev[i as int].0));
                            }
                            i += 1;
                            assert(triples_view(self.cons@) =~= cons0 + new_cons(ev.take(i as int), n));
                            assert(strings_view(self.queue@) =~= queue0 + new_names(ev.take(i as int)));
                        }
                        assert(ev.take(entries.len() as int) =~= ev);
                        let dep = ResolvedDependency { name, version: pv.version, require: pv.require, dist: pv.dist };
                        assert(dep@ == DepView { name: n, pv: pvv });
                        self.insert_sorted_exec(dep);
                        Ok(())
                    },
                }
            },
        }
    }

    fn insert_sorted_exec(&mut self, d: ResolvedDependency)
        ensures
            final(self)@ == (RState { resolved: insert_sorted(old(self)@.resolved, d@), ..old(self)@ }),
    {
        let n = string_chars(&d.name);
        let ghost s = self@.resolved;
        let mut i: usize = 0;
        while i < self.resolved.len() && !name_lt(&n, &self.resolved[i].name)
            invariant
                i <= self.resolved.len(),
                s == self@.resolved,
                s.len() == self.resolved.len(),
                n@ == d.name@,
                forall|k: int| 0 <= k < s.len() ==> s[k].name == self.resolved@[k].name@,
                sorted_pos(s, n@, i as int) == sorted_pos(s, n@, 0),
            decreases self.resolved.len() - i,
        {
            i += 1;
        }
        proof { lemma_sorted_pos(s, n@, 0); }
        assert(sorted_pos(s, n@, 0) == i);
        let ghost dv = d@;
        self.resolved.insert(i, d);
        assert(deps_view(self.resolved@) =~= s.insert(i as int, dv));
    }

    /// The resolved packages, sorted by name.
    pub fn finish(self) -> (r: Vec<ResolvedDependency>)
        ensures
            deps_view(r@) == self@.resolved,
    {
        self.resolved
    }
}

fn all_match_exec(parsed: &Vec<Option<Constraint>>, v: &Version, cs: Ghost<Seq<(Seq<char>, Seq<char>)>>) -> (r: bool)
    requires
        parsed.len() == cs@.len(),
        forall|k: int| 0 <= k < parsed.len() ==> match #[trigger] parsed@[k] {
            Some(c) => parse_constraint(cs@[k].0) == Some(c@),
            None => parse_constraint(cs@[k].0) is None,
        },
    ensures
        r == all_match(cs@, v@),
{
    let mut i: usize = 0;
    while i < parsed.len()
        invariant
            i <= parsed.len(),
            parsed.len() == cs@.len(),
            forall|k: int| 0 <= k < parsed.len() ==> match #[trigger] parsed@[k] {
                Some(c) => parse_constraint(cs@[k].0) == Some(c@),
                None => parse_constraint(cs@[k].0) is None,
            },
            forall|k: int| 0 <= k < i ==> cmatch(#[trigger] cs@[k].0, v@),
        decreases parsed.len() - i,
    {
        match &parsed[i] {
            Some(c) => {
                if !c.matches(v) {
                    assert(!cmatch(cs@[i as int].0, v@));
                    return false;
                }
            },
            None => {},
        }
        i += 1;
    }
    true
}

/// Each constraint text parsed, in order (`None` where it does not parse).
fn parse_all(cs: &Vec<(String, String)>) -> (parsed: Vec<Option<Constraint>>)
    ensures
        parsed.len() == cs.len(),
        forall|j: int| 0 <= j < parsed.len() ==> match #[trigger] parsed@[j] {
            Some(c) => parse_constraint(cons_pairs_view(cs@)[j].0) == Some(c@),
            None => parse_constraint(cons_pairs_view(cs@)[j].0) is None,
        },
{
    let ghost csv = cons_pairs_view(cs@);
    let mut parsed: Vec<Option<Constraint>> = Vec::new();
    let mut k: usize = 0;
    while k < cs.len()
        invariant
            k <= cs.len(),
            csv == cons_pairs_view(cs@),
            parsed.len() == k,
            forall|j: int| 0 <= j < k ==> match #[trigger] parsed@[j] {
                Some(c) => parse_constraint(csv[j].0) == Some(c@),
                None => parse_constraint(csv[j].0) is None,
            },
        decreases cs.len() - k,
    {
        assert(csv[k as int].0 == cs@[k as int].0@);
        match Constraint::parse(cs[k].0.as_str()) {
            Ok(c) => parsed.push(Some(c)),
            Err(_) => parsed.push(None),
        }
        k += 1;
    }
    parsed
}

fn best_index_exec(vs: &Vec<PackageVersion>, cs: &Vec<(String, String)>, floor: u8) -> (r: Option<usize>)
    ensures
        match r {
            Some(b) => best_index(versions_view(vs@), cons_pairs_view(cs@), floor as nat) == b && b < vs.len(),
            None => best_index(versions_view(vs@), cons_pairs_view(cs@), floor as nat) < 0,
        },
{
    let ghost csv = cons_pairs_view(cs@);
    let ghost vv = versions_view(vs@);
    let parsed = parse_all(cs);
    let mut cur: Option<usize> = None;
    let mut i: usize = 0;
    while i < vs.len()
        invariant
            i <= vs.len(),
            vv == versions_view(vs@),
            csv == cons_pairs_view(cs@),
            parsed.len() == csv.len(),
            forall|j: int| 0 <= j < parsed.len() ==> match #[trigger] parsed@[j] {
                Some(c) => parse_constraint(csv[j].0) == Some(c@),
                None => parse_constraint(csv[j].0) is None,
            },
            match cur {
                Some(c) => c < i && best_from(vv, csv, floor as nat, i as int, c as int) == best_index(vv, csv, floor as nat),
                None => best_from(vv, csv, floor as nat, i as int, -1) == best_index(vv, csv, floor as nat),
            },
        decreases vs.len() - i,
    {
        assert(vv[i as int] == vs@[i as int]@);
        let ok = all_match_exec(&parsed, &vs[i].version, Ghost(csv)) && stability_rank_exec(vs[i].version.stability) >= floor;
        if ok {
            match cur {
                None => {
                    cur = Some(i);
                },
                Some(c) => {
                    assert(vv[c as int] == vs@[c as int]@);
                    if version_lt_exec(&vs[c].version, &vs[i].version) {
                        cur = Some(i);
                    }
                },
            }
        }
        i += 1;
    }
    cur
}

fn push_string(out: &mut Vec<char>, s: &String)
    ensures
        final(out)@ == old(out)@ + s@,
{
    push_str(out, s.as_str());
}

/// The report for a package that no version fits.
fn conflict_message(n: &Vec<char>, cs: &Vec<(String, String)>, vs: &Vec<PackageVersion>) -> (r: String)
    ensures
        r@ == conflict_text(n@, cons_pairs_view(cs@), versions_view(vs@)),
{
    proof {
        reveal_strlit("No version of ");
        reveal_strlit(" satisfies all constraints:\n");
        reveal_strlit("\n\nAvailable versions: ");
        reveal_strlit("  ");
        reveal_strlit(" requires ");
        reveal_strlit(": ");
        reveal_strlit("\n");
        reveal_strlit(", ");
    }
    let ghost csv = cons_pairs_view(cs@);
    let ghost vv = versions_view(vs@);
    let ghost lines = Seq::new(csv.len(), |k: int| conflict_line(n@, csv[k]));
    let ghost avail = Seq::new(vv.len(), |k: int| version_chars(vv[k].version));
    let mut out: Vec<char> = Vec::new();
    push_str(&mut out, "No version of ");
    push_all(&mut out, n);
    push_str(&mut out, " satisfies all constraints:\n");
    let ghost prefix = out@;
    let mut acc: Vec<char> = Vec::new();
    let mut i: usize = 0;
    while i < cs.len()
        invariant
            i <= cs.len(),
            csv == cons_pairs_view(cs@),
            lines == Seq::new(csv.len(), |k: int| conflict_line(n@, csv[k])),
            join_from(lines, "\n"@, i as int, acc@) == join(lines, "\n"@),
        decreases cs.len() - i,
    {
        let ghost a0 = acc@;
        if i > 0 {
            push_str(&mut acc, "\n");
        }
        push_str(&mut acc, "  ");
        push_string(&mut acc, &cs[i].1);
        push_str(&mut acc, " requires ");
        push_all(&mut acc, n);
        push_str(&mut acc, ": ");
        push_string(&mut acc, &cs[i].0);
        assert(csv[i as int] == (cs@[i as int].0@, cs@[i as int].1@));
        assert(acc@ =~= (if i == 0 { a0 + lines[i as int] } else { a0 + "\n"@ + lines[i as int] }));
        i += 1;
    }
    push_all(&mut out, &acc);
    push_str(&mut out, "\n\nAvailable versions: ");
    let mut acc2: Vec<char> = Vec::new();
    let mut j: usize = 0;
    while j < vs.len()
        invariant
            j <= vs.len(),
            vv == versions_view(vs@),
            avail == Seq::new(vv.len(), |k: int| version_chars(vv[k].version)),
            join_from(avail, ", "@, j as int, acc2@) == join(avail, ", "@),
        decreases vs.len() - j,
    {
        let ghost a0 = acc2@;
        if j > 0 {
            push_str(&mut acc2, ", ");
        }
        let t = vs[j].version.to_composer_string();
        push_string(&mut acc2, &t);
        assert(vv[j as int] == vs@[j as int]@);
        assert(acc2@ =~= (if j == 0 { a0 + avail[j as int] } else { a0 + ", "@ + avail[j as int] }));
        j += 1;
    }
    push_all(&mut out, &acc2);
    assert(out@ =~= conflict_text(n@, csv, vv));
    chars_to_string(out.as_slice())
}


/// Dropping heads that need no metadata does not change the outcome.
pub proof fn lemma_skip_all_run(st: RState, reg: Seq<(Seq<char>, Seq<PackageVersionView>)>)
    requires
        wf(st, reg),
    ensures
        skip_all(st).resolved == st.resolved,
        skip_all(st).cons == st.cons,
        run(skip_all(st), reg) == run(st, reg),
    decreases st.queue.len(),
{
    if skippable(st) {
        let s2 = RState { queue: st.queue.drop_first(), ..st };
        lemma_skip_all_run(s2, reg);
        lemma_run_unfold(st, reg);
    }
}

/// A resolved package enters the state: names stay distinct and known.
proof fn lemma_insert_wf(st: RState, d: DepView, reg: Seq<(Seq<char>, Seq<PackageVersionView>)>)
    requires
        wf(st, reg),
        !has_dep(st.resolved, d.name),
        key_index(reg, d.name) >= 0,
    ensures
        forall|i: int, j: int| 0 <= i < j < insert_sorted(st.resolved, d).len() ==> insert_sorted(st.resolved, d)[i].name != insert_sorted(st.resolved, d)[j].name,
        forall|i: int| 0 <= i < insert_sorted(st.resolved, d).len() ==> key_index(reg, #[trigger] insert_sorted(st.resolved, d)[i].name) >= 0,
        insert_sorted(st.resolved, d).len() == st.resolved.len() + 1,
{
    let s = st.resolved;
    lemma_sorted_pos(s, d.name, 0);
    let p = sorted_pos(s, d.name, 0);
    let t = insert_sorted(s, d);
    assert forall|i: int| 0 <= i < t.len() implies (i < p ==> t[i] == s[i]) && (i == p ==> t[i] == d) && (i > p ==> t[i] == s[i - 1]) by {}
    assert forall|i: int, j: int| 0 <= i < j < t.len() implies t[i].name != t[j].name by {
        if i == p {
            assert(s[j - 1].name != d.name);
        } else if j == p {
            assert(s[i].name != d.name);
        } else {
            let a = if i < p { i } else { i - 1 };
            let b = if j < p { j } else { j - 1 };
            assert(a < b);
            assert(s[a].name != s[b].name);
        }
    }
    assert forall|i: int| 0 <= i < t.len() implies key_index(reg, #[trigger] t[i].name) >= 0 by {
        if i < p {
            assert(key_index(reg, s[i].name) >= 0);
        } else if i > p {
            assert(key_index(reg, s[i - 1].name) >= 0);
        }
    }
}

/// Resolves dependencies against an in-memory registry.
pub struct Resolver {
    registry: MockRegistry,
}

pub open spec fn resolve_result_view(r: Result<Vec<ResolvedDependency>, ResolveError>) -> Result<Seq<DepView>, ResolveErrorView> {
    match r {
        Ok(v) => Ok(deps_view(v@)),
        Err(e) => Err(e@),
    }
}

impl Resolver {
    pub fn new(registry: MockRegistry) -> (r: Self)
        ensures
            r.registry_view() == registry@,
    {
        Resolver { registry }
    }

    pub closed spec fn registry_view(&self) -> Seq<(Seq<char>, Seq<PackageVersionView>)> {
        self.registry@
    }

    /// Resolves `root` (and `dev` when `opts.include_dev`): the packages and
    /// versions chosen, sorted by name, or why no choice was possible.
    #[verifier::rlimit(50)]
    pub fn resolve(&self, root: RequireMap, dev: RequireMap, opts: ResolveOptions) -> (r: Result<Vec<ResolvedDependency>, ResolveError>)
        ensures
            resolve_result_view(r) == resolution(
                self.registry_view(),
                require_entries(root),
                require_entries(dev),
                opts.include_dev,
                min_rank_of(opts.minimum_stability@),
                opts.prefer_stable,
            ),
    {
        let ghost reg = self.registry@;
        let ghost init = init_state(require_entries(root), require_entries(dev), opts.include_dev, min_rank_of(opts.minimum_stability@), opts.prefer_stable);
        let mut state = ResolveState::start(&root, &dev, &opts);
        loop
            invariant
                reg == self.registry@,
                init == init_state(require_entries(root), require_entries(dev), opts.include_dev, min_rank_of(opts.minimum_stability@), opts.prefer_stable),
                wf(state@, reg),
                run(state@, reg) == run(init, reg),
            decreases measure(state@, reg),
        {
            let ghost s0 = state@;
            proof {
                lemma_skip_all_run(s0, reg);
                lemma_skip_all_idempotent(s0);
            }
            match state.next_request() {
                None => {
                    let ghost s1 = state@;
                    proof { lemma_run_unfold(s1, reg); }
                    assert(run(init, reg) == Ok::<Seq<DepView>, ResolveErrorView>(s1.resolved));
                    let out = state.finish();
                    return Ok(out);
                },
                Some(n) => {
                    let ghost s1 = state@;
                    let (vendor, package) = split_name(n.as_str());
                    assert(!is_platform(n@));
                    let md = self.registry.package_metadata(vendor.as_str(), package.as_str());
                    proof { lemma_head_step(s1, reg); }
                    match state.accept(md) {
                        Ok(()) => {},
                        Err(e) => {
                            return Err(e);
                        },
                    }
                },
            }
        }
    }
}

/// Resolving the head against the registry's own answer: a failure is the
/// outcome; otherwise the next state is well formed, has the same outcome,
/// and is closer to the end.
pub proof fn lemma_head_step(s1: RState, reg: Seq<(Seq<char>, Seq<PackageVersionView>)>)
    requires
        wf(s1, reg),
        s1.queue.len() > 0,
        !skippable(s1),
    ensures
        match resolve_head(s1, registry_lookup(reg, s1.queue[0])) {
            Step::Continue(s2) => wf(s2, reg) && run(s2, reg) == run(s1, reg) && measure(s2, reg) < measure(s1, reg),
            Step::Fail(e) => run(s1, reg) == Err::<Seq<DepView>, ResolveErrorView>(e),
            Step::Done(_) => false,
        },
{
    let mdv = registry_lookup(reg, s1.queue[0]);
    assert(step(s1, reg) == resolve_head(s1, mdv));
    lemma_run_unfold(s1, reg);
    lemma_dep_index(s1.resolved, s1.queue[0]);
    match resolve_head(s1, mdv) {
        Step::Continue(s2) => {
            lemma_key_index(reg, s1.queue[0]);
            let b = choose_index(mdv->Ok_0, cons_for(s1.cons, s1.queue[0]), s1.min_rank, s1.prefer_stable);
            lemma_insert_wf(s1, DepView { name: s1.queue[0], pv: mdv->Ok_0[b] }, reg);
            let names = Seq::new(s2.resolved.len(), |i: int| s2.resolved[i].name);
            lemma_count_known(names, reg);
        },
        _ => {},
    }
}

pub proof fn lemma_skip_all_idempotent(st: RState)
    ensures
        !skippable(skip_all(st)),
    decreases st.queue.len(),
{
    if skippable(st) {
        lemma_skip_all_idempotent(RState { queue: st.queue.drop_first(), ..st });
    }
}

} // verus!
