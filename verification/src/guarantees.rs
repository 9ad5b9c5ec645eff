//! What every successful resolution guarantees, proved over the resolver's
//! model (`resolution`).
use vstd::prelude::*;
use crate::registry::{registry_lookup, PackageVersionView, RegistryErrorView};
use crate::require_map::{key_index, lemma_key_index};
use crate::resolver::{
    has_prefix,
    all_match, best_from, best_index, choose_index, cmatch, cons_for, dep_index, eligible, has_dep, holds, init_state, insert_sorted, is_platform,
    lemma_dep_index,
    lemma_head_step, lemma_run_unfold, lemma_sorted_pos, measure, new_cons, new_names, resolution,
    resolve_head, root_cons, root_names, run, skippable, sorted_pos, step, wf, DepView, RState, Step,
    conflict_text, ResolveErrorView,
};
use crate::text::{lemma_seq_lt_irrefl, lemma_seq_lt_total, lemma_seq_lt_trans, seq_lt};
use crate::version::{stability_rank, version_lt, VersionView};

verus! {

// ---------------------------------------------------------------------------
// Properties of a resolved set
// ---------------------------------------------------------------------------

/// The registry lists `d`'s version among the versions of `d.name`.
pub open spec fn offered(reg: Seq<(Seq<char>, Seq<PackageVersionView>)>, d: DepView) -> bool {
    match registry_lookup(reg, d.name) {
        Ok(vs) => vs.contains(d.pv),
        Err(_) => false,
    }
}

/// Strictly increasing names.
pub open spec fn names_sorted(d: Seq<DepView>) -> bool {
    forall|i: int, j: int| 0 <= i < j < d.len() ==> seq_lt(#[trigger] d[i].name, #[trigger] d[j].name)
}

/// Some package of `d` requires `x`.
pub open spec fn required_by(d: Seq<DepView>, x: Seq<char>) -> bool {
    exists|i: int, k: int|
        #![trigger d[i].pv.require[k]]
        0 <= i < d.len() && 0 <= k < d[i].pv.require.len() && d[i].pv.require[k].0 == x
}

/// `x` is the package of one of the recorded requirements `r`.
pub open spec fn named(r: Seq<(Seq<char>, Seq<char>, Seq<char>)>, x: Seq<char>) -> bool {
    exists|k: int| #![trigger r[k]] 0 <= k < r.len() && r[k].0 == x
}

/// `x` is asked for: by the root requirements `r`, or by a package of `d`.
pub open spec fn requested(r: Seq<(Seq<char>, Seq<char>, Seq<char>)>, d: Seq<DepView>, x: Seq<char>) -> bool {
    named(r, x) || required_by(d, x)
}

/// Every package of `d` satisfies each requirement of `r` on it.
pub open spec fn honours(r: Seq<(Seq<char>, Seq<char>, Seq<char>)>, d: Seq<DepView>) -> bool {
    forall|i: int, k: int|
        #![trigger d[i], r[k]]
        0 <= i < d.len() && 0 <= k < r.len() && r[k].0 == d[i].name ==> cmatch(r[k].1, d[i].pv.version)
}

/// What holds of a finished resolution started from the requirements `r`.
pub open spec fn settled(d: Seq<DepView>, reg: Seq<(Seq<char>, Seq<PackageVersionView>)>, r: Seq<(Seq<char>, Seq<char>, Seq<char>)>) -> bool {
    &&& names_sorted(d)
    &&& forall|i: int| 0 <= i < d.len() ==> offered(reg, #[trigger] d[i])
    &&& honours(r, d)
    &&& forall|x: Seq<char>| !is_platform(x) && #[trigger] requested(r, d, x) ==> has_dep(d, x)
    &&& forall|i: int| 0 <= i < d.len() ==> requested(r, d, #[trigger] d[i].name)
    &&& forall|i: int| 0 <= i < d.len() ==> !is_platform(#[trigger] d[i].name)
    &&& forall|i: int, j: int, k: int|
        #![trigger d[i], d[j].pv.require[k]]
        0 <= i < d.len() && 0 <= j < d.len() && 0 <= k < d[j].pv.require.len() && d[j].pv.require[k].0 == d[i].name
            ==> cmatch(d[j].pv.require[k].1, d[i].pv.version)
}

/// `d`'s version is stable, or at least as stable as `min_rank` allows.
pub open spec fn stable_enough(d: DepView, min_rank: nat) -> bool {
    stability_rank(d.pv.version.stability) >= min_rank || stability_rank(d.pv.version.stability) == 4
}

/// The requirement `e` is among the recorded constraints.
pub open spec fn recorded(cons: Seq<(Seq<char>, Seq<char>, Seq<char>)>, e: (Seq<char>, Seq<char>)) -> bool {
    exists|m: int| #![trigger cons[m]] 0 <= m < cons.len() && cons[m].0 == e.0 && cons[m].1 == e.1
}

/// What else holds of every state: no platform package is resolved; each
/// recorded constraint on a resolved package holds of its version unless
/// the package is queued to be checked again; and the requirements of the
/// resolved packages are recorded.
pub open spec fn inv2(st: RState) -> bool {
    &&& forall|i: int| 0 <= i < st.resolved.len() ==> !is_platform(#[trigger] st.resolved[i].name)
    &&& forall|i: int| 0 <= i < st.resolved.len() ==> stable_enough(#[trigger] st.resolved[i], st.min_rank)
    &&& forall|i: int, k: int|
        #![trigger st.resolved[i], st.cons[k]]
        0 <= i < st.resolved.len() && 0 <= k < st.cons.len() && st.cons[k].0 == st.resolved[i].name
            ==> cmatch(st.cons[k].1, st.resolved[i].pv.version) || st.queue.contains(st.resolved[i].name)
    &&& forall|i: int, k: int|
        #![trigger st.resolved[i].pv.require[k]]
        0 <= i < st.resolved.len() && 0 <= k < st.resolved[i].pv.require.len() && !is_platform(st.resolved[i].pv.require[k].0)
            ==> recorded(st.cons, st.resolved[i].pv.require[k])
}

/// What holds of every state of a resolution started from the
/// requirements `r`.
pub open spec fn inv(st: RState, reg: Seq<(Seq<char>, Seq<PackageVersionView>)>, r: Seq<(Seq<char>, Seq<char>, Seq<char>)>) -> bool {
    &&& wf(st, reg)
    &&& r.len() <= st.cons.len()
    &&& forall|k: int| 0 <= k < r.len() ==> #[trigger] st.cons[k] == r[k]
    &&& names_sorted(st.resolved)
    &&& forall|i: int| 0 <= i < st.resolved.len() ==> offered(reg, #[trigger] st.resolved[i])
    &&& honours(r, st.resolved)
    &&& forall|x: Seq<char>|
        !is_platform(x) && #[trigger] requested(r, st.resolved, x) ==> has_dep(st.resolved, x) || st.queue.contains(x)
    &&& forall|j: int| 0 <= j < st.queue.len() ==> requested(r, st.resolved, #[trigger] st.queue[j])
    &&& forall|i: int| 0 <= i < st.resolved.len() ==> requested(r, st.resolved, #[trigger] st.resolved[i].name)
}

/// Why a resolution failed, in terms of the registry: a package whose
/// offered versions all miss some recorded constraint (the root ones on it
/// among them) or are less stable than `min_rank` allows, or a package
/// already resolved at an offered version that a constraint recorded on it
/// later misses, or a package the registry could not give.
pub open spec fn failure_explained(e: ResolveErrorView, reg: Seq<(Seq<char>, Seq<PackageVersionView>)>, r: Seq<(Seq<char>, Seq<char>, Seq<char>)>, min_rank: nat) -> bool {
    match e {
        ResolveErrorView::Conflict(m) => exists|n: Seq<char>, cs: Seq<(Seq<char>, Seq<char>)>, vs: Seq<PackageVersionView>|
            #[trigger] conflict_text(n, cs, vs) == m && !is_platform(n)
                && (forall|k: int| 0 <= k < r.len() && r[k].0 == n ==> exists|j: int| 0 <= j < cs.len() && #[trigger] cs[j].0 == r[k].1)
                && ((registry_lookup(reg, n) == Ok::<Seq<PackageVersionView>, RegistryErrorView>(vs)
                    && (forall|j: int| 0 <= j < vs.len() ==> !eligible(cs, min_rank, #[trigger] vs[j].version)))
                || (vs.len() == 1 && offered(reg, DepView { name: n, pv: vs[0] }) && !all_match(cs, vs[0].version))),
        ResolveErrorView::NotFound(_) => false,
        ResolveErrorView::Registry(n, e2) => !is_platform(n) && registry_lookup(reg, n) == Err::<Seq<PackageVersionView>, RegistryErrorView>(e2),
    }
}

// ---------------------------------------------------------------------------
// Name order
// ---------------------------------------------------------------------------

// ---------------------------------------------------------------------------
// Building blocks of a step
// ---------------------------------------------------------------------------

/// Where `insert_sorted` puts each element.
proof fn lemma_insert_elems(s: Seq<DepView>, d: DepView)
    ensures
        0 <= sorted_pos(s, d.name, 0) <= s.len(),
        insert_sorted(s, d).len() == s.len() + 1,
        forall|i: int|
            0 <= i < insert_sorted(s, d).len() ==> {
                let p = sorted_pos(s, d.name, 0);
                &&& (i < p ==> #[trigger] insert_sorted(s, d)[i] == s[i])
                &&& (i == p ==> insert_sorted(s, d)[i] == d)
                &&& (i > p ==> insert_sorted(s, d)[i] == s[i - 1])
            },
{
    lemma_sorted_pos(s, d.name, 0);
}

/// `sorted_pos` stops at the first name above `n`.
proof fn lemma_sorted_pos_bounds(s: Seq<DepView>, n: Seq<char>, i: int)
    requires
        0 <= i <= s.len(),
    ensures
        forall|k: int| i <= k < sorted_pos(s, n, i) ==> !seq_lt(n, #[trigger] s[k].name),
        sorted_pos(s, n, i) < s.len() ==> seq_lt(n, s[sorted_pos(s, n, i)].name),
    decreases s.len() - i,
{
    if i < s.len() && !seq_lt(n, s[i].name) {
        lemma_sorted_pos_bounds(s, n, i + 1);
    }
}

/// A package not yet present keeps the names sorted when inserted.
proof fn lemma_insert_sorted_order(s: Seq<DepView>, d: DepView)
    requires
        names_sorted(s),
        !has_dep(s, d.name),
    ensures
        names_sorted(insert_sorted(s, d)),
{
    lemma_insert_elems(s, d);
    lemma_sorted_pos_bounds(s, d.name, 0);
    let p = sorted_pos(s, d.name, 0);
    let t = insert_sorted(s, d);
    assert forall|k: int| 0 <= k < p implies seq_lt(#[trigger] s[k].name, d.name) by {
        assert(s[k].name != d.name);
        lemma_seq_lt_total(s[k].name, d.name);
    }
    assert forall|k: int| p <= k < s.len() implies seq_lt(d.name, #[trigger] s[k].name) by {
        if k > p {
            assert(seq_lt(s[p].name, s[k].name));
            lemma_seq_lt_trans(d.name, s[p].name, s[k].name);
        }
    }
    assert forall|i: int, j: int| 0 <= i < j < t.len() implies seq_lt(#[trigger] t[i].name, #[trigger] t[j].name) by {
        if i == p {
            assert(t[j] == s[j - 1]);
        } else if j == p {
            assert(t[i] == s[i]);
        } else {
            let a = if i < p { i } else { i - 1 };
            let b = if j < p { j } else { j - 1 };
            assert(t[i] == s[a]);
            assert(t[j] == s[b]);
            assert(a < b);
        }
    }
}

/// The recorded constraints on `n` include each one recorded at `k`.
proof fn lemma_cons_for_has(cons: Seq<(Seq<char>, Seq<char>, Seq<char>)>, n: Seq<char>, k: int)
    requires
        0 <= k < cons.len(),
        cons[k].0 == n,
    ensures
        exists|j: int|
            0 <= j < cons_for(cons, n).len() && #[trigger] cons_for(cons, n)[j] == (cons[k].1, cons[k].2),
    decreases cons.len(),
{
    let rest = cons.drop_last();
    let r = cons_for(rest, n);
    if k == cons.len() - 1 {
        assert(cons_for(cons, n) == r.push((cons[k].1, cons[k].2)));
        assert(cons_for(cons, n)[r.len() as int] == (cons[k].1, cons[k].2));
    } else {
        assert(rest[k] == cons[k]);
        lemma_cons_for_has(rest, n, k);
        let j = choose|j: int| 0 <= j < r.len() && #[trigger] r[j] == (cons[k].1, cons[k].2);
        assert(cons_for(cons, n)[j] == r[j]);
    }
}

/// Each installable requirement is queued by `new_names`.
proof fn lemma_new_names_has(req: Seq<(Seq<char>, Seq<char>)>, k: int)
    requires
        0 <= k < req.len(),
        !is_platform(req[k].0),
    ensures
        new_names(req).contains(req[k].0),
    decreases req.len(),
{
    let rest = req.drop_last();
    if k == req.len() - 1 {
        assert(new_names(req) == new_names(rest).push(req[k].0));
        assert(new_names(req)[new_names(rest).len() as int] == req[k].0);
    } else {
        assert(rest[k] == req[k]);
        lemma_new_names_has(rest, k);
        let j = choose|j: int| 0 <= j < new_names(rest).len() && new_names(rest)[j] == req[k].0;
        assert(new_names(req)[j] == new_names(rest)[j]);
    }
}

/// Each name queued by `new_names` is a requirement's package.
proof fn lemma_new_names_from(req: Seq<(Seq<char>, Seq<char>)>)
    ensures
        forall|j: int|
            0 <= j < new_names(req).len() ==> exists|k: int|
                0 <= k < req.len() && req[k].0 == #[trigger] new_names(req)[j],
    decreases req.len(),
{
    if req.len() > 0 {
        let rest = req.drop_last();
        lemma_new_names_from(rest);
        assert forall|j: int| 0 <= j < new_names(req).len() implies exists|k: int|
            0 <= k < req.len() && req[k].0 == #[trigger] new_names(req)[j] by {
            if j < new_names(rest).len() {
                assert(new_names(req)[j] == new_names(rest)[j]);
                let k = choose|k: int| 0 <= k < rest.len() && rest[k].0 == new_names(rest)[j];
                assert(req[k] == rest[k]);
            } else {
                assert(new_names(req)[j] == req[req.len() - 1].0);
            }
        }
    }
}

/// `new_cons` records the package of each entry that `new_names` queues,
/// in the same order.
proof fn lemma_new_cons_names(req: Seq<(Seq<char>, Seq<char>)>, src: Seq<char>)
    ensures
        new_cons(req, src).len() == new_names(req).len(),
        forall|m: int| 0 <= m < new_cons(req, src).len() ==> #[trigger] new_cons(req, src)[m].0 == new_names(req)[m],
    decreases req.len(),
{
    if req.len() > 0 {
        lemma_new_cons_names(req.drop_last(), src);
    }
}

/// Each installable requirement is recorded by `new_cons`.
proof fn lemma_new_cons_has(req: Seq<(Seq<char>, Seq<char>)>, src: Seq<char>, k: int)
    requires
        0 <= k < req.len(),
        !is_platform(req[k].0),
    ensures
        recorded(new_cons(req, src), req[k]),
    decreases req.len(),
{
    let rest = req.drop_last();
    let nc = new_cons(req, src);
    if k == req.len() - 1 {
        assert(nc == new_cons(rest, src).push((req[k].0, req[k].1, src)));
        assert(nc[new_cons(rest, src).len() as int] == (req[k].0, req[k].1, src));
    } else {
        assert(rest[k] == req[k]);
        lemma_new_cons_has(rest, src, k);
        let m = choose|m: int| #![trigger new_cons(rest, src)[m]] 0 <= m < new_cons(rest, src).len()
            && new_cons(rest, src)[m].0 == req[k].0 && new_cons(rest, src)[m].1 == req[k].1;
        assert(nc[m] == new_cons(rest, src)[m]);
    }
}

/// Dropping a head that needs no metadata keeps `inv2`.
proof fn lemma_inv2_skip(st: RState, reg: Seq<(Seq<char>, Seq<PackageVersionView>)>, r: Seq<(Seq<char>, Seq<char>, Seq<char>)>)
    requires
        inv(st, reg, r),
        inv2(st),
        skippable(st),
    ensures
        inv2(RState { queue: st.queue.drop_first(), ..st }),
{
    let s2 = RState { queue: st.queue.drop_first(), ..st };
    let h = st.queue[0];
    lemma_dep_index(st.resolved, h);
    assert forall|i: int, k: int|
        #![trigger s2.resolved[i], s2.cons[k]]
        0 <= i < s2.resolved.len() && 0 <= k < s2.cons.len() && s2.cons[k].0 == s2.resolved[i].name
        implies cmatch(s2.cons[k].1, s2.resolved[i].pv.version) || s2.queue.contains(s2.resolved[i].name) by {
        let y = st.resolved[i].name;
        if !cmatch(st.cons[k].1, st.resolved[i].pv.version) {
            assert(st.queue.contains(y));
            if y == h {
                assert(!is_platform(y));
                let b = dep_index(st.resolved, h);
                assert(b == i) by {
                    if b != i {
                        assert(st.resolved[b].name == st.resolved[i].name);
                    }
                }
                lemma_cons_for_has(st.cons, h, k);
                let j = choose|j: int| 0 <= j < cons_for(st.cons, h).len() && #[trigger] cons_for(st.cons, h)[j] == (st.cons[k].1, st.cons[k].2);
                assert(cmatch(cons_for(st.cons, h)[j].0, st.resolved[b].pv.version));
            } else {
                let j = choose|j: int| 0 <= j < st.queue.len() && st.queue[j] == y;
                assert(j > 0);
                assert(s2.queue[j - 1] == y);
            }
        }
    }
}

/// Resolving the head keeps `inv2`.
#[verifier::rlimit(60)]
proof fn lemma_inv2_resolve(st: RState, reg: Seq<(Seq<char>, Seq<PackageVersionView>)>, r: Seq<(Seq<char>, Seq<char>, Seq<char>)>)
    requires
        inv(st, reg, r),
        inv2(st),
        st.queue.len() > 0,
        !skippable(st),
        resolve_head(st, registry_lookup(reg, st.queue[0])) is Continue,
    ensures
        inv2(resolve_head(st, registry_lookup(reg, st.queue[0]))->Continue_0),
{
    let n = st.queue[0];
    lemma_dep_index(st.resolved, n);
    let vs = registry_lookup(reg, n)->Ok_0;
    let cs = cons_for(st.cons, n);
    lemma_choose_index(vs, cs, st.min_rank, st.prefer_stable);
    let b = choose_index(vs, cs, st.min_rank, st.prefer_stable);
    let pv = vs[b];
    let d = DepView { name: n, pv };
    let s2 = resolve_head(st, registry_lookup(reg, n))->Continue_0;
    let s = st.resolved;
    let t = s2.resolved;
    let nc = new_cons(pv.require, n);
    let nn = new_names(pv.require);
    assert(t == insert_sorted(s, d));
    assert(s2.cons == st.cons + nc);
    assert(s2.queue == st.queue.drop_first() + nn);
    lemma_insert_elems(s, d);
    lemma_new_cons_names(pv.require, n);
    let p = sorted_pos(s, n, 0);
    assert forall|i: int| 0 <= i < t.len() implies !is_platform(#[trigger] t[i].name) && stable_enough(t[i], s2.min_rank) by {
        if i < p {
            assert(t[i] == s[i]);
        } else if i > p {
            assert(t[i] == s[i - 1]);
        }
    }
    assert forall|i: int, k: int|
        #![trigger t[i], s2.cons[k]]
        0 <= i < t.len() && 0 <= k < s2.cons.len() && s2.cons[k].0 == t[i].name
        implies cmatch(s2.cons[k].1, t[i].pv.version) || s2.queue.contains(t[i].name) by {
        if k >= st.cons.len() {
            let m = k - st.cons.len();
            assert(s2.cons[k] == nc[m]);
            assert(nc[m].0 == nn[m]);
            assert(s2.queue[st.queue.len() - 1 + m] == nn[m]);
        } else {
            assert(s2.cons[k] == st.cons[k]);
            if i == p {
                lemma_cons_for_has(st.cons, n, k);
                let j = choose|j: int| 0 <= j < cs.len() && #[trigger] cs[j] == (st.cons[k].1, st.cons[k].2);
                assert(cmatch(cs[j].0, pv.version));
            } else {
                let i2 = if i < p { i } else { i - 1 };
                assert(t[i] == s[i2]);
                if !cmatch(st.cons[k].1, s[i2].pv.version) {
                    assert(st.queue.contains(s[i2].name));
                    let j = choose|j: int| 0 <= j < st.queue.len() && st.queue[j] == s[i2].name;
                    assert(s[i2].name != n);
                    assert(j > 0);
                    assert(s2.queue[j - 1] == s[i2].name);
                }
            }
        }
    }
    assert forall|i: int, k: int|
        #![trigger t[i].pv.require[k]]
        0 <= i < t.len() && 0 <= k < t[i].pv.require.len() && !is_platform(t[i].pv.require[k].0)
        implies recorded(s2.cons, t[i].pv.require[k]) by {
        if i == p {
            lemma_new_cons_has(pv.require, n, k);
            let m = choose|m: int| #![trigger nc[m]] 0 <= m < nc.len() && nc[m].0 == pv.require[k].0 && nc[m].1 == pv.require[k].1;
            assert(s2.cons[st.cons.len() + m] == nc[m]);
        } else {
            let i2 = if i < p { i } else { i - 1 };
            assert(t[i] == s[i2]);
            assert(recorded(st.cons, s[i2].pv.require[k]));
            let m = choose|m: int| #![trigger st.cons[m]] 0 <= m < st.cons.len()
                && st.cons[m].0 == s[i2].pv.require[k].0 && st.cons[m].1 == s[i2].pv.require[k].1;
            assert(s2.cons[m] == st.cons[m]);
        }
    }
}

proof fn lemma_best_from(vs: Seq<PackageVersionView>, cs: Seq<(Seq<char>, Seq<char>)>, floor: nat, i: int, cur: int)
    requires
        0 <= i,
        -1 <= cur < vs.len(),
        cur < i,
        cur >= 0 ==> eligible(cs, floor, vs[cur].version),
        cur >= 0 ==> forall|j: int| 0 <= j < i && j < vs.len() && eligible(cs, floor, #[trigger] vs[j].version) ==> !version_lt(vs[cur].version, vs[j].version),
        cur < 0 ==> forall|j: int| 0 <= j < i && j < vs.len() ==> !eligible(cs, floor, #[trigger] vs[j].version),
    ensures
        -1 <= best_from(vs, cs, floor, i, cur) < vs.len(),
        best_from(vs, cs, floor, i, cur) >= 0 ==> eligible(cs, floor, vs[best_from(vs, cs, floor, i, cur)].version),
        best_from(vs, cs, floor, i, cur) >= 0 ==> forall|j: int|
            0 <= j < vs.len() && eligible(cs, floor, #[trigger] vs[j].version) ==> !version_lt(vs[best_from(vs, cs, floor, i, cur)].version, vs[j].version),
        best_from(vs, cs, floor, i, cur) < 0 ==> forall|j: int| 0 <= j < vs.len() ==> !eligible(cs, floor, #[trigger] vs[j].version),
    decreases vs.len() - i,
{
    if i < vs.len() {
        if eligible(cs, floor, vs[i].version) && (cur < 0 || version_lt(vs[cur].version, vs[i].version)) {
            lemma_best_from(vs, cs, floor, i + 1, i);
        } else {
            lemma_best_from(vs, cs, floor, i + 1, cur);
        }
    }
}

/// `best_index` picks an eligible version, and none that is eligible is
/// higher; it finds none only when no version is eligible.
proof fn lemma_best_index(vs: Seq<PackageVersionView>, cs: Seq<(Seq<char>, Seq<char>)>, floor: nat)
    ensures
        -1 <= best_index(vs, cs, floor) < vs.len(),
        best_index(vs, cs, floor) >= 0 ==> eligible(cs, floor, vs[best_index(vs, cs, floor)].version),
        best_index(vs, cs, floor) >= 0 ==> forall|j: int|
            0 <= j < vs.len() && eligible(cs, floor, #[trigger] vs[j].version) ==> !version_lt(vs[best_index(vs, cs, floor)].version, vs[j].version),
        best_index(vs, cs, floor) < 0 ==> forall|j: int| 0 <= j < vs.len() ==> !eligible(cs, floor, #[trigger] vs[j].version),
{
    lemma_best_from(vs, cs, floor, 0, -1);
}

/// The version `choose_index` picks satisfies every constraint and is
/// either stable or at least as stable as `min_rank`; it picks none only
/// when no version satisfies the constraints at a stability `min_rank`
/// allows.
proof fn lemma_choose_index(vs: Seq<PackageVersionView>, cs: Seq<(Seq<char>, Seq<char>)>, min_rank: nat, prefer_stable: bool)
    ensures
        -1 <= choose_index(vs, cs, min_rank, prefer_stable) < vs.len(),
        choose_index(vs, cs, min_rank, prefer_stable) >= 0 ==> {
            let v = vs[choose_index(vs, cs, min_rank, prefer_stable)].version;
            all_match(cs, v) && (stability_rank(v.stability) >= min_rank || stability_rank(v.stability) == 4)
        },
        choose_index(vs, cs, min_rank, prefer_stable) < 0 ==> forall|j: int| 0 <= j < vs.len() ==> !eligible(cs, min_rank, #[trigger] vs[j].version),
{
    lemma_best_index(vs, cs, 4);
    lemma_best_index(vs, cs, min_rank);
    if prefer_stable && best_index(vs, cs, 4) >= 0 {
        let v = vs[best_index(vs, cs, 4)].version;
        assert(stability_rank(v.stability) <= 4) by {
            match v.stability { _ => {} }
        }
    }
}

/// Membership after `insert_sorted`.
proof fn lemma_insert_members(s: Seq<DepView>, d: DepView)
    ensures
        forall|x: Seq<char>| #[trigger] has_dep(insert_sorted(s, d), x) == (has_dep(s, x) || x == d.name),
        forall|x: Seq<char>|
            #[trigger] required_by(insert_sorted(s, d), x) == (required_by(s, x) || exists|k: int|
                #![trigger d.pv.require[k]]
                0 <= k < d.pv.require.len() && d.pv.require[k].0 == x),
{
    lemma_insert_elems(s, d);
    let p = sorted_pos(s, d.name, 0);
    let t = insert_sorted(s, d);
    assert forall|x: Seq<char>| #[trigger] has_dep(t, x) == (has_dep(s, x) || x == d.name) by {
        if has_dep(t, x) {
            let i = choose|i: int| 0 <= i < t.len() && t[i].name == x;
            if i < p {
                assert(t[i] == s[i]);
            } else if i > p {
                assert(t[i] == s[i - 1]);
            }
        }
        if has_dep(s, x) {
            let i = choose|i: int| 0 <= i < s.len() && s[i].name == x;
            if i < p {
                assert(t[i] == s[i]);
            } else {
                assert(t[i + 1] == s[i]);
            }
        }
        if x == d.name {
            assert(t[p] == d);
        }
    }
    assert forall|x: Seq<char>|
        #[trigger] required_by(t, x) == (required_by(s, x) || exists|k: int|
            #![trigger d.pv.require[k]]
            0 <= k < d.pv.require.len() && d.pv.require[k].0 == x) by {
        if required_by(t, x) {
            let (i, k) = choose|i: int, k: int|
                #![trigger t[i].pv.require[k]]
                0 <= i < t.len() && 0 <= k < t[i].pv.require.len() && t[i].pv.require[k].0 == x;
            if i < p {
                assert(t[i] == s[i]);
                assert(s[i].pv.require[k].0 == x);
            } else if i > p {
                assert(t[i] == s[i - 1]);
                assert(s[i - 1].pv.require[k].0 == x);
            } else {
                assert(d.pv.require[k].0 == x);
            }
        }
        if required_by(s, x) {
            let (i, k) = choose|i: int, k: int|
                #![trigger s[i].pv.require[k]]
                0 <= i < s.len() && 0 <= k < s[i].pv.require.len() && s[i].pv.require[k].0 == x;
            if i < p {
                assert(t[i] == s[i]);
                assert(t[i].pv.require[k].0 == x);
            } else {
                assert(t[i + 1] == s[i]);
                assert(t[i + 1].pv.require[k].0 == x);
            }
        }
        if exists|k: int| #![trigger d.pv.require[k]] 0 <= k < d.pv.require.len() && d.pv.require[k].0 == x {
            let k = choose|k: int| #![trigger d.pv.require[k]] 0 <= k < d.pv.require.len() && d.pv.require[k].0 == x;
            assert(t[p] == d);
            assert(t[p].pv.require[k].0 == x);
        }
    }
}

/// Dropping a head that needs no metadata keeps the invariant.
proof fn lemma_inv_skip(st: RState, reg: Seq<(Seq<char>, Seq<PackageVersionView>)>, r: Seq<(Seq<char>, Seq<char>, Seq<char>)>)
    requires
        inv(st, reg, r),
        skippable(st),
    ensures
        inv(RState { queue: st.queue.drop_first(), ..st }, reg, r),
{
    let s2 = RState { queue: st.queue.drop_first(), ..st };
    lemma_dep_index(st.resolved, st.queue[0]);
    assert forall|x: Seq<char>| !is_platform(x) && #[trigger] requested(r, s2.resolved, x) implies has_dep(s2.resolved, x)
        || s2.queue.contains(x) by {
        if !has_dep(st.resolved, x) {
            assert(st.queue.contains(x));
            let j = choose|j: int| 0 <= j < st.queue.len() && st.queue[j] == x;
            if j > 0 {
                assert(s2.queue[j - 1] == x);
            }
        }
    }
    assert forall|j: int| 0 <= j < s2.queue.len() implies requested(r, s2.resolved, #[trigger] s2.queue[j]) by {
        assert(s2.queue[j] == st.queue[j + 1]);
    }
}

/// Resolving the head keeps the invariant.
#[verifier::rlimit(40)]
proof fn lemma_inv_resolve(st: RState, reg: Seq<(Seq<char>, Seq<PackageVersionView>)>, r: Seq<(Seq<char>, Seq<char>, Seq<char>)>)
    requires
        inv(st, reg, r),
        st.queue.len() > 0,
        !skippable(st),
        resolve_head(st, registry_lookup(reg, st.queue[0])) is Continue,
    ensures
        inv(resolve_head(st, registry_lookup(reg, st.queue[0]))->Continue_0, reg, r),
{
    let n = st.queue[0];
    lemma_dep_index(st.resolved, n);
    let vs = registry_lookup(reg, n)->Ok_0;
    let cs = cons_for(st.cons, n);
    lemma_choose_index(vs, cs, st.min_rank, st.prefer_stable);
    let b = choose_index(vs, cs, st.min_rank, st.prefer_stable);
    let pv = vs[b];
    let d = DepView { name: n, pv };
    let s2 = resolve_head(st, registry_lookup(reg, n))->Continue_0;
    let s = st.resolved;
    let t = s2.resolved;
    assert(t == insert_sorted(s, d));
    assert(s2.cons == st.cons + new_cons(pv.require, n));
    assert(s2.queue == st.queue.drop_first() + new_names(pv.require));
    lemma_head_step(st, reg);
    lemma_insert_elems(s, d);
    lemma_insert_sorted_order(s, d);
    lemma_insert_members(s, d);
    lemma_new_names_from(pv.require);
    let p = sorted_pos(s, n, 0);
    assert forall|k: int| 0 <= k < r.len() implies #[trigger] s2.cons[k] == r[k] by {
        assert(s2.cons[k] == st.cons[k]);
    }
    assert forall|i: int| 0 <= i < t.len() implies offered(reg, #[trigger] t[i]) by {
        if i == p {
            assert(vs[b] == t[i].pv);
        } else if i < p {
            assert(t[i] == s[i]);
        } else {
            assert(t[i] == s[i - 1]);
        }
    }
    assert forall|i: int, k: int|
        #![trigger t[i], r[k]]
        0 <= i < t.len() && 0 <= k < r.len() && r[k].0 == t[i].name implies cmatch(r[k].1, t[i].pv.version) by {
        if i == p {
            assert(st.cons[k] == r[k]);
            lemma_cons_for_has(st.cons, n, k);
            let j = choose|j: int| 0 <= j < cs.len() && #[trigger] cs[j] == (st.cons[k].1, st.cons[k].2);
            assert(cmatch(cs[j].0, pv.version));
        } else if i < p {
            assert(t[i] == s[i]);
        } else {
            assert(t[i] == s[i - 1]);
        }
    }
    assert forall|x: Seq<char>| requested(r, s, x) implies #[trigger] requested(r, t, x) by {}
    assert forall|x: Seq<char>| !is_platform(x) && #[trigger] requested(r, t, x) implies has_dep(t, x) || s2.queue.contains(x) by {
        if x == n {
        } else if required_by(s, x) || named(r, x) {
            assert(requested(r, s, x));
            if !has_dep(s, x) {
                assert(st.queue.contains(x));
                let j = choose|j: int| 0 <= j < st.queue.len() && st.queue[j] == x;
                assert(j > 0);
                assert(s2.queue[j - 1] == x);
            }
        } else {
            let k = choose|k: int| #![trigger pv.require[k]] 0 <= k < pv.require.len() && pv.require[k].0 == x;
            lemma_new_names_has(pv.require, k);
            let j = choose|j: int| 0 <= j < new_names(pv.require).len() && new_names(pv.require)[j] == x;
            assert(s2.queue[st.queue.len() - 1 + j] == x);
        }
    }
    assert forall|j: int| 0 <= j < s2.queue.len() implies requested(r, t, #[trigger] s2.queue[j]) by {
        if j < st.queue.len() - 1 {
            assert(s2.queue[j] == st.queue[j + 1]);
            assert(requested(r, s, st.queue[j + 1]));
        } else {
            let m = j - (st.queue.len() - 1);
            assert(s2.queue[j] == new_names(pv.require)[m]);
            let k = choose|k: int| 0 <= k < pv.require.len() && pv.require[k].0 == #[trigger] new_names(pv.require)[m];
            assert(pv.require[k].0 == s2.queue[j]);
        }
    }
    assert forall|i: int| 0 <= i < t.len() implies requested(r, t, #[trigger] t[i].name) by {
        if i == p {
            assert(requested(r, s, st.queue[0]));
        } else if i < p {
            assert(t[i] == s[i]);
            assert(requested(r, s, s[i].name));
        } else {
            assert(t[i] == s[i - 1]);
            assert(requested(r, s, s[i - 1].name));
        }
    }
}

/// A resolution from a state that keeps the invariant ends settled.
proof fn lemma_inv_run(st: RState, reg: Seq<(Seq<char>, Seq<PackageVersionView>)>, r: Seq<(Seq<char>, Seq<char>, Seq<char>)>)
    requires
        inv(st, reg, r),
        inv2(st),
    ensures
        run(st, reg) matches Ok(d) ==> settled(d, reg, r) && forall|i: int| 0 <= i < d.len() ==> stable_enough(#[trigger] d[i], st.min_rank),
        run(st, reg) matches Err(e) ==> failure_explained(e, reg, r, st.min_rank),
    decreases measure(st, reg), st.queue.len(),
{
    lemma_run_unfold(st, reg);
    if st.queue.len() == 0 {
        let d = st.resolved;
        assert forall|x: Seq<char>| !is_platform(x) && #[trigger] requested(r, st.resolved, x) implies has_dep(st.resolved, x) by {
            assert(!st.queue.contains(x));
        }
        assert forall|i: int, j: int, k: int|
            #![trigger d[i], d[j].pv.require[k]]
            0 <= i < d.len() && 0 <= j < d.len() && 0 <= k < d[j].pv.require.len() && d[j].pv.require[k].0 == d[i].name
            implies cmatch(d[j].pv.require[k].1, d[i].pv.version) by {
            assert(!is_platform(d[i].name));
            assert(recorded(st.cons, d[j].pv.require[k]));
            let m = choose|m: int| #![trigger st.cons[m]] 0 <= m < st.cons.len()
                && st.cons[m].0 == d[j].pv.require[k].0 && st.cons[m].1 == d[j].pv.require[k].1;
            assert(!st.queue.contains(d[i].name));
            assert(cmatch(st.cons[m].1, d[i].pv.version));
        }
    } else if skippable(st) {
        let s2 = RState { queue: st.queue.drop_first(), ..st };
        lemma_inv_skip(st, reg, r);
        lemma_inv2_skip(st, reg, r);
        lemma_inv_run(s2, reg, r);
    } else {
        let md = registry_lookup(reg, st.queue[0]);
        assert(step(st, reg) == resolve_head(st, md));
        lemma_head_step(st, reg);
        let n = st.queue[0];
        let cs = cons_for(st.cons, n);
        lemma_dep_index(st.resolved, n);
        assert forall|k: int| 0 <= k < r.len() && r[k].0 == n implies exists|j: int| 0 <= j < cs.len() && #[trigger] cs[j].0 == r[k].1 by {
            assert(st.cons[k] == r[k]);
            lemma_cons_for_has(st.cons, n, k);
            let j = choose|j: int| 0 <= j < cs.len() && #[trigger] cs[j] == (st.cons[k].1, st.cons[k].2);
            assert(cs[j].0 == r[k].1);
        }
        if resolve_head(st, md) is Continue {
            let s2 = resolve_head(st, md)->Continue_0;
            lemma_inv_resolve(st, reg, r);
            lemma_inv2_resolve(st, reg, r);
            lemma_inv_run(s2, reg, r);
        } else if dep_index(st.resolved, n) >= 0 {
            let i = dep_index(st.resolved, n);
            let vs = seq![st.resolved[i].pv];
            assert(offered(reg, st.resolved[i]));
            assert(DepView { name: n, pv: vs[0] } == st.resolved[i]);
            assert(!all_match(cs, vs[0].version));
            assert(failure_explained(ResolveErrorView::Conflict(conflict_text(n, cs, vs)), reg, r, st.min_rank));
        } else if md is Ok {
            let vs = md->Ok_0;
            lemma_choose_index(vs, cs, st.min_rank, st.prefer_stable);
            assert(failure_explained(ResolveErrorView::Conflict(conflict_text(n, cs, vs)), reg, r, st.min_rank));
        }
    }
}

/// The requirements a resolution starts from.
pub open spec fn start_cons(root: Seq<(Seq<char>, Seq<char>)>, dev: Seq<(Seq<char>, Seq<char>)>, include_dev: bool) -> Seq<(Seq<char>, Seq<char>, Seq<char>)> {
    init_state(root, dev, include_dev, 4, false).cons
}

proof fn lemma_resolution_settled(
    reg: Seq<(Seq<char>, Seq<PackageVersionView>)>,
    root: Seq<(Seq<char>, Seq<char>)>,
    dev: Seq<(Seq<char>, Seq<char>)>,
    include_dev: bool,
    min_rank: nat,
    prefer_stable: bool,
)
    ensures
        resolution(reg, root, dev, include_dev, min_rank, prefer_stable) matches Ok(d) ==> settled(d, reg, start_cons(root, dev, include_dev))
            && forall|i: int| 0 <= i < d.len() ==> stable_enough(#[trigger] d[i], min_rank),
        resolution(reg, root, dev, include_dev, min_rank, prefer_stable) matches Err(e) ==> failure_explained(e, reg, start_cons(root, dev, include_dev), min_rank),
{
    let st = init_state(root, dev, include_dev, min_rank, prefer_stable);
    let r = st.cons;
    assert(st.queue.len() == r.len());
    assert forall|j: int| 0 <= j < st.queue.len() implies #[trigger] st.queue[j] == r[j].0 by {
        if j >= root.len() {
            assert(st.queue[j] == root_names(dev)[j - root.len()]);
            assert(r[j] == root_cons(dev, "<root-dev>"@)[j - root.len()]);
        }
    }
    assert forall|x: Seq<char>| !is_platform(x) && #[trigger] requested(r, st.resolved, x) implies has_dep(st.resolved, x)
        || st.queue.contains(x) by {
        let k = choose|k: int| #![trigger r[k]] 0 <= k < r.len() && r[k].0 == x;
        assert(st.queue[k] == x);
    }
    assert forall|j: int| 0 <= j < st.queue.len() implies requested(r, st.resolved, #[trigger] st.queue[j]) by {
        assert(r[j].0 == st.queue[j]);
    }
    lemma_inv_run(st, reg, r);
}

/// Where the root and development requirements sit among the starting ones.
proof fn lemma_start_cons(root: Seq<(Seq<char>, Seq<char>)>, dev: Seq<(Seq<char>, Seq<char>)>, include_dev: bool)
    ensures
        start_cons(root, dev, include_dev).len() == root.len() + (if include_dev { dev.len() } else { 0 }),
        forall|k: int| 0 <= k < root.len() ==> #[trigger] start_cons(root, dev, include_dev)[k] == (root[k].0, root[k].1, "<root>"@),
        include_dev ==> forall|k: int| 0 <= k < dev.len() ==> #[trigger] start_cons(root, dev, include_dev)[root.len() + k] == (dev[k].0, dev[k].1, "<root-dev>"@),
{
}

/// A successful resolution lists each package once, in increasing name
/// order, and each at a version that the registry offers for that name.
pub proof fn law_resolved_packages_are_offered(
    reg: Seq<(Seq<char>, Seq<PackageVersionView>)>,
    root: Seq<(Seq<char>, Seq<char>)>,
    dev: Seq<(Seq<char>, Seq<char>)>,
    include_dev: bool,
    min_rank: nat,
    prefer_stable: bool,
)
    ensures
        resolution(reg, root, dev, include_dev, min_rank, prefer_stable) matches Ok(d) ==> {
            &&& forall|i: int, j: int| 0 <= i < j < d.len() ==> seq_lt(#[trigger] d[i].name, #[trigger] d[j].name)
            &&& forall|i: int, j: int| 0 <= i < j < d.len() ==> #[trigger] d[i].name != #[trigger] d[j].name
            &&& forall|i: int| 0 <= i < d.len() ==> offered(reg, #[trigger] d[i])
        },
{
    lemma_resolution_settled(reg, root, dev, include_dev, min_rank, prefer_stable);
    if resolution(reg, root, dev, include_dev, min_rank, prefer_stable) is Ok {
        let d = resolution(reg, root, dev, include_dev, min_rank, prefer_stable)->Ok_0;
        assert forall|i: int, j: int| 0 <= i < j < d.len() implies #[trigger] d[i].name != #[trigger] d[j].name by {
            lemma_seq_lt_irrefl(d[i].name);
        }
    }
}

/// Every resolved package satisfies each root requirement on it, and each
/// development requirement on it when those are included.
pub proof fn law_root_requirements_honoured(
    reg: Seq<(Seq<char>, Seq<PackageVersionView>)>,
    root: Seq<(Seq<char>, Seq<char>)>,
    dev: Seq<(Seq<char>, Seq<char>)>,
    include_dev: bool,
    min_rank: nat,
    prefer_stable: bool,
)
    ensures
        resolution(reg, root, dev, include_dev, min_rank, prefer_stable) matches Ok(d) ==> {
            &&& forall|i: int, k: int|
                #![trigger d[i], root[k]]
                0 <= i < d.len() && 0 <= k < root.len() && root[k].0 == d[i].name ==> cmatch(root[k].1, d[i].pv.version)
            &&& include_dev ==> forall|i: int, k: int|
                #![trigger d[i], dev[k]]
                0 <= i < d.len() && 0 <= k < dev.len() && dev[k].0 == d[i].name ==> cmatch(dev[k].1, d[i].pv.version)
        },
{
    lemma_resolution_settled(reg, root, dev, include_dev, min_rank, prefer_stable);
    lemma_start_cons(root, dev, include_dev);
    let r = start_cons(root, dev, include_dev);
    if resolution(reg, root, dev, include_dev, min_rank, prefer_stable) is Ok {
        let d = resolution(reg, root, dev, include_dev, min_rank, prefer_stable)->Ok_0;
        assert forall|i: int, k: int|
            #![trigger d[i], root[k]]
            0 <= i < d.len() && 0 <= k < root.len() && root[k].0 == d[i].name implies cmatch(root[k].1, d[i].pv.version) by {
            assert(r[k] == (root[k].0, root[k].1, "<root>"@));
        }
        if include_dev {
            assert forall|i: int, k: int|
                #![trigger d[i], dev[k]]
                0 <= i < d.len() && 0 <= k < dev.len() && dev[k].0 == d[i].name implies cmatch(dev[k].1, d[i].pv.version) by {
                assert(r[root.len() + k] == (dev[k].0, dev[k].1, "<root-dev>"@));
            }
        }
    }
}

/// Every constraint a resolved package places on another resolved package
/// holds of that package's version: the versions chosen satisfy all the
/// constraints collected, not only those known when each was chosen.
pub proof fn law_all_requirements_honoured(
    reg: Seq<(Seq<char>, Seq<PackageVersionView>)>,
    root: Seq<(Seq<char>, Seq<char>)>,
    dev: Seq<(Seq<char>, Seq<char>)>,
    include_dev: bool,
    min_rank: nat,
    prefer_stable: bool,
)
    ensures
        resolution(reg, root, dev, include_dev, min_rank, prefer_stable) matches Ok(d) ==> forall|i: int, j: int, k: int|
            #![trigger d[i], d[j].pv.require[k]]
            0 <= i < d.len() && 0 <= j < d.len() && 0 <= k < d[j].pv.require.len() && d[j].pv.require[k].0 == d[i].name
                ==> cmatch(d[j].pv.require[k].1, d[i].pv.version),
{
    lemma_resolution_settled(reg, root, dev, include_dev, min_rank, prefer_stable);
}

/// No platform requirement (`php`, `ext-*`, `lib-*`, `composer-*`, a name
/// without `/`) is ever resolved.
pub proof fn law_no_platform_package_resolved(
    reg: Seq<(Seq<char>, Seq<PackageVersionView>)>,
    root: Seq<(Seq<char>, Seq<char>)>,
    dev: Seq<(Seq<char>, Seq<char>)>,
    include_dev: bool,
    min_rank: nat,
    prefer_stable: bool,
)
    ensures
        resolution(reg, root, dev, include_dev, min_rank, prefer_stable) matches Ok(d) ==> forall|i: int| 0 <= i < d.len() ==> !is_platform(#[trigger] d[i].name),
{
    lemma_resolution_settled(reg, root, dev, include_dev, min_rank, prefer_stable);
}

/// A successful resolution is closed: every installable root requirement
/// (and development one, when included) and every installable requirement
/// of a resolved package names a resolved package.
pub proof fn law_resolution_is_closed(
    reg: Seq<(Seq<char>, Seq<PackageVersionView>)>,
    root: Seq<(Seq<char>, Seq<char>)>,
    dev: Seq<(Seq<char>, Seq<char>)>,
    include_dev: bool,
    min_rank: nat,
    prefer_stable: bool,
)
    ensures
        resolution(reg, root, dev, include_dev, min_rank, prefer_stable) matches Ok(d) ==> {
            &&& forall|k: int| 0 <= k < root.len() && !is_platform(#[trigger] root[k].0) ==> has_dep(d, root[k].0)
            &&& include_dev ==> forall|k: int| 0 <= k < dev.len() && !is_platform(#[trigger] dev[k].0) ==> has_dep(d, dev[k].0)
            &&& forall|i: int, k: int|
                #![trigger d[i].pv.require[k]]
                0 <= i < d.len() && 0 <= k < d[i].pv.require.len() && !is_platform(d[i].pv.require[k].0)
                    ==> has_dep(d, d[i].pv.require[k].0)
        },
{
    lemma_resolution_settled(reg, root, dev, include_dev, min_rank, prefer_stable);
    lemma_start_cons(root, dev, include_dev);
    let r = start_cons(root, dev, include_dev);
    if resolution(reg, root, dev, include_dev, min_rank, prefer_stable) is Ok {
        let d = resolution(reg, root, dev, include_dev, min_rank, prefer_stable)->Ok_0;
        assert forall|k: int| 0 <= k < root.len() && !is_platform(#[trigger] root[k].0) implies has_dep(d, root[k].0) by {
            assert(r[k].0 == root[k].0);
            assert(requested(r, d, root[k].0));
        }
        if include_dev {
            assert forall|k: int| 0 <= k < dev.len() && !is_platform(#[trigger] dev[k].0) implies has_dep(d, dev[k].0) by {
                assert(r[root.len() + k].0 == dev[k].0);
                assert(requested(r, d, dev[k].0));
            }
        }
        assert forall|i: int, k: int|
            #![trigger d[i].pv.require[k]]
            0 <= i < d.len() && 0 <= k < d[i].pv.require.len() && !is_platform(d[i].pv.require[k].0)
            implies has_dep(d, d[i].pv.require[k].0) by {
            assert(required_by(d, d[i].pv.require[k].0));
            assert(requested(r, d, d[i].pv.require[k].0));
        }
    }
}

/// Nothing extra is resolved: each resolved package is a root requirement,
/// a development requirement (when those are included), or a requirement of
/// a resolved package.
pub proof fn law_resolution_is_minimal(
    reg: Seq<(Seq<char>, Seq<PackageVersionView>)>,
    root: Seq<(Seq<char>, Seq<char>)>,
    dev: Seq<(Seq<char>, Seq<char>)>,
    include_dev: bool,
    min_rank: nat,
    prefer_stable: bool,
)
    ensures
        resolution(reg, root, dev, include_dev, min_rank, prefer_stable) matches Ok(d) ==> forall|i: int|
            0 <= i < d.len() ==> (exists|k: int| 0 <= k < root.len() && #[trigger] root[k].0 == d[i].name)
                || (include_dev && exists|k: int| 0 <= k < dev.len() && #[trigger] dev[k].0 == d[i].name)
                || required_by(d, #[trigger] d[i].name),
{
    lemma_resolution_settled(reg, root, dev, include_dev, min_rank, prefer_stable);
    lemma_start_cons(root, dev, include_dev);
    let r = start_cons(root, dev, include_dev);
    if resolution(reg, root, dev, include_dev, min_rank, prefer_stable) is Ok {
        let d = resolution(reg, root, dev, include_dev, min_rank, prefer_stable)->Ok_0;
        assert forall|i: int| 0 <= i < d.len() implies (exists|k: int| 0 <= k < root.len() && #[trigger] root[k].0 == d[i].name)
            || (include_dev && exists|k: int| 0 <= k < dev.len() && #[trigger] dev[k].0 == d[i].name)
            || required_by(d, #[trigger] d[i].name) by {
            assert(requested(r, d, d[i].name));
            if named(r, d[i].name) {
                let k = choose|k: int| #![trigger r[k]] 0 <= k < r.len() && r[k].0 == d[i].name;
                if k < root.len() {
                    assert(r[k].0 == root[k].0);
                } else {
                    assert(r[root.len() + (k - root.len())].0 == dev[k - root.len()].0);
                }
            }
        }
    }
}

/// A failed resolution is explained by the registry: a conflict reports a
/// package, and the constraints recorded on it (the root ones on it among
/// them), that none of its offered versions satisfies, or that the offered
/// version it was already resolved to misses; a registry failure names an
/// installable package the registry does not know.
pub proof fn law_failure_names_the_package(
    reg: Seq<(Seq<char>, Seq<PackageVersionView>)>,
    root: Seq<(Seq<char>, Seq<char>)>,
    dev: Seq<(Seq<char>, Seq<char>)>,
    include_dev: bool,
    min_rank: nat,
    prefer_stable: bool,
)
    ensures
        resolution(reg, root, dev, include_dev, min_rank, prefer_stable) matches Err(e) ==> match e {
            ResolveErrorView::Conflict(m) => exists|n: Seq<char>, cs: Seq<(Seq<char>, Seq<char>)>, vs: Seq<PackageVersionView>|
                #[trigger] conflict_text(n, cs, vs) == m && !is_platform(n)
                    && (forall|k: int| 0 <= k < root.len() && root[k].0 == n
                        ==> exists|j: int| 0 <= j < cs.len() && #[trigger] cs[j].0 == root[k].1)
                    && ((registry_lookup(reg, n) == Ok::<Seq<PackageVersionView>, RegistryErrorView>(vs)
                        && (forall|j: int| 0 <= j < vs.len() ==> !eligible(cs, min_rank, #[trigger] vs[j].version)))
                    || (vs.len() == 1 && offered(reg, DepView { name: n, pv: vs[0] }) && !all_match(cs, vs[0].version))),
            ResolveErrorView::NotFound(_) => false,
            ResolveErrorView::Registry(n, e2) => !is_platform(n) && e2 == RegistryErrorView::NotFound(n)
                && registry_lookup(reg, n) == Err::<Seq<PackageVersionView>, RegistryErrorView>(e2),
        },
{
    lemma_resolution_settled(reg, root, dev, include_dev, min_rank, prefer_stable);
    lemma_start_cons(root, dev, include_dev);
    let r = start_cons(root, dev, include_dev);
    if resolution(reg, root, dev, include_dev, min_rank, prefer_stable) is Err {
        let e = resolution(reg, root, dev, include_dev, min_rank, prefer_stable)->Err_0;
        if e is Conflict {
            let m = e->Conflict_0;
            let (n, cs, vs) = choose|n: Seq<char>, cs: Seq<(Seq<char>, Seq<char>)>, vs: Seq<PackageVersionView>|
                #[trigger] conflict_text(n, cs, vs) == m && !is_platform(n)
                    && (forall|k: int| 0 <= k < r.len() && r[k].0 == n ==> exists|j: int| 0 <= j < cs.len() && #[trigger] cs[j].0 == r[k].1)
                    && ((registry_lookup(reg, n) == Ok::<Seq<PackageVersionView>, RegistryErrorView>(vs)
                        && (forall|j: int| 0 <= j < vs.len() ==> !eligible(cs, min_rank, #[trigger] vs[j].version)))
                    || (vs.len() == 1 && offered(reg, DepView { name: n, pv: vs[0] }) && !all_match(cs, vs[0].version)));
            assert forall|k: int| 0 <= k < root.len() && root[k].0 == n implies exists|j: int| 0 <= j < cs.len() && #[trigger] cs[j].0 == root[k].1 by {
                assert(r[k] == (root[k].0, root[k].1, "<root>"@));
            }
        }
    }
}

/// Development requirements change nothing unless they are included.
pub proof fn law_dev_requirements_ignored_unless_included(
    reg: Seq<(Seq<char>, Seq<PackageVersionView>)>,
    root: Seq<(Seq<char>, Seq<char>)>,
    dev: Seq<(Seq<char>, Seq<char>)>,
    min_rank: nat,
    prefer_stable: bool,
)
    ensures
        resolution(reg, root, dev, false, min_rank, prefer_stable) == resolution(reg, root, Seq::empty(), false, min_rank, prefer_stable),
{
    assert(init_state(root, dev, false, min_rank, prefer_stable) == init_state(root, Seq::empty(), false, min_rank, prefer_stable));
}

/// Some version of `vs` is eligible under `cs` at stability `floor`.
pub open spec fn any_eligible(vs: Seq<PackageVersionView>, cs: Seq<(Seq<char>, Seq<char>)>, floor: nat) -> bool {
    exists|j: int| 0 <= j < vs.len() && eligible(cs, floor, #[trigger] vs[j].version)
}

/// `vs[b]` is eligible, and no eligible version is higher.
pub open spec fn highest_eligible(vs: Seq<PackageVersionView>, cs: Seq<(Seq<char>, Seq<char>)>, floor: nat, b: int) -> bool {
    &&& 0 <= b < vs.len()
    &&& eligible(cs, floor, vs[b].version)
    &&& forall|j: int| 0 <= j < vs.len() && eligible(cs, floor, #[trigger] vs[j].version) ==> !version_lt(vs[b].version, vs[j].version)
}

/// For one package, the version chosen is the highest offered version that
/// satisfies every constraint recorded on it and is at least as stable as
/// the minimum stability; with `prefer_stable`, it is the highest stable
/// one when a stable one satisfies the constraints. None is chosen only
/// when no offered version is allowed.
pub proof fn law_best_version_is_highest(vs: Seq<PackageVersionView>, cs: Seq<(Seq<char>, Seq<char>)>, min_rank: nat, prefer_stable: bool)
    ensures
        prefer_stable && any_eligible(vs, cs, 4) ==> highest_eligible(vs, cs, 4, choose_index(vs, cs, min_rank, prefer_stable)),
        !(prefer_stable && any_eligible(vs, cs, 4)) ==> {
            &&& (choose_index(vs, cs, min_rank, prefer_stable) >= 0 <==> any_eligible(vs, cs, min_rank))
            &&& choose_index(vs, cs, min_rank, prefer_stable) >= 0 ==> highest_eligible(vs, cs, min_rank, choose_index(vs, cs, min_rank, prefer_stable))
        },
{
    lemma_best_index(vs, cs, 4);
    lemma_best_index(vs, cs, min_rank);
}

/// Every resolved version is at least as stable as the minimum stability
/// (`min_rank`, at most that of a stable release).
pub proof fn law_minimum_stability_respected(
    reg: Seq<(Seq<char>, Seq<PackageVersionView>)>,
    root: Seq<(Seq<char>, Seq<char>)>,
    dev: Seq<(Seq<char>, Seq<char>)>,
    include_dev: bool,
    min_rank: nat,
    prefer_stable: bool,
)
    requires
        min_rank <= 4,
    ensures
        resolution(reg, root, dev, include_dev, min_rank, prefer_stable) matches Ok(d)
            ==> forall|i: int| 0 <= i < d.len() ==> stability_rank(#[trigger] d[i].pv.version.stability) >= min_rank,
{
    lemma_resolution_settled(reg, root, dev, include_dev, min_rank, prefer_stable);
    if resolution(reg, root, dev, include_dev, min_rank, prefer_stable) is Ok {
        let d = resolution(reg, root, dev, include_dev, min_rank, prefer_stable)->Ok_0;
        assert forall|i: int| 0 <= i < d.len() implies stability_rank(#[trigger] d[i].pv.version.stability) >= min_rank by {
            assert(stable_enough(d[i], min_rank));
        }
    }
}

/// Runs against two registries that answer every name alike agree.
proof fn lemma_run_same_answers(
    st: RState,
    reg1: Seq<(Seq<char>, Seq<PackageVersionView>)>,
    reg2: Seq<(Seq<char>, Seq<PackageVersionView>)>,
)
    requires
        forall|n: Seq<char>| #[trigger] registry_lookup(reg1, n) == registry_lookup(reg2, n),
    ensures
        run(st, reg1) == run(st, reg2),
    decreases measure(st, reg1), st.queue.len(),
{
    assert forall|n: Seq<char>| #[trigger] key_index(reg1, n) >= 0 <==> key_index(reg2, n) >= 0 by {
        lemma_key_index(reg1, n);
        lemma_key_index(reg2, n);
        assert(registry_lookup(reg1, n) == registry_lookup(reg2, n));
    }
    assert(wf(st, reg1) == wf(st, reg2));
    if !wf(st, reg1) {
        reveal_with_fuel(run, 1);
    } else {
        lemma_run_unfold(st, reg1);
        lemma_run_unfold(st, reg2);
        if st.queue.len() > 0 && !skippable(st) {
            assert(registry_lookup(reg1, st.queue[0]) == registry_lookup(reg2, st.queue[0]));
        }
        assert(step(st, reg1) == step(st, reg2));
        match step(st, reg1) {
            Step::Continue(s2) => {
                if !skippable(st) {
                    lemma_head_step(st, reg1);
                }
                lemma_run_same_answers(s2, reg1, reg2);
            },
            _ => {},
        }
    }
}

/// The resolution depends on the registry only through its answers: two
/// registries that answer every name alike resolve the same requirements
/// alike.
pub proof fn law_resolution_depends_only_on_answers(
    reg1: Seq<(Seq<char>, Seq<PackageVersionView>)>,
    reg2: Seq<(Seq<char>, Seq<PackageVersionView>)>,
    root: Seq<(Seq<char>, Seq<char>)>,
    dev: Seq<(Seq<char>, Seq<char>)>,
    include_dev: bool,
    min_rank: nat,
    prefer_stable: bool,
)
    requires
        forall|n: Seq<char>| #[trigger] registry_lookup(reg1, n) == registry_lookup(reg2, n),
    ensures
        resolution(reg1, root, dev, include_dev, min_rank, prefer_stable)
            == resolution(reg2, root, dev, include_dev, min_rank, prefer_stable),
{
    lemma_run_same_answers(init_state(root, dev, include_dev, min_rank, prefer_stable), reg1, reg2);
}

// ---------------------------------------------------------------------------
// The version chosen is the highest allowed
// ---------------------------------------------------------------------------

/// The versions the registry offers for `n` (none when it does not know it).
pub open spec fn offered_versions(reg: Seq<(Seq<char>, Seq<PackageVersionView>)>, n: Seq<char>) -> Seq<PackageVersionView> {
    match registry_lookup(reg, n) {
        Ok(vs) => vs,
        Err(_) => Seq::empty(),
    }
}

/// A version `v` that satisfies the same constraints as the chosen `c` does
/// not beat it: without `prefer_stable`, no such `v` at an allowed
/// stability is higher; with it, no stable such `v` is higher, and when
/// `c` is not stable, no such `v` is stable and none at an allowed
/// stability is higher.
pub open spec fn not_beaten(c: VersionView, v: VersionView, min_rank: nat, prefer_stable: bool) -> bool {
    if prefer_stable {
        &&& (stability_rank(v.stability) == 4 ==> !version_lt(c, v))
        &&& (stability_rank(c.stability) != 4 ==> stability_rank(v.stability) != 4
            && (stability_rank(v.stability) >= min_rank ==> !version_lt(c, v)))
    } else {
        stability_rank(v.stability) >= min_rank ==> !version_lt(c, v)
    }
}

/// No offered version of `d`'s package that satisfies every constraint in
/// `cons` on it beats `d`'s version.
pub open spec fn choice_holds(
    cons: Seq<(Seq<char>, Seq<char>, Seq<char>)>,
    reg: Seq<(Seq<char>, Seq<PackageVersionView>)>,
    d: DepView,
    min_rank: nat,
    prefer_stable: bool,
) -> bool {
    forall|j: int|
        0 <= j < offered_versions(reg, d.name).len()
            && all_match(cons_for(cons, d.name), #[trigger] offered_versions(reg, d.name)[j].version)
            ==> not_beaten(d.pv.version, offered_versions(reg, d.name)[j].version, min_rank, prefer_stable)
}

/// Some resolved package requires `c` (its package and constraint).
pub open spec fn from_require(d: Seq<DepView>, c: (Seq<char>, Seq<char>, Seq<char>)) -> bool {
    exists|i: int, j: int|
        #![trigger d[i].pv.require[j]]
        0 <= i < d.len() && 0 <= j < d[i].pv.require.len() && d[i].pv.require[j].0 == c.0 && d[i].pv.require[j].1 == c.1
}

/// Each resolved package's version is not beaten under the constraints
/// recorded so far, and every constraint recorded after the starting ones
/// is a requirement of a resolved package.
pub open spec fn inv3(st: RState, reg: Seq<(Seq<char>, Seq<PackageVersionView>)>, r: Seq<(Seq<char>, Seq<char>, Seq<char>)>) -> bool {
    &&& forall|i: int| 0 <= i < st.resolved.len() ==> choice_holds(st.cons, reg, #[trigger] st.resolved[i], st.min_rank, st.prefer_stable)
    &&& forall|k: int| r.len() <= k < st.cons.len() ==> from_require(st.resolved, #[trigger] st.cons[k])
}

/// `v` satisfies every constraint on `n` that the starting requirements `r`
/// and the requirements of the packages of `d` place on it.
pub open spec fn wanted(r: Seq<(Seq<char>, Seq<char>, Seq<char>)>, d: Seq<DepView>, n: Seq<char>, v: VersionView) -> bool {
    &&& forall|k: int| 0 <= k < r.len() && #[trigger] r[k].0 == n ==> cmatch(r[k].1, v)
    &&& forall|i: int, k: int|
        #![trigger d[i].pv.require[k]]
        0 <= i < d.len() && 0 <= k < d[i].pv.require.len() && d[i].pv.require[k].0 == n ==> cmatch(d[i].pv.require[k].1, v)
}

proof fn lemma_cons_for_append(a: Seq<(Seq<char>, Seq<char>, Seq<char>)>, b: Seq<(Seq<char>, Seq<char>, Seq<char>)>, n: Seq<char>)
    ensures
        cons_for(a + b, n) == cons_for(a, n) + cons_for(b, n),
    decreases b.len(),
{
    if b.len() == 0 {
        assert(a + b =~= a);
        assert(cons_for(a, n) + cons_for(b, n) =~= cons_for(a, n));
    } else {
        lemma_cons_for_append(a, b.drop_last(), n);
        assert((a + b).drop_last() =~= a + b.drop_last());
        assert((a + b).last() == b.last());
        let x = cons_for(a, n);
        let y = cons_for(b.drop_last(), n);
        assert((x + y).push((b.last().1, b.last().2)) =~= x + y.push((b.last().1, b.last().2)));
    }
}

/// Each constraint recorded on `n` comes from an entry of `cons` on `n`.
proof fn lemma_cons_for_from(cons: Seq<(Seq<char>, Seq<char>, Seq<char>)>, n: Seq<char>, j: int)
    requires
        0 <= j < cons_for(cons, n).len(),
    ensures
        exists|k: int| #![trigger cons[k]] 0 <= k < cons.len() && cons[k].0 == n && cons_for(cons, n)[j] == (cons[k].1, cons[k].2),
    decreases cons.len(),
{
    let rest = cons.drop_last();
    if j < cons_for(rest, n).len() {
        lemma_cons_for_from(rest, n, j);
        let k = choose|k: int| #![trigger rest[k]] 0 <= k < rest.len() && rest[k].0 == n && cons_for(rest, n)[j] == (rest[k].1, rest[k].2);
        assert(cons[k] == rest[k]);
    } else {
        assert(cons[cons.len() - 1] == cons.last());
    }
}

/// Recording more constraints keeps a choice unbeaten.
proof fn lemma_choice_more(
    a: Seq<(Seq<char>, Seq<char>, Seq<char>)>,
    b: Seq<(Seq<char>, Seq<char>, Seq<char>)>,
    reg: Seq<(Seq<char>, Seq<PackageVersionView>)>,
    d: DepView,
    min_rank: nat,
    prefer_stable: bool,
)
    requires
        choice_holds(a, reg, d, min_rank, prefer_stable),
    ensures
        choice_holds(a + b, reg, d, min_rank, prefer_stable),
{
    lemma_cons_for_append(a, b, d.name);
    let vs = offered_versions(reg, d.name);
    assert forall|j: int| 0 <= j < vs.len() && all_match(cons_for(a + b, d.name), #[trigger] vs[j].version)
        implies not_beaten(d.pv.version, vs[j].version, min_rank, prefer_stable) by {
        let x = cons_for(a, d.name);
        assert forall|k: int| 0 <= k < x.len() implies cmatch(#[trigger] x[k].0, vs[j].version) by {
            assert(cons_for(a + b, d.name)[k] == x[k]);
        }
    }
}

/// The version `choose_index` picks is not beaten under the constraints it
/// was picked for.
proof fn lemma_choose_not_beaten(vs: Seq<PackageVersionView>, cs: Seq<(Seq<char>, Seq<char>)>, min_rank: nat, prefer_stable: bool)
    requires
        choose_index(vs, cs, min_rank, prefer_stable) >= 0,
    ensures
        forall|j: int| 0 <= j < vs.len() && all_match(cs, #[trigger] vs[j].version)
            ==> not_beaten(vs[choose_index(vs, cs, min_rank, prefer_stable)].version, vs[j].version, min_rank, prefer_stable),
{
    lemma_best_index(vs, cs, 4);
    lemma_best_index(vs, cs, min_rank);
    let c = choose_index(vs, cs, min_rank, prefer_stable);
    assert forall|j: int| 0 <= j < vs.len() && all_match(cs, #[trigger] vs[j].version)
        implies not_beaten(vs[c].version, vs[j].version, min_rank, prefer_stable) by {
        let v = vs[j].version;
        assert(stability_rank(v.stability) <= 4) by { match v.stability { _ => {} } }
        assert(stability_rank(vs[c].version.stability) <= 4) by { match vs[c].version.stability { _ => {} } }
        if prefer_stable {
            if best_index(vs, cs, 4) >= 0 {
                if stability_rank(v.stability) == 4 {
                    assert(eligible(cs, 4, v));
                }
            } else {
                assert(!eligible(cs, 4, v));
                if stability_rank(v.stability) >= min_rank {
                    assert(eligible(cs, min_rank, v));
                }
                if stability_rank(vs[c].version.stability) == 4 {
                    assert(eligible(cs, 4, vs[c].version));
                }
            }
        } else {
            if stability_rank(v.stability) >= min_rank {
                assert(eligible(cs, min_rank, v));
            }
        }
    }
}

/// Each constraint `new_cons` records is a requirement's, requested by `src`.
proof fn lemma_new_cons_from(req: Seq<(Seq<char>, Seq<char>)>, src: Seq<char>, m: int)
    requires
        0 <= m < new_cons(req, src).len(),
    ensures
        exists|j: int| 0 <= j < req.len() && req[j].0 == #[trigger] new_cons(req, src)[m].0 && req[j].1 == new_cons(req, src)[m].1,
    decreases req.len(),
{
    let rest = req.drop_last();
    if m < new_cons(rest, src).len() {
        lemma_new_cons_from(rest, src, m);
        let j = choose|j: int| 0 <= j < rest.len() && rest[j].0 == #[trigger] new_cons(rest, src)[m].0 && rest[j].1 == new_cons(rest, src)[m].1;
        assert(req[j] == rest[j]);
        assert(new_cons(req, src)[m] == new_cons(rest, src)[m]);
    } else {
        assert(new_cons(req, src)[m] == (req.last().0, req.last().1, src));
        assert(req[req.len() - 1] == req.last());
    }
}

/// Resolving the head keeps `inv3`.
#[verifier::rlimit(60)]
proof fn lemma_inv3_resolve(st: RState, reg: Seq<(Seq<char>, Seq<PackageVersionView>)>, r: Seq<(Seq<char>, Seq<char>, Seq<char>)>)
    requires
        inv(st, reg, r),
        inv3(st, reg, r),
        st.queue.len() > 0,
        !skippable(st),
        resolve_head(st, registry_lookup(reg, st.queue[0])) is Continue,
    ensures
        inv3(resolve_head(st, registry_lookup(reg, st.queue[0]))->Continue_0, reg, r),
{
    let n = st.queue[0];
    lemma_dep_index(st.resolved, n);
    let vs = registry_lookup(reg, n)->Ok_0;
    let cs = cons_for(st.cons, n);
    lemma_choose_index(vs, cs, st.min_rank, st.prefer_stable);
    let b = choose_index(vs, cs, st.min_rank, st.prefer_stable);
    lemma_choose_not_beaten(vs, cs, st.min_rank, st.prefer_stable);
    let pv = vs[b];
    let d = DepView { name: n, pv };
    let s2 = resolve_head(st, registry_lookup(reg, n))->Continue_0;
    let s = st.resolved;
    let t = s2.resolved;
    let nc = new_cons(pv.require, n);
    assert(t == insert_sorted(s, d));
    assert(s2.cons == st.cons + nc);
    lemma_insert_elems(s, d);
    let p = sorted_pos(s, n, 0);
    assert(offered_versions(reg, n) == vs);
    assert(choice_holds(st.cons, reg, d, st.min_rank, st.prefer_stable));
    assert forall|i: int| 0 <= i < t.len() implies choice_holds(s2.cons, reg, #[trigger] t[i], s2.min_rank, s2.prefer_stable) by {
        if i == p {
            lemma_choice_more(st.cons, nc, reg, d, st.min_rank, st.prefer_stable);
        } else {
            let i2 = if i < p { i } else { i - 1 };
            assert(t[i] == s[i2]);
            assert(choice_holds(st.cons, reg, s[i2], st.min_rank, st.prefer_stable));
            lemma_choice_more(st.cons, nc, reg, s[i2], st.min_rank, st.prefer_stable);
        }
    }
    assert forall|k: int| r.len() <= k < s2.cons.len() implies from_require(t, #[trigger] s2.cons[k]) by {
        if k < st.cons.len() {
            assert(s2.cons[k] == st.cons[k]);
            assert(from_require(s, st.cons[k]));
            let (i, j) = choose|i: int, j: int|
                #![trigger s[i].pv.require[j]]
                0 <= i < s.len() && 0 <= j < s[i].pv.require.len() && s[i].pv.require[j].0 == st.cons[k].0 && s[i].pv.require[j].1 == st.cons[k].1;
            let i3 = if i < p { i } else { i + 1 };
            assert(t[i3] == s[i]);
            assert(t[i3].pv.require[j] == s[i].pv.require[j]);
        } else {
            let m = k - st.cons.len();
            assert(s2.cons[k] == nc[m]);
            lemma_new_cons_from(pv.require, n, m);
            let j = choose|j: int| 0 <= j < pv.require.len() && pv.require[j].0 == #[trigger] nc[m].0 && pv.require[j].1 == nc[m].1;
            assert(t[p] == d);
            assert(t[p].pv.require[j] == pv.require[j]);
        }
    }
}

/// No resolved version is beaten by an offered version of its package that
/// satisfies every constraint `r` and the resolved packages place on it.
pub open spec fn highest_chosen(
    d: Seq<DepView>,
    reg: Seq<(Seq<char>, Seq<PackageVersionView>)>,
    r: Seq<(Seq<char>, Seq<char>, Seq<char>)>,
    min_rank: nat,
    prefer_stable: bool,
) -> bool {
    forall|i: int, j: int|
        #![trigger d[i], offered_versions(reg, d[i].name)[j]]
        0 <= i < d.len() && 0 <= j < offered_versions(reg, d[i].name).len()
            && wanted(r, d, d[i].name, offered_versions(reg, d[i].name)[j].version)
            ==> not_beaten(d[i].pv.version, offered_versions(reg, d[i].name)[j].version, min_rank, prefer_stable)
}

/// A resolution from a state that keeps the invariants ends with every
/// version unbeaten.
proof fn lemma_inv3_run(st: RState, reg: Seq<(Seq<char>, Seq<PackageVersionView>)>, r: Seq<(Seq<char>, Seq<char>, Seq<char>)>)
    requires
        inv(st, reg, r),
        inv2(st),
        inv3(st, reg, r),
    ensures
        run(st, reg) matches Ok(d) ==> highest_chosen(d, reg, r, st.min_rank, st.prefer_stable),
    decreases measure(st, reg), st.queue.len(),
{
    lemma_run_unfold(st, reg);
    if st.queue.len() == 0 {
        let d = st.resolved;
        assert forall|i: int, j: int|
            #![trigger d[i], offered_versions(reg, d[i].name)[j]]
            0 <= i < d.len() && 0 <= j < offered_versions(reg, d[i].name).len()
                && wanted(r, d, d[i].name, offered_versions(reg, d[i].name)[j].version)
            implies not_beaten(d[i].pv.version, offered_versions(reg, d[i].name)[j].version, st.min_rank, st.prefer_stable) by {
            let v = offered_versions(reg, d[i].name)[j].version;
            let cs = cons_for(st.cons, d[i].name);
            assert forall|k: int| 0 <= k < cs.len() implies cmatch(#[trigger] cs[k].0, v) by {
                lemma_cons_for_from(st.cons, d[i].name, k);
                let m = choose|m: int| #![trigger st.cons[m]] 0 <= m < st.cons.len() && st.cons[m].0 == d[i].name && cs[k] == (st.cons[m].1, st.cons[m].2);
                if m < r.len() {
                    assert(st.cons[m] == r[m]);
                    assert(r[m].0 == d[i].name);
                } else {
                    assert(from_require(d, st.cons[m]));
                    let (i2, j2) = choose|i2: int, j2: int|
                        #![trigger d[i2].pv.require[j2]]
                        0 <= i2 < d.len() && 0 <= j2 < d[i2].pv.require.len() && d[i2].pv.require[j2].0 == st.cons[m].0 && d[i2].pv.require[j2].1 == st.cons[m].1;
                    assert(cmatch(d[i2].pv.require[j2].1, v));
                }
            }
            assert(choice_holds(st.cons, reg, d[i], st.min_rank, st.prefer_stable));
        }
    } else if skippable(st) {
        let s2 = RState { queue: st.queue.drop_first(), ..st };
        lemma_inv_skip(st, reg, r);
        lemma_inv2_skip(st, reg, r);
        lemma_inv3_run(s2, reg, r);
    } else {
        let md = registry_lookup(reg, st.queue[0]);
        assert(step(st, reg) == resolve_head(st, md));
        lemma_head_step(st, reg);
        if resolve_head(st, md) is Continue {
            let s2 = resolve_head(st, md)->Continue_0;
            lemma_inv_resolve(st, reg, r);
            lemma_inv2_resolve(st, reg, r);
            lemma_inv3_resolve(st, reg, r);
            lemma_inv3_run(s2, reg, r);
        }
    }
}

/// The version chosen for each package is the highest allowed: no version
/// the registry offers for it that satisfies every constraint the root
/// requirements (and the development ones, when included) and the resolved
/// packages place on it is higher at an allowed stability; with
/// `prefer_stable`, no stable one is higher, and a package resolved to an
/// unstable version has no stable version that satisfies them.
pub proof fn law_resolved_version_is_highest(
    reg: Seq<(Seq<char>, Seq<PackageVersionView>)>,
    root: Seq<(Seq<char>, Seq<char>)>,
    dev: Seq<(Seq<char>, Seq<char>)>,
    include_dev: bool,
    min_rank: nat,
    prefer_stable: bool,
)
    ensures
        resolution(reg, root, dev, include_dev, min_rank, prefer_stable) matches Ok(d)
            ==> highest_chosen(d, reg, start_cons(root, dev, include_dev), min_rank, prefer_stable),
{
    lemma_resolution_settled(reg, root, dev, include_dev, min_rank, prefer_stable);
    let st = init_state(root, dev, include_dev, min_rank, prefer_stable);
    let r = st.cons;
    assert(st.queue.len() == r.len());
    assert forall|j: int| 0 <= j < st.queue.len() implies #[trigger] st.queue[j] == r[j].0 by {
        if j >= root.len() {
            assert(st.queue[j] == root_names(dev)[j - root.len()]);
            assert(r[j] == root_cons(dev, "<root-dev>"@)[j - root.len()]);
        }
    }
    assert forall|x: Seq<char>| !is_platform(x) && #[trigger] requested(r, st.resolved, x) implies has_dep(st.resolved, x)
        || st.queue.contains(x) by {
        let k = choose|k: int| #![trigger r[k]] 0 <= k < r.len() && r[k].0 == x;
        assert(st.queue[k] == x);
    }
    assert forall|j: int| 0 <= j < st.queue.len() implies requested(r, st.resolved, #[trigger] st.queue[j]) by {
        assert(r[j].0 == st.queue[j]);
    }
    lemma_inv3_run(st, reg, r);
}

// ---------------------------------------------------------------------------
// The resolved names are the reachable ones
// ---------------------------------------------------------------------------

/// `x` is reached from the starting requirements `r` within `k` steps
/// along the requirements of the packages of `d`: it is named by `r`, or
/// required by a package of `d` whose name is reached within `k - 1`.
pub open spec fn reached(r: Seq<(Seq<char>, Seq<char>, Seq<char>)>, d: Seq<DepView>, x: Seq<char>, k: nat) -> bool
    decreases k,
{
    named(r, x) || (k > 0 && (reached(r, d, x, (k - 1) as nat) || exists|i: int, j: int|
        #![trigger d[i].pv.require[j]]
        0 <= i < d.len() && 0 <= j < d[i].pv.require.len() && d[i].pv.require[j].0 == x
            && reached(r, d, d[i].name, (k - 1) as nat)))
}

/// `x` is reached from `r` along the requirements of the packages of `d`.
pub open spec fn reachable(r: Seq<(Seq<char>, Seq<char>, Seq<char>)>, d: Seq<DepView>, x: Seq<char>) -> bool {
    exists|k: nat| #[trigger] reached(r, d, x, k)
}

/// Every package of `s` is also one of `t`.
pub open spec fn covers(t: Seq<DepView>, s: Seq<DepView>) -> bool {
    forall|i: int| 0 <= i < s.len() ==> #[trigger] t.contains(s[i])
}

/// Whatever is reached through the packages of `s` is reached through those
/// of `t` when `t` holds every package of `s`.
proof fn lemma_reached_mono(r: Seq<(Seq<char>, Seq<char>, Seq<char>)>, s: Seq<DepView>, t: Seq<DepView>, x: Seq<char>, k: nat)
    requires
        covers(t, s),
        reached(r, s, x, k),
    ensures
        reached(r, t, x, k),
    decreases k,
{
    if !named(r, x) && k > 0 {
        if reached(r, s, x, (k - 1) as nat) {
            lemma_reached_mono(r, s, t, x, (k - 1) as nat);
        } else {
            let (i, j) = choose|i: int, j: int|
                #![trigger s[i].pv.require[j]]
                0 <= i < s.len() && 0 <= j < s[i].pv.require.len() && s[i].pv.require[j].0 == x
                    && reached(r, s, s[i].name, (k - 1) as nat);
            assert(t.contains(s[i]));
            let i2 = choose|i2: int| 0 <= i2 < t.len() && #[trigger] t[i2] == s[i];
            lemma_reached_mono(r, s, t, s[i].name, (k - 1) as nat);
            assert(t[i2].pv.require[j].0 == x);
        }
    }
}

proof fn lemma_reachable_mono(r: Seq<(Seq<char>, Seq<char>, Seq<char>)>, s: Seq<DepView>, t: Seq<DepView>, x: Seq<char>)
    requires
        covers(t, s),
        reachable(r, s, x),
    ensures
        reachable(r, t, x),
{
    let k = choose|k: nat| #[trigger] reached(r, s, x, k);
    lemma_reached_mono(r, s, t, x, k);
}

/// Every queued and every resolved name is reachable.
pub open spec fn inv5(st: RState, r: Seq<(Seq<char>, Seq<char>, Seq<char>)>) -> bool {
    &&& forall|j: int| 0 <= j < st.queue.len() ==> reachable(r, st.resolved, #[trigger] st.queue[j])
    &&& forall|i: int| 0 <= i < st.resolved.len() ==> reachable(r, st.resolved, #[trigger] st.resolved[i].name)
}

proof fn lemma_inv5_resolve(st: RState, reg: Seq<(Seq<char>, Seq<PackageVersionView>)>, r: Seq<(Seq<char>, Seq<char>, Seq<char>)>)
    requires
        inv(st, reg, r),
        inv5(st, r),
        st.queue.len() > 0,
        !skippable(st),
        resolve_head(st, registry_lookup(reg, st.queue[0])) is Continue,
    ensures
        inv5(resolve_head(st, registry_lookup(reg, st.queue[0]))->Continue_0, r),
{
    let n = st.queue[0];
    lemma_dep_index(st.resolved, n);
    let vs = registry_lookup(reg, n)->Ok_0;
    let cs = cons_for(st.cons, n);
    lemma_choose_index(vs, cs, st.min_rank, st.prefer_stable);
    let b = choose_index(vs, cs, st.min_rank, st.prefer_stable);
    let pv = vs[b];
    let d = DepView { name: n, pv };
    let s2 = resolve_head(st, registry_lookup(reg, n))->Continue_0;
    let s = st.resolved;
    let t = s2.resolved;
    let nn = new_names(pv.require);
    assert(t == insert_sorted(s, d));
    assert(s2.queue == st.queue.drop_first() + nn);
    lemma_insert_elems(s, d);
    let p = sorted_pos(s, n, 0);
    assert forall|i: int| 0 <= i < s.len() implies #[trigger] t.contains(s[i]) by {
        if i < p {
            assert(t[i] == s[i]);
        } else {
            assert(t[i + 1] == s[i]);
        }
    }
    assert(covers(t, s));
    lemma_reachable_mono(r, s, t, n);
    let kn = choose|k: nat| #[trigger] reached(r, t, n, k);
    assert(t[p] == d);
    assert forall|j: int| 0 <= j < s2.queue.len() implies reachable(r, t, #[trigger] s2.queue[j]) by {
        if j < st.queue.len() - 1 {
            assert(s2.queue[j] == st.queue[j + 1]);
            lemma_reachable_mono(r, s, t, st.queue[j + 1]);
        } else {
            let m = j - (st.queue.len() - 1);
            assert(s2.queue[j] == nn[m]);
            lemma_new_names_from(pv.require);
            let k = choose|k: int| 0 <= k < pv.require.len() && pv.require[k].0 == #[trigger] nn[m];
            assert(t[p].pv.require[k].0 == s2.queue[j]);
            assert(reached(r, t, s2.queue[j], kn + 1));
        }
    }
    assert forall|i: int| 0 <= i < t.len() implies reachable(r, t, #[trigger] t[i].name) by {
        if i == p {
        } else if i < p {
            assert(t[i] == s[i]);
            lemma_reachable_mono(r, s, t, s[i].name);
        } else {
            assert(t[i] == s[i - 1]);
            lemma_reachable_mono(r, s, t, s[i - 1].name);
        }
    }
}

proof fn lemma_inv5_run(st: RState, reg: Seq<(Seq<char>, Seq<PackageVersionView>)>, r: Seq<(Seq<char>, Seq<char>, Seq<char>)>)
    requires
        inv(st, reg, r),
        inv2(st),
        inv5(st, r),
    ensures
        run(st, reg) matches Ok(d) ==> forall|i: int| 0 <= i < d.len() ==> reachable(r, d, #[trigger] d[i].name),
    decreases measure(st, reg), st.queue.len(),
{
    lemma_run_unfold(st, reg);
    if st.queue.len() == 0 {
    } else if skippable(st) {
        let s2 = RState { queue: st.queue.drop_first(), ..st };
        lemma_inv_skip(st, reg, r);
        lemma_inv2_skip(st, reg, r);
        assert forall|j: int| 0 <= j < s2.queue.len() implies reachable(r, s2.resolved, #[trigger] s2.queue[j]) by {
            assert(s2.queue[j] == st.queue[j + 1]);
        }
        lemma_inv5_run(s2, reg, r);
    } else {
        let md = registry_lookup(reg, st.queue[0]);
        assert(step(st, reg) == resolve_head(st, md));
        lemma_head_step(st, reg);
        if resolve_head(st, md) is Continue {
            let s2 = resolve_head(st, md)->Continue_0;
            lemma_inv_resolve(st, reg, r);
            lemma_inv2_resolve(st, reg, r);
            lemma_inv5_resolve(st, reg, r);
            lemma_inv5_run(s2, reg, r);
        }
    }
}

/// What is reachable and installable is resolved.
proof fn lemma_reached_resolved(d: Seq<DepView>, reg: Seq<(Seq<char>, Seq<PackageVersionView>)>, r: Seq<(Seq<char>, Seq<char>, Seq<char>)>, x: Seq<char>, k: nat)
    requires
        settled(d, reg, r),
        !is_platform(x),
        reached(r, d, x, k),
    ensures
        has_dep(d, x),
    decreases k,
{
    if named(r, x) {
        assert(requested(r, d, x));
    } else if reached(r, d, x, (k - 1) as nat) {
        lemma_reached_resolved(d, reg, r, x, (k - 1) as nat);
    } else {
        let (i, j) = choose|i: int, j: int|
            #![trigger d[i].pv.require[j]]
            0 <= i < d.len() && 0 <= j < d[i].pv.require.len() && d[i].pv.require[j].0 == x
                && reached(r, d, d[i].name, (k - 1) as nat);
        assert(required_by(d, x));
        assert(requested(r, d, x));
    }
}

/// The packages resolved are exactly the installable names reachable from
/// the root requirements (and the development ones, when included) along
/// the requirements of the resolved versions.
pub proof fn law_resolved_names_are_the_reachable_ones(
    reg: Seq<(Seq<char>, Seq<PackageVersionView>)>,
    root: Seq<(Seq<char>, Seq<char>)>,
    dev: Seq<(Seq<char>, Seq<char>)>,
    include_dev: bool,
    min_rank: nat,
    prefer_stable: bool,
)
    ensures
        resolution(reg, root, dev, include_dev, min_rank, prefer_stable) matches Ok(d) ==> forall|x: Seq<char>|
            #[trigger] has_dep(d, x) <==> (!is_platform(x) && reachable(start_cons(root, dev, include_dev), d, x)),
{
    lemma_resolution_settled(reg, root, dev, include_dev, min_rank, prefer_stable);
    let st = init_state(root, dev, include_dev, min_rank, prefer_stable);
    let r = st.cons;
    assert(st.queue.len() == r.len());
    assert forall|j: int| 0 <= j < st.queue.len() implies #[trigger] st.queue[j] == r[j].0 by {
        if j >= root.len() {
            assert(st.queue[j] == root_names(dev)[j - root.len()]);
            assert(r[j] == root_cons(dev, "<root-dev>"@)[j - root.len()]);
        }
    }
    assert forall|x: Seq<char>| !is_platform(x) && #[trigger] requested(r, st.resolved, x) implies has_dep(st.resolved, x)
        || st.queue.contains(x) by {
        let k = choose|k: int| #![trigger r[k]] 0 <= k < r.len() && r[k].0 == x;
        assert(st.queue[k] == x);
    }
    assert forall|j: int| 0 <= j < st.queue.len() implies requested(r, st.resolved, #[trigger] st.queue[j]) by {
        assert(r[j].0 == st.queue[j]);
    }
    assert forall|j: int| 0 <= j < st.queue.len() implies reachable(r, st.resolved, #[trigger] st.queue[j]) by {
        assert(r[j].0 == st.queue[j]);
        assert(named(r, st.queue[j]));
        assert(reached(r, st.resolved, st.queue[j], 0));
    }
    lemma_inv5_run(st, reg, r);
    if resolution(reg, root, dev, include_dev, min_rank, prefer_stable) is Ok {
        let d = resolution(reg, root, dev, include_dev, min_rank, prefer_stable)->Ok_0;
        assert forall|x: Seq<char>| #[trigger] has_dep(d, x) <==> (!is_platform(x) && reachable(r, d, x)) by {
            if has_dep(d, x) {
                let i = choose|i: int| 0 <= i < d.len() && d[i].name == x;
                assert(!is_platform(d[i].name));
                assert(reachable(r, d, d[i].name));
            }
            if !is_platform(x) && reachable(r, d, x) {
                let k = choose|k: nat| #[trigger] reached(r, d, x, k);
                lemma_reached_resolved(d, reg, r, x, k);
            }
        }
    }
}

// ---------------------------------------------------------------------------
// Platform requirements
// ---------------------------------------------------------------------------

/// The first characters of `n` are those of `w`.
pub open spec fn begins_with_word(n: Seq<char>, w: Seq<char>) -> bool {
    w.len() <= n.len() && forall|i: int| 0 <= i < w.len() ==> n[i] == w[i]
}

/// A name written as `vendor/package` that does not start with `ext-`,
/// `lib-` or `composer-` is an installable package, not a platform
/// requirement (`composer/semver` is a package).
pub proof fn law_package_names_are_not_platform(n: Seq<char>)
    requires
        n.contains('/'),
        !begins_with_word(n, seq!['e', 'x', 't', '-']),
        !begins_with_word(n, seq!['l', 'i', 'b', '-']),
        !begins_with_word(n, seq!['c', 'o', 'm', 'p', 'o', 's', 'e', 'r', '-']),
    ensures
        !is_platform(n),
{
    reveal_strlit("php");
    reveal_strlit("ext-");
    reveal_strlit("lib-");
    reveal_strlit("composer-");
    assert(n != "php"@) by {
        if n == "php"@ {
            let k = choose|k: int| 0 <= k < n.len() && n[k] == '/';
            assert(n[k] != '/');
        }
    }
    assert(!has_prefix(n, "ext-"@)) by {
        if has_prefix(n, "ext-"@) {
            assert forall|i: int| 0 <= i < 4 implies n[i] == seq!['e', 'x', 't', '-'][i] by {
                assert(n.take(4)[i] == n[i]);
            }
        }
    }
    assert(!has_prefix(n, "lib-"@)) by {
        if has_prefix(n, "lib-"@) {
            assert forall|i: int| 0 <= i < 4 implies n[i] == seq!['l', 'i', 'b', '-'][i] by {
                assert(n.take(4)[i] == n[i]);
            }
        }
    }
    assert(!has_prefix(n, "composer-"@)) by {
        if has_prefix(n, "composer-"@) {
            assert forall|i: int| 0 <= i < 9 implies n[i] == seq!['c', 'o', 'm', 'p', 'o', 's', 'e', 'r', '-'][i] by {
                assert(n.take(9)[i] == n[i]);
            }
        }
    }
}

/// `php`, the `ext-*`, `lib-*` and `composer-*` names, and names without a
/// `/` are platform requirements.
pub proof fn law_platform_names(n: Seq<char>)
    requires
        n == seq!['p', 'h', 'p'] || begins_with_word(n, seq!['e', 'x', 't', '-']) || begins_with_word(
            n,
            seq!['l', 'i', 'b', '-'],
        ) || begins_with_word(n, seq!['c', 'o', 'm', 'p', 'o', 's', 'e', 'r', '-']) || !n.contains('/'),
    ensures
        is_platform(n),
{
    reveal_strlit("php");
    reveal_strlit("ext-");
    reveal_strlit("lib-");
    reveal_strlit("composer-");
    if begins_with_word(n, seq!['e', 'x', 't', '-']) {
        assert(n.take(4) =~= "ext-"@);
    } else if begins_with_word(n, seq!['l', 'i', 'b', '-']) {
        assert(n.take(4) =~= "lib-"@);
    } else if begins_with_word(n, seq!['c', 'o', 'm', 'p', 'o', 's', 'e', 'r', '-']) {
        assert(n.take(9) =~= "composer-"@);
    } else if n == seq!['p', 'h', 'p'] {
        assert(n =~= "php"@);
    }
}

/// A root requirement on an installable package (a `vendor/package` name
/// not starting with `ext-`, `lib-` or `composer-`) is in every successful
/// resolution; so is a development one when development requirements are
/// included.
pub proof fn law_required_packages_are_resolved(
    reg: Seq<(Seq<char>, Seq<PackageVersionView>)>,
    root: Seq<(Seq<char>, Seq<char>)>,
    dev: Seq<(Seq<char>, Seq<char>)>,
    include_dev: bool,
    min_rank: nat,
    prefer_stable: bool,
    n: Seq<char>,
)
    requires
        (exists|k: int| 0 <= k < root.len() && #[trigger] root[k].0 == n) || (include_dev && exists|k: int|
            0 <= k < dev.len() && #[trigger] dev[k].0 == n),
        n.contains('/'),
        !begins_with_word(n, seq!['e', 'x', 't', '-']),
        !begins_with_word(n, seq!['l', 'i', 'b', '-']),
        !begins_with_word(n, seq!['c', 'o', 'm', 'p', 'o', 's', 'e', 'r', '-']),
    ensures
        resolution(reg, root, dev, include_dev, min_rank, prefer_stable) matches Ok(d) ==> has_dep(d, n),
{
    law_package_names_are_not_platform(n);
    law_resolved_names_are_the_reachable_ones(reg, root, dev, include_dev, min_rank, prefer_stable);
    lemma_start_cons(root, dev, include_dev);
    let r = start_cons(root, dev, include_dev);
    if exists|k: int| 0 <= k < root.len() && #[trigger] root[k].0 == n {
        let k = choose|k: int| 0 <= k < root.len() && #[trigger] root[k].0 == n;
        assert(r[k].0 == n);
    } else {
        let k = choose|k: int| 0 <= k < dev.len() && #[trigger] dev[k].0 == n;
        assert(r[root.len() + k].0 == n);
    }
    assert(named(r, n));
    if resolution(reg, root, dev, include_dev, min_rank, prefer_stable) is Ok {
        let d = resolution(reg, root, dev, include_dev, min_rank, prefer_stable)->Ok_0;
        assert(reached(r, d, n, 0));
        assert(reachable(r, d, n));
    }
}

} // verus!
