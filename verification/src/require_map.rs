//! Insertion-ordered string maps (`indexmap::IndexMap`), as used for
//! `require` sections and the like.
use vstd::prelude::*;
use indexmap::IndexMap;

verus! {

#[verifier::external_type_specification]
#[verifier::external_body]
#[verifier::reject_recursive_types(K)]
#[verifier::reject_recursive_types(V)]
#[verifier::reject_recursive_types(S)]
pub struct ExIndexMap<K, V, S>(IndexMap<K, V, S>);

/// Package name to constraint, in insertion order.
pub type RequireMap = IndexMap<String, String>;

/// The entries of a string-to-string map, in the map's order.
pub uninterp spec fn require_entries(m: IndexMap<String, String>) -> Seq<(Seq<char>, Seq<char>)>;

/// The entries of a string-to-number map, in the map's order.
pub uninterp spec fn flag_entries(m: IndexMap<String, u32>) -> Seq<(Seq<char>, u32)>;

/// Index of the entry whose key is `k`, or `-1`.
pub open spec fn key_index<V>(e: Seq<(Seq<char>, V)>, k: Seq<char>) -> int
    decreases e.len(),
{
    if e.len() == 0 {
        -1
    } else if key_index(e.drop_last(), k) >= 0 {
        key_index(e.drop_last(), k)
    } else if e.last().0 == k {
        e.len() - 1
    } else {
        -1
    }
}

/// `IndexMap::insert`: an existing key keeps its place and takes the new
/// value; a new key goes last.
pub open spec fn insert_entry<V>(e: Seq<(Seq<char>, V)>, k: Seq<char>, v: V) -> Seq<(Seq<char>, V)> {
    let i = key_index(e, k);
    if 0 <= i < e.len() {
        e.update(i, (k, v))
    } else {
        e.push((k, v))
    }
}

/// The value stored under `k`.
pub open spec fn entry_value<V>(e: Seq<(Seq<char>, V)>, k: Seq<char>) -> Option<V> {
    let i = key_index(e, k);
    if 0 <= i < e.len() { Some(e[i].1) } else { None }
}

/// No two entries share a key.
pub open spec fn keys_distinct<V>(e: Seq<(Seq<char>, V)>) -> bool {
    forall|i: int, j: int| 0 <= i < j < e.len() ==> e[i].0 != e[j].0
}

pub open spec fn pair_view(p: (String, String)) -> (Seq<char>, Seq<char>) {
    (p.0@, p.1@)
}

pub open spec fn pairs_view(v: Seq<(String, String)>) -> Seq<(Seq<char>, Seq<char>)> {
    v.map_values(|p: (String, String)| pair_view(p))
}

pub open spec fn flag_pairs_view(v: Seq<(String, u32)>) -> Seq<(Seq<char>, u32)> {
    v.map_values(|p: (String, u32)| (p.0@, p.1))
}

pub proof fn lemma_key_index<V>(e: Seq<(Seq<char>, V)>, k: Seq<char>)
    ensures
        -1 <= key_index(e, k) < e.len(),
        key_index(e, k) >= 0 ==> e[key_index(e, k)].0 == k,
        forall|j: int| 0 <= j < e.len() && (key_index(e, k) == -1 || j < key_index(e, k)) ==> e[j].0 != k,
    decreases e.len(),
{
    if e.len() > 0 {
        lemma_key_index(e.drop_last(), k);
        assert forall|j: int| 0 <= j < e.len() - 1 implies e.drop_last()[j] == e[j] by {}
    }
}

/// What `insert_entry` stores reads back, and other keys read as before.
pub proof fn lemma_insert_entry_value<V>(e: Seq<(Seq<char>, V)>, k: Seq<char>, v: V, k2: Seq<char>)
    ensures
        entry_value(insert_entry(e, k, v), k) == Some(v),
        k2 != k ==> entry_value(insert_entry(e, k, v), k2) == entry_value(e, k2),
{
    lemma_key_index(e, k);
    lemma_key_index(e, k2);
    let e2 = insert_entry(e, k, v);
    lemma_key_index(e2, k);
    lemma_key_index(e2, k2);
    let i = key_index(e, k);
    let t = if i >= 0 { i } else { e.len() as int };
    assert(e2[t].0 == k);
    assert forall|j: int| 0 <= j < e.len() && j != t implies #[trigger] e2[j] == e[j] by {}
    let i2 = key_index(e2, k);
    if i2 == -1 {
        assert(e2[t].0 != k);
    }
    if 0 <= i2 < t {
        assert(e2[i2] == e[i2]);
    }
    if i2 > t {
        assert(e2[t].0 != k);
    }
    assert(i2 == t);
    if k2 != k {
        let a = key_index(e, k2);
        let b = key_index(e2, k2);
        if a >= 0 {
            assert(a != t);
            assert(e2[a] == e[a]);
            if b == -1 || b > a {
                assert(e2[a].0 != k2);
            }
            if 0 <= b < a {
                assert(b != t);
                assert(e2[b] == e[b]);
            }
            assert(b == a);
        } else if b >= 0 {
            if b < e.len() {
                assert(b != t);
                assert(e2[b] == e[b]);
            }
            assert(b == -1);
        }
    }
}

/// An empty map.
///
/// Trusted: calls `IndexMap::new`, which holds no entries.
#[verifier::external_body]
pub(crate) fn rm_new() -> (m: IndexMap<String, String>)
    ensures
        require_entries(m) == Seq::<(Seq<char>, Seq<char>)>::empty(),
{
    IndexMap::new()
}

/// Inserts `k -> v`.
///
/// Trusted: calls `IndexMap::insert`, which (per its documentation) updates an
/// existing key's value in place or appends a new entry last.
#[verifier::external_body]
pub(crate) fn rm_insert(m: &mut IndexMap<String, String>, k: String, v: String)
    ensures
        require_entries(*final(m)) == insert_entry(require_entries(*old(m)), k@, v@),
{
    m.insert(k, v);
}

/// The entries, in order.
///
/// Trusted: clones the pairs that `IndexMap::iter` yields, in the map's order;
/// a map's keys are distinct.
#[verifier::external_body]
pub(crate) fn rm_entries(m: &IndexMap<String, String>) -> (r: Vec<(String, String)>)
    ensures
        pairs_view(r@) == require_entries(*m),
        keys_distinct(pairs_view(r@)),
{
    m.iter().map(|(k, v)| (k.clone(), v.clone())).collect()
}

/// A copy with the same entries.
///
/// Trusted: calls `IndexMap::clone`, which copies the entries in order.
#[verifier::external_body]
pub(crate) fn rm_clone(m: &IndexMap<String, String>) -> (r: IndexMap<String, String>)
    ensures
        require_entries(r) == require_entries(*m),
{
    m.clone()
}

/// An empty string-to-number map.
///
/// Trusted: calls `IndexMap::new`, which holds no entries.
#[verifier::external_body]
pub(crate) fn fm_new() -> (m: IndexMap<String, u32>)
    ensures
        flag_entries(m) == Seq::<(Seq<char>, u32)>::empty(),
{
    IndexMap::new()
}

/// Inserts `k -> v`.
///
/// Trusted: calls `IndexMap::insert` (update in place, or append last).
#[verifier::external_body]
pub(crate) fn fm_insert(m: &mut IndexMap<String, u32>, k: String, v: u32)
    ensures
        flag_entries(*final(m)) == insert_entry(flag_entries(*old(m)), k@, v),
{
    m.insert(k, v);
}

/// The entries, in order.
///
/// Trusted: clones the pairs that `IndexMap::iter` yields, in the map's order;
/// a map's keys are distinct.
#[verifier::external_body]
pub(crate) fn fm_entries(m: &IndexMap<String, u32>) -> (r: Vec<(String, u32)>)
    ensures
        flag_pairs_view(r@) == flag_entries(*m),
        keys_distinct(flag_pairs_view(r@)),
{
    m.iter().map(|(k, v)| (k.clone(), *v)).collect()
}

/// Builds a map by inserting `pairs` in order.
pub open spec fn entries_from_pairs<V>(pairs: Seq<(Seq<char>, V)>) -> Seq<(Seq<char>, V)>
    decreases pairs.len(),
{
    if pairs.len() == 0 {
        Seq::empty()
    } else {
        insert_entry(entries_from_pairs(pairs.drop_last()), pairs.last().0, pairs.last().1)
    }
}

/// The map made by inserting `pairs` in order.
pub fn require_map_from(pairs: &Vec<(String, String)>) -> (m: IndexMap<String, String>)
    ensures
        require_entries(m) == entries_from_pairs(pairs_view(pairs@)),
{
    let mut m = rm_new();
    let mut i: usize = 0;
    let ghost pv = pairs_view(pairs@);
    assert(pv.take(0) =~= Seq::<(Seq<char>, Seq<char>)>::empty());
    while i < pairs.len()
        invariant
            i <= pairs.len(),
            pv == pairs_view(pairs@),
            require_entries(m) == entries_from_pairs(pv.take(i as int)),
        decreases pairs.len() - i,
    {
        let k = pairs[i].0.clone();
        let v = pairs[i].1.clone();
        rm_insert(&mut m, k, v);
        i += 1;
        assert(pv.take(i as int).drop_last() =~= pv.take(i - 1));
    }
    assert(pv.take(pairs.len() as int) =~= pv);
    m
}

} // verus!
