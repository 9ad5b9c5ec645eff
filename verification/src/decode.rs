//! Reading typed fields out of JSON members, with the defaults and type
//! checks that derived `serde` deserialization applies.
use vstd::prelude::*;
use indexmap::IndexMap;
use crate::json::{elements_view, lemma_elements_view, lemma_object_view, Json, JsonObject, JsonView};
use crate::registry::opt_json_view;
use crate::require_map::{
    entries_from_pairs, fm_insert, fm_new, flag_entries, require_entries, require_map_from, pairs_view, RequireMap,
};
use crate::text::str_chars;
use crate::version::{opt_string_view, parse_number, parse_number_exec};

verus! {

/// `Option<String>`: absent or `null` is `None`; a string is kept; anything
/// else is a type error (outer `None`).
pub open spec fn dec_opt_str(o: Option<JsonView>) -> Option<Option<Seq<char>>> {
    match o {
        None => Some(None),
        Some(JsonView::Null) => Some(None),
        Some(JsonView::Str(s)) => Some(Some(s)),
        _ => None,
    }
}

/// A `String` field with a default for when it is absent.
pub open spec fn dec_str_or(o: Option<JsonView>, default: Seq<char>) -> Option<Seq<char>> {
    match o {
        None => Some(default),
        Some(JsonView::Str(s)) => Some(s),
        _ => None,
    }
}

/// A required `String` field.
pub open spec fn dec_req_str(o: Option<JsonView>) -> Option<Seq<char>> {
    match o {
        Some(JsonView::Str(s)) => Some(s),
        _ => None,
    }
}

/// A `bool` field that defaults to `false`.
pub open spec fn dec_bool(o: Option<JsonView>) -> Option<bool> {
    match o {
        None => Some(false),
        Some(JsonView::Bool(b)) => Some(b),
        _ => None,
    }
}

/// A free-form JSON field that defaults to `null`.
pub open spec fn dec_json(o: Option<JsonView>) -> JsonView {
    match o {
        None => JsonView::Null,
        Some(v) => v,
    }
}

/// A free-form JSON array field that defaults to empty.
pub open spec fn dec_json_vec(o: Option<JsonView>) -> Option<Seq<JsonView>> {
    match o {
        None => Some(Seq::empty()),
        Some(JsonView::Array(a)) => Some(a),
        _ => None,
    }
}

/// A map from names to free-form JSON that defaults to empty.
pub open spec fn dec_json_map(o: Option<JsonView>) -> Option<Seq<(Seq<char>, JsonView)>> {
    match o {
        None => Some(Seq::empty()),
        Some(JsonView::Object(m)) => Some(m),
        _ => None,
    }
}

pub open spec fn all_str(a: Seq<JsonView>) -> bool {
    forall|i: int| 0 <= i < a.len() ==> #[trigger] a[i] is Str
}

pub open spec fn strs_of(a: Seq<JsonView>) -> Seq<Seq<char>> {
    Seq::new(a.len(), |i: int| a[i]->Str_0)
}

/// A `Vec<String>` field that defaults to empty.
pub open spec fn dec_str_vec(o: Option<JsonView>) -> Option<Seq<Seq<char>>> {
    match o {
        None => Some(Seq::empty()),
        Some(JsonView::Array(a)) => if all_str(a) { Some(strs_of(a)) } else { None },
        _ => None,
    }
}

/// An `Option<Vec<String>>` field.
pub open spec fn dec_opt_str_vec(o: Option<JsonView>) -> Option<Option<Seq<Seq<char>>>> {
    match o {
        None => Some(None),
        Some(JsonView::Null) => Some(None),
        Some(JsonView::Array(a)) => if all_str(a) { Some(Some(strs_of(a))) } else { None },
        _ => None,
    }
}

pub open spec fn all_str_values(m: Seq<(Seq<char>, JsonView)>) -> bool {
    forall|i: int| 0 <= i < m.len() ==> #[trigger] m[i].1 is Str
}

pub open spec fn str_pairs(m: Seq<(Seq<char>, JsonView)>) -> Seq<(Seq<char>, Seq<char>)> {
    Seq::new(m.len(), |i: int| (m[i].0, m[i].1->Str_0))
}

/// A string-to-string map field that defaults to empty; members are
/// inserted in document order.
pub open spec fn dec_str_map(o: Option<JsonView>) -> Option<Seq<(Seq<char>, Seq<char>)>> {
    match o {
        None => Some(Seq::empty()),
        Some(JsonView::Object(m)) => if all_str_values(m) { Some(entries_from_pairs(str_pairs(m))) } else { None },
        _ => None,
    }
}

/// A `u32` value: a JSON number written as decimal digits within range.
pub open spec fn dec_u32(j: JsonView) -> Option<u32> {
    match j {
        JsonView::Number(t) => match parse_number(t, 0) {
            Some((n, e)) => if e == t.len() { Some(n) } else { None },
            None => None,
        },
        _ => None,
    }
}

pub open spec fn all_u32_values(m: Seq<(Seq<char>, JsonView)>) -> bool {
    forall|i: int| 0 <= i < m.len() ==> #[trigger] dec_u32(m[i].1) is Some
}

pub open spec fn u32_pairs(m: Seq<(Seq<char>, JsonView)>) -> Seq<(Seq<char>, u32)> {
    Seq::new(m.len(), |i: int| (m[i].0, dec_u32(m[i].1)->Some_0))
}

/// A string-to-`u32` map field that defaults to empty.
pub open spec fn dec_u32_map(o: Option<JsonView>) -> Option<Seq<(Seq<char>, u32)>> {
    match o {
        None => Some(Seq::empty()),
        Some(JsonView::Object(m)) => if all_u32_values(m) { Some(entries_from_pairs(u32_pairs(m))) } else { None },
        _ => None,
    }
}

pub open spec fn strings_view(v: Seq<String>) -> Seq<Seq<char>> {
    Seq::new(v.len(), |i: int| v[i]@)
}

pub fn decode_opt_str(o: Option<&Json>) -> (r: Option<Option<String>>)
    ensures
        match r {
            Some(v) => dec_opt_str(opt_json_view(o)) == Some(opt_string_view(v)),
            None => dec_opt_str(opt_json_view(o)) is None,
        },
{
    match o {
        None => Some(None),
        Some(Json::Null) => Some(None),
        Some(Json::Str(s)) => Some(Some(s.clone())),
        _ => None,
    }
}

pub fn decode_str_or(o: Option<&Json>, default: &str) -> (r: Option<String>)
    ensures
        match r {
            Some(v) => dec_str_or(opt_json_view(o), default@) == Some(v@),
            None => dec_str_or(opt_json_view(o), default@) is None,
        },
{
    match o {
        None => Some(default.to_string()),
        Some(Json::Str(s)) => Some(s.clone()),
        _ => None,
    }
}

pub fn decode_req_str(o: Option<&Json>) -> (r: Option<String>)
    ensures
        match r {
            Some(v) => dec_req_str(opt_json_view(o)) == Some(v@),
            None => dec_req_str(opt_json_view(o)) is None,
        },
{
    match o {
        Some(Json::Str(s)) => Some(s.clone()),
        _ => None,
    }
}

pub fn decode_bool(o: Option<&Json>) -> (r: Option<bool>)
    ensures
        r == dec_bool(opt_json_view(o)),
{
    match o {
        None => Some(false),
        Some(Json::Bool(b)) => Some(*b),
        _ => None,
    }
}

pub fn decode_json(o: Option<&Json>) -> (r: Json)
    ensures
        r@ == dec_json(opt_json_view(o)),
{
    match o {
        None => Json::Null,
        Some(v) => v.copy(),
    }
}

fn copy_elements(a: &Vec<Json>) -> (r: Vec<Json>)
    ensures
        elements_view(r) == elements_view(*a),
{
    let mut out: Vec<Json> = Vec::new();
    let mut i: usize = 0;
    while i < a.len()
        invariant
            i <= a.len(),
            out@.len() == i,
            forall|k: int| 0 <= k < i ==> #[trigger] out@[k]@ == a@[k]@,
        decreases a.len() - i,
    {
        out.push(a[i].copy());
        i += 1;
    }
    proof {
        lemma_elements_view(out);
        lemma_elements_view(*a);
    }
    assert(elements_view(out) =~= elements_view(*a));
    out
}

pub fn decode_json_vec(o: Option<&Json>) -> (r: Option<Vec<Json>>)
    ensures
        match r {
            Some(v) => dec_json_vec(opt_json_view(o)) == Some(elements_view(v)),
            None => dec_json_vec(opt_json_view(o)) is None,
        },
{
    match o {
        None => {
            let v: Vec<Json> = Vec::new();
            assert(elements_view(v) =~= Seq::<JsonView>::empty());
            Some(v)
        },
        Some(Json::Array(a)) => Some(copy_elements(a)),
        _ => None,
    }
}

pub fn decode_json_map(o: Option<&Json>) -> (r: Option<JsonObject>)
    ensures
        match r {
            Some(m) => dec_json_map(opt_json_view(o)) == Some(m@),
            None => dec_json_map(opt_json_view(o)) is None,
        },
{
    match o {
        None => {
            let m = JsonObject::new();
            assert(m@ =~= Seq::<(Seq<char>, JsonView)>::empty());
            Some(m)
        },
        Some(j) => match j {
            Json::Object(_) => match j.copy() {
                Json::Object(r) => Some(r),
                _ => None,
            },
            _ => None,
        },
    }
}

fn strings_of(a: &Vec<Json>) -> (r: Option<Vec<String>>)
    ensures
        match r {
            Some(v) => all_str(elements_view(*a)) && strings_view(v@) == strs_of(elements_view(*a)),
            None => !all_str(elements_view(*a)),
        },
{
    let ghost av = elements_view(*a);
    proof {
        lemma_elements_view(*a);
    }
    let mut out: Vec<String> = Vec::new();
    let mut i: usize = 0;
    while i < a.len()
        invariant
            i <= a.len(),
            av == elements_view(*a),
            av.len() == a@.len(),
            forall|k: int| 0 <= k < a@.len() ==> #[trigger] av[k] == a@[k]@,
            out@.len() == i,
            forall|k: int| 0 <= k < i ==> #[trigger] av[k] is Str && out@[k]@ == av[k]->Str_0,
        decreases a.len() - i,
    {
        match &a[i] {
            Json::Str(s) => {
                out.push(s.clone());
            },
            _ => {
                assert(!(av[i as int] is Str));
                return None;
            },
        }
        i += 1;
    }
    assert(strings_view(out@) =~= strs_of(av));
    Some(out)
}

pub fn decode_str_vec(o: Option<&Json>) -> (r: Option<Vec<String>>)
    ensures
        match r {
            Some(v) => dec_str_vec(opt_json_view(o)) == Some(strings_view(v@)),
            None => dec_str_vec(opt_json_view(o)) is None,
        },
{
    match o {
        None => {
            let v: Vec<String> = Vec::new();
            assert(strings_view(v@) =~= Seq::<Seq<char>>::empty());
            assert(dec_str_vec(opt_json_view(o)) == Some(Seq::<Seq<char>>::empty()));
            Some(v)
        },
        Some(Json::Array(a)) => strings_of(a),
        _ => None,
    }
}

pub fn decode_opt_str_vec(o: Option<&Json>) -> (r: Option<Option<Vec<String>>>)
    ensures
        match r {
            Some(Some(v)) => dec_opt_str_vec(opt_json_view(o)) == Some(Some(strings_view(v@))),
            Some(None) => dec_opt_str_vec(opt_json_view(o)) == Some(None::<Seq<Seq<char>>>),
            None => dec_opt_str_vec(opt_json_view(o)) is None,
        },
{
    match o {
        None => Some(None),
        Some(Json::Null) => Some(None),
        Some(Json::Array(a)) => match strings_of(a) {
            Some(v) => Some(Some(v)),
            None => None,
        },
        _ => None,
    }
}

pub fn decode_str_map(o: Option<&Json>) -> (r: Option<RequireMap>)
    ensures
        match r {
            Some(m) => dec_str_map(opt_json_view(o)) == Some(require_entries(m)),
            None => dec_str_map(opt_json_view(o)) is None,
        },
{
    match o {
        None => {
            let v: Vec<(String, String)> = Vec::new();
            let m = require_map_from(&v);
            assert(pairs_view(v@) =~= Seq::<(Seq<char>, Seq<char>)>::empty());
            Some(m)
        },
        Some(Json::Object(obj)) => {
            let ghost mv = obj@;
            proof {
                lemma_object_view(*obj);
            }
            assert(opt_json_view(o) == Some(JsonView::Object(mv)));
            let mut pairs: Vec<(String, String)> = Vec::new();
            let mut i: usize = 0;
            while i < obj.entries.len()
                invariant
                    i <= obj.entries.len(),
                    mv == obj@,
                    opt_json_view(o) == Some(JsonView::Object(mv)),
                    mv.len() == obj.entries@.len(),
                    forall|k: int| 0 <= k < obj.entries@.len() ==> #[trigger] mv[k] == (obj.entries@[k].0@, obj.entries@[k].1@),
                    pairs@.len() == i,
                    forall|k: int| 0 <= k < i ==> #[trigger] mv[k].1 is Str && pairs@[k].0@ == mv[k].0 && pairs@[k].1@ == mv[k].1->Str_0,
                decreases obj.entries.len() - i,
            {
                match &obj.entries[i].1 {
                    Json::Str(s) => {
                        pairs.push((obj.entries[i].0.clone(), s.clone()));
                    },
                    _ => {
                        assert(!(mv[i as int].1 is Str));
                        assert(!all_str_values(mv));
                        return None;
                    },
                }
                i += 1;
            }
            assert(pairs_view(pairs@) =~= str_pairs(mv));
            Some(require_map_from(&pairs))
        },
        _ => None,
    }
}

/// Reads a `u32` from a JSON number.
pub fn decode_u32(j: &Json) -> (r: Option<u32>)
    ensures
        r == dec_u32(j@),
{
    match j {
        Json::Number(t) => {
            let v = str_chars(t.as_str());
            match parse_number_exec(&v, 0) {
                Some((n, e)) => if e == v.len() { Some(n) } else { None },
                None => None,
            }
        },
        _ => None,
    }
}

pub fn decode_u32_map(o: Option<&Json>) -> (r: Option<IndexMap<String, u32>>)
    ensures
        match r {
            Some(m) => dec_u32_map(opt_json_view(o)) == Some(flag_entries(m)),
            None => dec_u32_map(opt_json_view(o)) is None,
        },
{
    match o {
        None => Some(fm_new()),
        Some(Json::Object(obj)) => {
            let ghost mv = obj@;
            proof {
                lemma_object_view(*obj);
            }
            assert(opt_json_view(o) == Some(JsonView::Object(mv)));
            let mut m = fm_new();
            let mut i: usize = 0;
            assert(u32_pairs(mv).take(0) =~= Seq::<(Seq<char>, u32)>::empty());
            while i < obj.entries.len()
                invariant
                    i <= obj.entries.len(),
                    mv == obj@,
                    opt_json_view(o) == Some(JsonView::Object(mv)),
                    mv.len() == obj.entries@.len(),
                    forall|k: int| 0 <= k < obj.entries@.len() ==> #[trigger] mv[k] == (obj.entries@[k].0@, obj.entries@[k].1@),
                    forall|k: int| 0 <= k < i ==> #[trigger] dec_u32(mv[k].1) is Some,
                    flag_entries(m) == entries_from_pairs(u32_pairs(mv).take(i as int)),
                decreases obj.entries.len() - i,
            {
                match decode_u32(&obj.entries[i].1) {
                    Some(n) => {
                        fm_insert(&mut m, obj.entries[i].0.clone(), n);
                    },
                    None => {
                        assert(dec_u32(mv[i as int].1) is None);
                        assert(!all_u32_values(mv));
                        return None;
                    },
                }
                i += 1;
                assert(u32_pairs(mv).take(i as int).drop_last() =~= u32_pairs(mv).take(i - 1));
            }
            assert(u32_pairs(mv).take(obj.entries.len() as int) =~= u32_pairs(mv));
            Some(m)
        },
        _ => None,
    }
}

} // verus!
