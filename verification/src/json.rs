//! A JSON value model for manifests and registry responses, with the
//! text conversions done by `serde_json`.
use vstd::prelude::*;
use crate::text::str_chars;

verus! {

/// A JSON document. Objects keep their keys in document order.
#[derive(Debug, PartialEq)]
pub enum Json {
    Null,
    Bool(bool),
    /// A number, in the text form `serde_json` gives it.
    Number(String),
    Str(String),
    Array(Vec<Json>),
    Object(JsonObject),
}

/// A JSON object: its members in document order.
#[derive(Debug, PartialEq)]
pub struct JsonObject {
    pub entries: Vec<(String, Json)>,
}

/// Mathematical content of a JSON value.
pub enum JsonView {
    Null,
    Bool(bool),
    Number(Seq<char>),
    Str(Seq<char>),
    Array(Seq<JsonView>),
    Object(Seq<(Seq<char>, JsonView)>),
}

pub open spec fn json_view(j: Json) -> JsonView
    decreases j,
{
    match j {
        Json::Null => JsonView::Null,
        Json::Bool(b) => JsonView::Bool(b),
        Json::Number(n) => JsonView::Number(n@),
        Json::Str(s) => JsonView::Str(s@),
        Json::Array(v) => JsonView::Array(
            Seq::new(
                v@.len(),
                |i: int| if 0 <= i < v@.len() { json_view(v@[i]) } else { JsonView::Null },
            ),
        ),
        Json::Object(o) => JsonView::Object(
            Seq::new(
                o.entries@.len(),
                |i: int|
                    if 0 <= i < o.entries@.len() {
                        (o.entries@[i].0@, json_view(o.entries@[i].1))
                    } else {
                        (Seq::empty(), JsonView::Null)
                    },
            ),
        ),
    }
}

impl View for Json {
    type V = JsonView;

    open spec fn view(&self) -> JsonView {
        json_view(*self)
    }
}

impl View for JsonObject {
    type V = Seq<(Seq<char>, JsonView)>;

    open spec fn view(&self) -> Seq<(Seq<char>, JsonView)> {
        match json_view(Json::Object(*self)) {
            JsonView::Object(m) => m,
            _ => Seq::empty(),
        }
    }
}

/// Index of the first member named `key`, or `-1`.
/// The views of the elements of an array.
pub open spec fn elements_view(v: Vec<Json>) -> Seq<JsonView> {
    match json_view(Json::Array(v)) {
        JsonView::Array(s) => s,
        _ => Seq::empty(),
    }
}

#[verifier::opaque]
pub open spec fn member_index(m: Seq<(Seq<char>, JsonView)>, key: Seq<char>) -> int
    decreases m.len(),
{
    if m.len() == 0 {
        -1
    } else if m.last().0 == key && member_index(m.drop_last(), key) == -1 {
        m.len() - 1
    } else {
        member_index(m.drop_last(), key)
    }
}

/// The value of the first member named `key`.
#[verifier::opaque]
pub open spec fn member(m: Seq<(Seq<char>, JsonView)>, key: Seq<char>) -> Option<JsonView> {
    let i = member_index(m, key);
    if 0 <= i < m.len() { Some(m[i].1) } else { None }
}

proof fn lemma_member_index_range(m: Seq<(Seq<char>, JsonView)>, key: Seq<char>)
    ensures
        -1 <= member_index(m, key) < m.len(),
        member_index(m, key) >= 0 ==> m[member_index(m, key)].0 == key,
    decreases m.len(),
{
    reveal(member_index);
    if m.len() > 0 {
        lemma_member_index_range(m.drop_last(), key);
    }
}

proof fn lemma_member_index_shift(a: Seq<(Seq<char>, JsonView)>, x: (Seq<char>, JsonView), b: Seq<(Seq<char>, JsonView)>, key: Seq<char>)
    requires
        x.0 != key,
    ensures
        member_index(a + seq![x] + b, key) == (if member_index(a + b, key) < a.len() {
            member_index(a + b, key)
        } else {
            member_index(a + b, key) + 1
        }),
    decreases b.len(),
{
    reveal(member_index);
    let m1 = a + seq![x] + b;
    let m2 = a + b;
    if b.len() == 0 {
        assert(m1.drop_last() =~= a);
        assert(m2 =~= a);
        lemma_member_index_range(a, key);
    } else {
        lemma_member_index_shift(a, x, b.drop_last(), key);
        assert(m1.drop_last() =~= a + seq![x] + b.drop_last());
        assert(m2.drop_last() =~= a + b.drop_last());
        assert(m1.last() == b.last() && m2.last() == b.last());
        lemma_member_index_range(a + b.drop_last(), key);
    }
}

/// A member with another key, wherever it stands, changes no lookup of
/// `key`.
pub proof fn lemma_member_other_key(a: Seq<(Seq<char>, JsonView)>, x: (Seq<char>, JsonView), b: Seq<(Seq<char>, JsonView)>, key: Seq<char>)
    requires
        x.0 != key,
    ensures
        member(a + seq![x] + b, key) == member(a + b, key),
{
    reveal(member);
    lemma_member_index_shift(a, x, b, key);
    lemma_member_index_range(a + b, key);
    lemma_member_index_range(a + seq![x] + b, key);
    let j = member_index(a + b, key);
    if 0 <= j < a.len() {
        assert((a + seq![x] + b)[j] == (a + b)[j]);
    } else if j >= a.len() {
        assert((a + seq![x] + b)[j + 1] == (a + b)[j]);
    }
}

/// No member has `key`: looking it up finds nothing.
pub proof fn lemma_member_absent(m: Seq<(Seq<char>, JsonView)>, key: Seq<char>)
    requires
        forall|i: int| 0 <= i < m.len() ==> #[trigger] m[i].0 != key,
    ensures
        member(m, key) == None::<JsonView>,
{
    reveal(member);
    lemma_member_index_range(m, key);
}

/// `j.get(key)`: the member of an object; nothing for other values.
pub open spec fn get_member(j: JsonView, key: Seq<char>) -> Option<JsonView> {
    match j {
        JsonView::Object(m) => member(m, key),
        _ => None,
    }
}

/// The view of an array, element by element.
pub proof fn lemma_elements_view(v: Vec<Json>)
    ensures
        elements_view(v).len() == v@.len(),
        forall|k: int| 0 <= k < v@.len() ==> #[trigger] elements_view(v)[k] == v@[k]@,
{
}

/// The view of an object, member by member.
pub proof fn lemma_object_view(o: JsonObject)
    ensures
        o@.len() == o.entries@.len(),
        forall|k: int| 0 <= k < o.entries@.len() ==> #[trigger] o@[k] == (o.entries@[k].0@, o.entries@[k].1@),
{
}

/// Setting a member: replaced in place when present, appended otherwise.
pub open spec fn member_set(m: Seq<(Seq<char>, JsonView)>, key: Seq<char>, v: JsonView) -> Seq<(Seq<char>, JsonView)> {
    let i = member_index(m, key);
    if 0 <= i < m.len() { m.update(i, (key, v)) } else { m.push((key, v)) }
}

/// Removing the first member named `key`.
pub open spec fn member_removed(m: Seq<(Seq<char>, JsonView)>, key: Seq<char>) -> Seq<(Seq<char>, JsonView)> {
    let i = member_index(m, key);
    if 0 <= i < m.len() { m.remove(i) } else { m }
}

pub proof fn lemma_member_index(m: Seq<(Seq<char>, JsonView)>, key: Seq<char>)
    ensures
        -1 <= member_index(m, key) < m.len(),
        member_index(m, key) >= 0 ==> m[member_index(m, key)].0 == key,
        forall|k: int| 0 <= k < m.len() && (member_index(m, key) == -1 || k < member_index(m, key)) ==> m[k].0 != key,
    decreases m.len(),
{
    reveal_with_fuel(member_index, 2);
    if m.len() > 0 {
        lemma_member_index(m.drop_last(), key);
        assert forall|k: int| 0 <= k < m.len() - 1 implies m.drop_last()[k] == m[k] by {}
    }
}

/// Setting a member makes it read back.
pub proof fn lemma_member_set_same(m: Seq<(Seq<char>, JsonView)>, k: Seq<char>, v: JsonView)
    ensures
        member(member_set(m, k, v), k) == Some(v),
{
    reveal(member);
    lemma_member_index(m, k);
    let i = member_index(m, k);
    let m2 = member_set(m, k, v);
    lemma_member_index(m2, k);
    let i2 = member_index(m2, k);
    let t = if i >= 0 { i } else { m.len() as int };
    assert(m2[t].0 == k);
    if i2 == -1 {
        assert(m2[t].0 != k);
    }
    if 0 <= i2 < t {
        assert(m2[i2] == m[i2]);
        assert(m[i2].0 != k);
    }
    if i2 > t {
        assert(m2[t].0 != k);
    }
    assert(i2 == t);
}

/// Setting a member leaves the others as they read.
pub proof fn lemma_member_set_other(m: Seq<(Seq<char>, JsonView)>, k: Seq<char>, v: JsonView, k2: Seq<char>)
    requires
        k2 != k,
    ensures
        member(member_set(m, k, v), k2) == member(m, k2),
{
    reveal(member);
    lemma_member_index(m, k);
    lemma_member_index(m, k2);
    let m2 = member_set(m, k, v);
    lemma_member_index(m2, k2);
    let i = member_index(m, k);
    let a = member_index(m, k2);
    let b = member_index(m2, k2);
    assert forall|j: int| 0 <= j < m.len() && j != i implies #[trigger] m2[j] == m[j] by {}
    if i >= 0 {
        assert(m2[i].0 == k);
    } else {
        assert(m2[m.len() as int].0 == k);
    }
    if a >= 0 {
        assert(a != i);
        assert(m2[a] == m[a]);
        if b == -1 || b > a {
            assert(m2[a].0 != k2);
        }
        if 0 <= b < a {
            assert(b != i);
            assert(m2[b] == m[b]);
            assert(m[b].0 != k2);
        }
        assert(b == a);
    } else {
        if b >= 0 {
            if b < m.len() {
                assert(b != i);
                assert(m2[b] == m[b]);
                assert(m[b].0 != k2);
            }
        }
        assert(b == -1);
    }
}

/// No two members share a name.
pub open spec fn names_distinct(m: Seq<(Seq<char>, JsonView)>) -> bool {
    forall|i: int, j: int| 0 <= i < j < m.len() ==> m[i].0 != m[j].0
}

/// Removing a member leaves the others as they read.
pub proof fn lemma_member_removed_other(m: Seq<(Seq<char>, JsonView)>, k: Seq<char>, k2: Seq<char>)
    requires
        k2 != k,
    ensures
        member(member_removed(m, k), k2) == member(m, k2),
{
    reveal(member);
    lemma_member_index(m, k);
    lemma_member_index(m, k2);
    let m2 = member_removed(m, k);
    lemma_member_index(m2, k2);
    let i = member_index(m, k);
    let a = member_index(m, k2);
    let b = member_index(m2, k2);
    if i >= 0 {
        assert forall|j: int| 0 <= j < m2.len() implies #[trigger] m2[j] == if j < i { m[j] } else { m[j + 1] } by {}
        if a >= 0 {
            assert(a != i);
            let a2 = if a < i { a } else { a - 1 };
            assert(m2[a2] == m[a]);
            if b == -1 || b > a2 {
                assert(m2[a2].0 != k2);
            }
            if 0 <= b < a2 {
                let bb = if b < i { b } else { b + 1 };
                assert(m2[b] == m[bb]);
                assert(m[bb].0 != k2);
            }
            assert(b == a2);
            assert(m2[b] == m[a]);
        } else {
            if b >= 0 {
                let bb = if b < i { b } else { b + 1 };
                assert(m2[b] == m[bb]);
                assert(m[bb].0 != k2);
            }
            assert(b == -1);
        }
    }
}

/// In an object whose names are distinct, removing a member leaves none of
/// that name, and the names stay distinct.
pub proof fn lemma_member_removed_gone(m: Seq<(Seq<char>, JsonView)>, k: Seq<char>)
    requires
        names_distinct(m),
    ensures
        member(member_removed(m, k), k) is None,
        names_distinct(member_removed(m, k)),
{
    reveal(member);
    lemma_member_index(m, k);
    let m2 = member_removed(m, k);
    lemma_member_index(m2, k);
    let i = member_index(m, k);
    let b = member_index(m2, k);
    if i >= 0 {
        assert forall|j: int| 0 <= j < m2.len() implies #[trigger] m2[j] == if j < i { m[j] } else { m[j + 1] } by {}
        if b >= 0 {
            let bb = if b < i { b } else { b + 1 };
            assert(m2[b] == m[bb]);
            assert(m[i].0 == k);
            if bb < i {
                assert(m[bb].0 != k);
            } else {
                assert(m[i].0 != m[bb].0);
            }
        }
        assert forall|p: int, q: int| 0 <= p < q < m2.len() implies m2[p].0 != m2[q].0 by {
            let pp = if p < i { p } else { p + 1 };
            let qq = if q < i { q } else { q + 1 };
            assert(m2[p] == m[pp]);
            assert(m2[q] == m[qq]);
        }
    } else {
        if b >= 0 {
            assert(m2[b].0 != k);
        }
    }
}

impl JsonObject {
    /// The value of the first member named `key`.
    pub fn get(&self, key: &str) -> (r: Option<&Json>)
        ensures
            match r {
                Some(v) => member(self@, key@) == Some(v@),
                None => member(self@, key@) is None,
            },
    {
        let k = str_chars(key);
        let mut i: usize = 0;
        proof {
            lemma_member_index(self@, key@);
            reveal(member);
        }
        while i < self.entries.len()
            invariant
                i <= self.entries.len(),
                k@ == key@,
                forall|j: int| 0 <= j < i ==> self@[j].0 != key@,
                -1 <= member_index(self@, key@) < self@.len(),
                member_index(self@, key@) >= 0 ==> self@[member_index(self@, key@)].0 == key@,
                forall|j: int| 0 <= j < self@.len() && (member_index(self@, key@) == -1 || j < member_index(self@, key@)) ==> self@[j].0 != key@,
            decreases self.entries.len() - i,
        {
            let name = str_chars(self.entries[i].0.as_str());
            if crate::text::chars_eq(&name, &k) {
                proof {
                    reveal(member);
                }
                assert(self@[i as int].0 == key@);
                return Some(&self.entries[i].1);
            }
            i += 1;
        }
        proof {
            reveal(member);
        }
        None
    }

    /// Index of the first member named `key`.
    fn index_of(&self, key: &str) -> (r: Option<usize>)
        ensures
            match r {
                Some(i) => member_index(self@, key@) == i && i < self@.len(),
                None => member_index(self@, key@) == -1,
            },
    {
        let k = str_chars(key);
        let mut i: usize = 0;
        proof {
            lemma_member_index(self@, key@);
            lemma_object_view(*self);
        }
        while i < self.entries.len()
            invariant
                i <= self.entries.len(),
                k@ == key@,
                self@.len() == self.entries@.len(),
                forall|t: int| 0 <= t < self.entries@.len() ==> #[trigger] self@[t] == (self.entries@[t].0@, self.entries@[t].1@),
                forall|j: int| 0 <= j < i ==> self@[j].0 != key@,
                -1 <= member_index(self@, key@) < self@.len(),
                member_index(self@, key@) >= 0 ==> self@[member_index(self@, key@)].0 == key@,
                forall|j: int| 0 <= j < self@.len() && (member_index(self@, key@) == -1 || j < member_index(self@, key@)) ==> self@[j].0 != key@,
            decreases self.entries.len() - i,
        {
            let name = str_chars(self.entries[i].0.as_str());
            if crate::text::chars_eq(&name, &k) {
                assert(self@[i as int].0 == key@);
                return Some(i);
            }
            i += 1;
        }
        None
    }

    /// Sets the member `key`: the first member so named takes `value` in
    /// place; otherwise the member is appended.
    pub fn set(&mut self, key: String, value: Json)
        ensures
            final(self)@ == member_set(old(self)@, key@, value@),
    {
        let ghost before = self@;
        proof {
            lemma_object_view(*self);
        }
        match self.index_of(key.as_str()) {
            Some(i) => {
                let ghost kv = key@;
                let ghost vv = value@;
                self.entries.set(i, (key, value));
                proof {
                    lemma_object_view(*self);
                }
                assert(self@ =~= before.update(i as int, (kv, vv)));
            },
            None => {
                self.push(key, value);
            },
        }
    }

    /// Removes the first member named `key`, if any, keeping the order of
    /// the others.
    pub fn remove(&mut self, key: &str) -> (r: Option<Json>)
        ensures
            final(self)@ == member_removed(old(self)@, key@),
            match r {
                Some(v) => member(old(self)@, key@) == Some(v@),
                None => member(old(self)@, key@) is None,
            },
    {
        let ghost before = self@;
        proof {
            lemma_object_view(*self);
            reveal(member);
        }
        match self.index_of(key) {
            Some(i) => {
                let (_, v) = self.entries.remove(i);
                proof {
                    lemma_object_view(*self);
                }
                assert(self@ =~= before.remove(i as int));
                Some(v)
            },
            None => None,
        }
    }

    /// An object with no members.
    pub fn new() -> (r: JsonObject)
        ensures
            r@.len() == 0,
    {
        JsonObject { entries: Vec::new() }
    }

    /// Appends a member (the caller keeps names distinct).
    pub fn push(&mut self, key: String, value: Json)
        ensures
            final(self)@ == old(self)@.push((key@, value@)),
    {
        let ghost before = self@;
        self.entries.push((key, value));
        assert(self@ =~= before.push((key@, value@)));
    }
}

impl Json {
    /// The text of a string value.
    pub fn as_str(&self) -> (r: Option<&str>)
        ensures
            match r {
                Some(s) => self@ == JsonView::Str(s@),
                None => !(self@ is Str),
            },
    {
        match self {
            Json::Str(s) => Some(s.as_str()),
            _ => None,
        }
    }

    /// The members of an object value.
    pub fn as_object(&self) -> (r: Option<&JsonObject>)
        ensures
            match r {
                Some(o) => self@ == JsonView::Object(o@),
                None => !(self@ is Object),
            },
    {
        match self {
            Json::Object(o) => {
                assert(self@ == JsonView::Object(o@));
                Some(o)
            },
            _ => None,
        }
    }

    /// The elements of an array value.
    pub fn as_array(&self) -> (r: Option<&Vec<Json>>)
        ensures
            match r {
                Some(v) => self@ == JsonView::Array(elements_view(*v)),
                None => !(self@ is Array),
            },
    {
        match self {
            Json::Array(v) => Some(v),
            _ => None,
        }
    }

    /// The member `key` of an object value; nothing for other values.
    pub fn get(&self, key: &str) -> (r: Option<&Json>)
        ensures
            match r {
                Some(v) => get_member(self@, key@) == Some(v@),
                None => get_member(self@, key@) is None,
            },
    {
        match self {
            Json::Object(o) => {
                assert(self@ == JsonView::Object(o@));
                o.get(key)
            },
            _ => None,
        }
    }

    /// A deep copy.
    pub fn copy(&self) -> (r: Json)
        ensures
            r@ == self@,
        decreases self,
    {
        match self {
            Json::Null => Json::Null,
            Json::Bool(b) => Json::Bool(*b),
            Json::Number(n) => Json::Number(n.clone()),
            Json::Str(s) => Json::Str(s.clone()),
            Json::Array(v) => {
                let mut out: Vec<Json> = Vec::new();
                let mut i: usize = 0;
                while i < v.len()
                    invariant
                        i <= v.len(),
                        out@.len() == i,
                        *self == Json::Array(*v),
                        forall|k: int| 0 <= k < i ==> #[trigger] out@[k]@ == v@[k]@,
                    decreases v.len() - i,
                {
                    proof {
                        assert(decreases_to!(*self => (*self)->Array_0));
                        assert((*self)->Array_0 == *v);
                        assert(decreases_to!(*v => v@));
                        assert(decreases_to!(v@ => v@[i as int]));
                        assert(decreases_to!(*self => v@[i as int]));
                    }
                    let c = v[i].copy();
                    out.push(c);
                    i += 1;
                }
                let r = Json::Array(out);
                assert(json_view(r) =~= json_view(*self)) by {
                    let a = elements_view(out);
                    let b = elements_view(*v);
                    assert(a.len() == b.len());
                    assert forall|k: int| 0 <= k < a.len() implies a[k] == b[k] by {
                        assert(out@[k]@ == v@[k]@);
                    }
                    assert(a =~= b);
                }
                r
            },
            Json::Object(o) => {
                let mut out: Vec<(String, Json)> = Vec::new();
                let mut i: usize = 0;
                while i < o.entries.len()
                    invariant
                        i <= o.entries.len(),
                        out@.len() == i,
                        *self == Json::Object(*o),
                        forall|k: int| 0 <= k < i ==> #[trigger] out@[k].0@ == o.entries@[k].0@ && out@[k].1@ == o.entries@[k].1@,
                    decreases o.entries.len() - i,
                {
                    proof {
                        assert(decreases_to!(*self => (*self)->Object_0));
                        assert((*self)->Object_0 == *o);
                        assert(decreases_to!(*o => o.entries));
                        assert(decreases_to!(o.entries => o.entries@));
                        assert(decreases_to!(o.entries@ => o.entries@[i as int]));
                        assert(decreases_to!(o.entries@[i as int] => o.entries@[i as int].1));
                        assert(decreases_to!(*self => o.entries@[i as int].1));
                    }
                    let c = o.entries[i].1.copy();
                    out.push((o.entries[i].0.clone(), c));
                    i += 1;
                }
                let r = JsonObject { entries: out };
                assert(r@ =~= o@);
                Json::Object(r)
            },
        }
    }

    pub fn is_null(&self) -> (r: bool)
        ensures
            r == (self@ is Null),
    {
        match self {
            Json::Null => true,
            _ => false,
        }
    }
}

#[verifier::external_type_specification]
#[verifier::external_body]
pub struct ExJsonValue(serde_json::Value);

/// What `serde_json` reads from a JSON text: the value, or the text of its
/// error.
pub uninterp spec fn serde_json_read(text: Seq<char>) -> Result<JsonView, Seq<char>>;

/// The pretty-printed text `serde_json` writes for a value.
pub uninterp spec fn serde_json_pretty(value: JsonView) -> Seq<char>;

/// Reads a JSON text.
///
/// Trusted: calls `serde_json::from_str::<serde_json::Value>` and converts the
/// value (or the error's message) member for member; the contract names the
/// result `serde_json_read` of the text.
#[verifier::external_body]
pub(crate) fn parse_json(text: &str) -> (r: Result<Json, String>)
    ensures
        match r {
            Ok(j) => serde_json_read(text@) == Ok::<JsonView, Seq<char>>(j@),
            Err(e) => serde_json_read(text@) == Err::<JsonView, Seq<char>>(e@),
        },
{
    match serde_json::from_str::<serde_json::Value>(text) {
        Ok(v) => Ok(json_from_value(v)),
        Err(e) => Err(e.to_string()),
    }
}

/// What `serde_json` reads from the bytes of a JSON text: the value, or the
/// text of its error.
pub uninterp spec fn serde_json_read_bytes(bytes: Seq<u8>) -> Result<JsonView, Seq<char>>;

/// Reads a JSON text given as bytes.
///
/// Trusted: calls `serde_json::from_slice::<serde_json::Value>` and converts
/// the value (or the error's message) member for member; the contract names
/// the result `serde_json_read_bytes` of the bytes.
#[verifier::external_body]
pub(crate) fn parse_json_bytes(bytes: &[u8]) -> (r: Result<Json, String>)
    ensures
        match r {
            Ok(j) => serde_json_read_bytes(bytes@) == Ok::<JsonView, Seq<char>>(j@),
            Err(e) => serde_json_read_bytes(bytes@) == Err::<JsonView, Seq<char>>(e@),
        },
{
    match serde_json::from_slice::<serde_json::Value>(bytes) {
        Ok(v) => Ok(json_from_value(v)),
        Err(e) => Err(e.to_string()),
    }
}

/// Writes a JSON value as indented text.
///
/// Trusted: converts the value to a `serde_json::Value` member for member and
/// calls `serde_json::to_string_pretty`, which cannot fail on a `Value`; the
/// contract names the text `serde_json_pretty` of the value.
#[verifier::external_body]
pub(crate) fn json_to_string_pretty(j: &Json) -> (r: String)
    ensures
        r@ == serde_json_pretty(j@),
{
    serde_json::to_string_pretty(&json_to_value(j)).unwrap_or_default()
}

impl Json {
    /// Reads a JSON text: the value `serde_json` reads, or the text of its
    /// error.
    pub fn parse(text: &str) -> (r: Result<Json, String>)
        ensures
            match r {
                Ok(j) => serde_json_read(text@) == Ok::<JsonView, Seq<char>>(j@),
                Err(e) => serde_json_read(text@) == Err::<JsonView, Seq<char>>(e@),
            },
    {
        parse_json(text)
    }

    /// The value as indented JSON text.
    pub fn to_string_pretty(&self) -> (r: String)
        ensures
            r@ == serde_json_pretty(self@),
    {
        json_to_string_pretty(self)
    }
}

/// Member-for-member conversion used by `parse_json` (trusted with it).
#[verifier::external_body]
fn json_from_value(v: serde_json::Value) -> Json {
    match v {
        serde_json::Value::Null => Json::Null,
        serde_json::Value::Bool(b) => Json::Bool(b),
        serde_json::Value::Number(n) => Json::Number(n.to_string()),
        serde_json::Value::String(s) => Json::Str(s),
        serde_json::Value::Array(a) => Json::Array(a.into_iter().map(json_from_value).collect()),
        serde_json::Value::Object(o) => Json::Object(
            JsonObject { entries: o.into_iter().map(|(k, v)| (k, json_from_value(v))).collect() },
        ),
    }
}

/// Member-for-member conversion used by `json_to_string_pretty` (trusted with it).
#[verifier::external_body]
fn json_to_value(j: &Json) -> serde_json::Value {
    match j {
        Json::Null => serde_json::Value::Null,
        Json::Bool(b) => serde_json::Value::Bool(*b),
        Json::Number(n) => n.parse::<serde_json::Number>().map_or(serde_json::Value::Null, serde_json::Value::Number),
        Json::Str(s) => serde_json::Value::String(s.clone()),
        Json::Array(a) => serde_json::Value::Array(a.iter().map(json_to_value).collect()),
        Json::Object(o) => serde_json::Value::Object(o.entries.iter().map(|(k, v)| (k.clone(), json_to_value(v))).collect()),
    }
}

} // verus!
