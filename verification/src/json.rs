//! A JSON document model for outbounds and generated configs, with its
//! mathematical view and the lookups the import and build logic use.
//!
//! Objects keep their entries in order; a key is looked up at its first
//! occurrence, and setting a key replaces that occurrence or appends.
//! Numbers are kept as their decimal text.

use vstd::prelude::*;
use crate::text::str_eq;

verus! {

/// A JSON value. Objects hold their entries in order; numbers hold their
/// decimal text.
#[derive(Debug, PartialEq)]
pub enum Json {
    Null,
    Bool(bool),
    Number(String),
    String(String),
    Array(Vec<Json>),
    Object(Vec<(String, Json)>),
}

/// The view of a [`Json`] value: the same tree over character sequences.
pub enum JsonV {
    Null,
    Bool(bool),
    Number(Seq<char>),
    String(Seq<char>),
    Array(Seq<JsonV>),
    Object(Seq<(Seq<char>, JsonV)>),
}

pub type Entries = Seq<(Seq<char>, JsonV)>;

/// The view of a value, as a free function so that it can recurse.
pub open spec fn json_view(j: Json) -> JsonV
    decreases j,
{
    match j {
        Json::Null => JsonV::Null,
        Json::Bool(b) => JsonV::Bool(b),
        Json::Number(n) => JsonV::Number(n@),
        Json::String(s) => JsonV::String(s@),
        Json::Array(v) => JsonV::Array(
            Seq::new(
                v.len() as nat,
                |i: int|
                    if 0 <= i < v.len() {
                        json_view(v[i])
                    } else {
                        JsonV::Null
                    },
            ),
        ),
        Json::Object(es) => JsonV::Object(
            Seq::new(
                es.len() as nat,
                |i: int|
                    if 0 <= i < es.len() {
                        (es[i].0@, json_view(es[i].1))
                    } else {
                        (Seq::empty(), JsonV::Null)
                    },
            ),
        ),
    }
}

impl View for Json {
    type V = JsonV;

    open spec fn view(&self) -> JsonV {
        json_view(*self)
    }
}

/// The view of an entry list.
pub open spec fn entries_view(es: Seq<(String, Json)>) -> Entries {
    Seq::new(es.len(), |i: int| (es[i].0@, es[i].1@))
}

/// The view of an array's elements.
pub open spec fn items_view(v: Seq<Json>) -> Seq<JsonV> {
    Seq::new(v.len(), |i: int| v[i]@)
}

pub proof fn lemma_object_view(es: Vec<(String, Json)>)
    ensures
        Json::Object(es)@ == JsonV::Object(entries_view(es@)),
{
    assert(Json::Object(es)@->Object_0 =~= entries_view(es@));
}

pub proof fn lemma_array_view(v: Vec<Json>)
    ensures
        Json::Array(v)@ == JsonV::Array(items_view(v@)),
{
    assert(Json::Array(v)@->Array_0 =~= items_view(v@));
}

/// The index of the first entry at or after `i` whose key is `k`, or -1.
pub open spec fn key_index_from(es: Entries, k: Seq<char>, i: int) -> int
    decreases es.len() - i,
{
    if i < 0 || i >= es.len() {
        -1
    } else if es[i].0 == k {
        i
    } else {
        key_index_from(es, k, i + 1)
    }
}

/// The index of the first entry whose key is `k`, or -1.
pub open spec fn key_index(es: Entries, k: Seq<char>) -> int {
    key_index_from(es, k, 0)
}

pub proof fn lemma_key_index_from(es: Entries, k: Seq<char>, i: int)
    requires
        0 <= i <= es.len(),
    ensures
        ({
            let r = key_index_from(es, k, i);
            &&& -1 <= r < es.len()
            &&& r >= 0 ==> i <= r && es[r].0 == k && forall|j: int| i <= j < r ==> es[j].0 != k
            &&& r < 0 ==> forall|j: int| i <= j < es.len() ==> es[j].0 != k
        }),
    decreases es.len() - i,
{
    if i < es.len() && es[i].0 != k {
        lemma_key_index_from(es, k, i + 1);
    }
}

pub proof fn lemma_key_index(es: Entries, k: Seq<char>)
    ensures
        -1 <= key_index(es, k) < es.len(),
        key_index(es, k) >= 0 ==> es[key_index(es, k)].0 == k && forall|j: int|
            0 <= j < key_index(es, k) ==> es[j].0 != k,
        key_index(es, k) < 0 ==> forall|j: int| 0 <= j < es.len() ==> es[j].0 != k,
{
    lemma_key_index_from(es, k, 0);
}


/// Lookups by key only depend on the keys: two entry lists with the same
/// keys in the same places find a key at the same index.
pub proof fn lemma_key_index_same_keys(a: Entries, b: Entries, k: Seq<char>, i: int)
    requires
        a.len() == b.len(),
        forall|j: int| 0 <= j < a.len() ==> #[trigger] a[j].0 == b[j].0,
    ensures
        key_index_from(a, k, i) == key_index_from(b, k, i),
    decreases a.len() - i,
{
    if 0 <= i < a.len() && a[i].0 != k {
        lemma_key_index_same_keys(a, b, k, i + 1);
    }
}

/// The value stored under the first occurrence of `k`.
pub open spec fn entries_get(es: Entries, k: Seq<char>) -> Option<JsonV> {
    let i = key_index(es, k);
    if i >= 0 {
        Some(es[i].1)
    } else {
        None
    }
}

/// `es` with the first occurrence of `k` holding `v`, or `(k, v)` appended.
pub open spec fn entries_set(es: Entries, k: Seq<char>, v: JsonV) -> Entries {
    let i = key_index(es, k);
    if i >= 0 {
        es.update(i, (k, v))
    } else {
        es.push((k, v))
    }
}

impl JsonV {
    /// `Value::get` with a string key: the member of an object, `None` for
    /// anything else.
    pub open spec fn get(self, k: Seq<char>) -> Option<JsonV> {
        match self {
            JsonV::Object(es) => entries_get(es, k),
            _ => None,
        }
    }

    /// `Value::as_str`.
    pub open spec fn as_str(self) -> Option<Seq<char>> {
        match self {
            JsonV::String(s) => Some(s),
            _ => None,
        }
    }

    /// The string under key `k` of an object, if there is one.
    pub open spec fn str_at(self, k: Seq<char>) -> Option<Seq<char>> {
        match self.get(k) {
            Some(v) => v.as_str(),
            None => None,
        }
    }
}

/// The view of a JSON string value.
pub open spec fn jstr(s: Seq<char>) -> JsonV {
    JsonV::String(s)
}

/// Index of the first entry of `es` with key `key`.
pub fn find_key(es: &Vec<(String, Json)>, key: &str) -> (r: Option<usize>)
    ensures
        match r {
            Some(i) => i < es.len() && key_index(entries_view(es@), key@) == i,
            None => key_index(entries_view(es@), key@) < 0,
        },
{
    let ghost ev = entries_view(es@);
    let mut i: usize = 0;
    while i < es.len()
        invariant
            i <= es.len(),
            ev == entries_view(es@),
            key_index(ev, key@) == key_index_from(ev, key@, i as int),
        decreases es.len() - i,
    {
        if str_eq(es[i].0.as_str(), key) {
            return Some(i);
        }
        i += 1;
    }
    None
}

/// Sets `key` to `val`: replaces the first entry with that key, or appends.
pub fn set_key(es: &mut Vec<(String, Json)>, key: String, val: Json)
    ensures
        entries_view(final(es)@) == entries_set(entries_view(old(es)@), key@, val@),
{
    let k = key.as_str();
    match find_key(es, k) {
        Some(i) => {
            let _ = es.remove(i);
            es.insert(i, (key, val));
            assert(entries_view(es@) =~= entries_set(entries_view(old(es)@), key@, val@));
        },
        None => {
            es.push((key, val));
            assert(entries_view(es@) =~= entries_set(entries_view(old(es)@), key@, val@));
        },
    }
}


/// The entry `(k, v)` when `v` is present, nothing otherwise.
pub open spec fn opt_entry(k: Seq<char>, v: Option<JsonV>) -> Entries {
    match v {
        Some(x) => seq![(k, x)],
        None => Seq::empty(),
    }
}

/// The string entry `(k, s)` when `s` is present, nothing otherwise.
pub open spec fn opt_str_entry(k: Seq<char>, s: Option<Seq<char>>) -> Entries {
    match s {
        Some(x) => seq![(k, JsonV::String(x))],
        None => Seq::empty(),
    }
}

/// Appends the entry `(k, v)`.
pub fn push_entry(es: &mut Vec<(String, Json)>, k: &str, v: Json)
    ensures
        entries_view(final(es)@) == entries_view(old(es)@).push((k@, v@)),
{
    es.push((k.to_string(), v));
    assert(entries_view(es@) =~= entries_view(old(es)@).push((k@, v@)));
}

/// Appends the string entry `(k, s)` when `s` is present.
pub fn push_opt_str(es: &mut Vec<(String, Json)>, k: &str, s: Option<&String>)
    ensures
        entries_view(final(es)@) == entries_view(old(es)@) + opt_str_entry(
            k@,
            match s {
                Some(x) => Some(x@),
                None => None,
            },
        ),
{
    match s {
        Some(x) => {
            push_entry(es, k, Json::String(x.clone()));
            assert(entries_view(es@) =~= entries_view(old(es)@) + opt_str_entry(k@, Some(x@)));
        },
        None => {
            assert(entries_view(es@) =~= entries_view(old(es)@) + opt_str_entry(k@, None));
        },
    }
}

/// An object with the entries `es`.
pub fn object(es: Vec<(String, Json)>) -> (r: Json)
    ensures
        r@ == JsonV::Object(entries_view(es@)),
{
    proof {
        lemma_object_view(es);
    }
    Json::Object(es)
}

/// An array with the items `v`.
pub fn array(v: Vec<Json>) -> (r: Json)
    ensures
        r@ == JsonV::Array(items_view(v@)),
{
    proof {
        lemma_array_view(v);
    }
    Json::Array(v)
}

/// A number value holding the decimal text of `n`.
pub fn number(n: u64) -> (r: Json)
    ensures
        r@ == JsonV::Number(crate::text::decimal(n as nat)),
{
    let ds = crate::text::decimal_chars(n);
    Json::Number(crate::text::string_of(&ds))
}

impl Json {
    /// The member `key` of an object; `None` for a missing key or a value
    /// that is not an object.
    pub fn get(&self, key: &str) -> (r: Option<&Json>)
        ensures
            match r {
                Some(v) => self@.get(key@) == Some(v@),
                None => self@.get(key@) is None,
            },
    {
        match self {
            Json::Object(es) => {
                proof {
                    lemma_object_view(*es);
                }
                match find_key(es, key) {
                    Some(i) => Some(&es[i].1),
                    None => None,
                }
            },
            _ => None,
        }
    }

    /// The text of a string value.
    pub fn as_str(&self) -> (r: Option<&str>)
        ensures
            match r {
                Some(s) => self@.as_str() == Some(s@),
                None => self@.as_str() is None,
            },
    {
        match self {
            Json::String(s) => Some(s.as_str()),
            _ => None,
        }
    }

    /// The text of the string under `key`, if the value is an object with a
    /// string there.
    pub fn str_at(&self, key: &str) -> (r: Option<&str>)
        ensures
            match r {
                Some(s) => self@.str_at(key@) == Some(s@),
                None => self@.str_at(key@) is None,
            },
    {
        match self.get(key) {
            Some(v) => v.as_str(),
            None => None,
        }
    }

    /// A string value holding `s`.
    pub fn from_str(s: &str) -> (r: Json)
        ensures
            r@ == JsonV::String(s@),
    {
        Json::String(s.to_string())
    }

    /// A copy of this value.
    pub fn deep_clone(&self) -> (r: Json)
        ensures
            r@ == self@,
        decreases self,
    {
        match self {
            Json::Null => Json::Null,
            Json::Bool(b) => Json::Bool(*b),
            Json::Number(n) => Json::Number(n.clone()),
            Json::String(s) => Json::String(s.clone()),
            Json::Array(v) => {
                let mut out: Vec<Json> = Vec::new();
                let mut i: usize = 0;
                while i < v.len()
                    invariant
                        i <= v.len(),
                        *self == Json::Array(*v),
                        out.len() == i,
                        forall|j: int| 0 <= j < i ==> #[trigger] out@[j]@ == v@[j]@,
                    decreases v.len() - i,
                {
                    proof {
                        vstd::std_specs::vec::axiom_vec_index_decreases(*v, i as int);
                        assert(decreases_to!(*self => self->Array_0));
                    }
                    let c = v[i].deep_clone();
                    out.push(c);
                    i += 1;
                }
                proof {
                    lemma_array_view(*v);
                    lemma_array_view(out);
                    assert(items_view(out@) =~= items_view(v@));
                }
                Json::Array(out)
            },
            Json::Object(es) => {
                let mut out: Vec<(String, Json)> = Vec::new();
                let mut i: usize = 0;
                while i < es.len()
                    invariant
                        i <= es.len(),
                        *self == Json::Object(*es),
                        out.len() == i,
                        forall|j: int|
                            0 <= j < i ==> #[trigger] out@[j].0@ == es@[j].0@ && out@[j].1@
                                == es@[j].1@,
                    decreases es.len() - i,
                {
                    proof {
                        vstd::std_specs::vec::axiom_vec_index_decreases(*es, i as int);
                        assert(decreases_to!(*self => self->Object_0));
                    }
                    let c = es[i].1.deep_clone();
                    out.push((es[i].0.clone(), c));
                    i += 1;
                }
                proof {
                    lemma_object_view(*es);
                    lemma_object_view(out);
                    assert(entries_view(out@) =~= entries_view(es@));
                }
                Json::Object(out)
            },
        }
    }
}

#[verifier::external_type_specification]
#[verifier::external_body]
pub struct ExSerdeValue(serde_json::Value);

/// What `serde_json::from_str::<serde_json::Value>` makes of a text: the
/// document, or the display text of the syntax error.
pub uninterp spec fn serde_json_parse(text: Seq<char>) -> Result<JsonV, Seq<char>>;

/// Turns a `serde_json::Value` into the same tree of [`Json`] nodes, one
/// node for one node (numbers by their `Display` text, object members in
/// the map's order). It is the result conversion of [`parse_json`] and is
/// called from there only; it carries no contract of its own, and what it
/// produces is covered by the name [`serde_json_parse`] that the contract
/// of `parse_json` applies.
#[verifier::external_body]
fn json_from_serde(v: serde_json::Value) -> Json {
    match v {
        serde_json::Value::Null => Json::Null,
        serde_json::Value::Bool(b) => Json::Bool(b),
        serde_json::Value::Number(n) => Json::Number(n.to_string()),
        serde_json::Value::String(s) => Json::String(s),
        serde_json::Value::Array(a) => Json::Array(a.into_iter().map(json_from_serde).collect()),
        serde_json::Value::Object(m) => Json::Object(
            m.into_iter().map(|(k, x)| (k, json_from_serde(x))).collect(),
        ),
    }
}

/// Parses `text` with `serde_json::from_str` into a `serde_json::Value`
/// and converts it. The contract claims only that the outcome (the
/// document, or the error's display text) is the one named by
/// [`serde_json_parse`] for this text; what the parser accepts is not
/// stated.
#[verifier::external_body]
pub(crate) fn parse_json(text: &str) -> (r: Result<Json, String>)
    ensures
        match r {
            Ok(j) => serde_json_parse(text@) == Ok::<JsonV, Seq<char>>(j@),
            Err(m) => serde_json_parse(text@) == Err::<JsonV, Seq<char>>(m@),
        },
{
    match serde_json::from_str::<serde_json::Value>(text) {
        Ok(v) => Ok(json_from_serde(v)),
        Err(e) => Err(e.to_string()),
    }
}

} // verus!
