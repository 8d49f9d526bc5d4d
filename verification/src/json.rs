//! JSON values as the library produces and reads them.
//!
//! `JsonValue` is the executable tree; `Json` is its mathematical model, in
//! which strings are `Seq<char>` and lists are `Seq`. An object is a list of
//! entries; `object_insert` replaces the value of a key that is present, so
//! objects that the library builds hold each key once, as a map does.

use vstd::prelude::*;
use crate::text::str_eq;

verus! {

/// A JSON value. Numbers that fit an `i64` are `Int`; any other number is
/// kept as its decimal text in `Number`.
#[derive(Debug)]
pub enum JsonValue {
    Null,
    Bool(bool),
    Int(i64),
    Number(String),
    Str(String),
    Array(Vec<JsonValue>),
    Object(Vec<(String, JsonValue)>),
}

/// The model of a `JsonValue`.
pub enum Json {
    Null,
    Bool(bool),
    Int(int),
    Number(Seq<char>),
    Str(Seq<char>),
    Array(Seq<Json>),
    Object(Seq<(Seq<char>, Json)>),
}

/// The model of a JSON value.
pub open spec fn json_view(v: &JsonValue) -> Json
    decreases v,
{
    match v {
        JsonValue::Null => Json::Null,
        JsonValue::Bool(b) => Json::Bool(*b),
        JsonValue::Int(n) => Json::Int(*n as int),
        JsonValue::Number(t) => Json::Number(t@),
        JsonValue::Str(t) => Json::Str(t@),
        JsonValue::Array(items) => Json::Array(json_list_view(items@)),
        JsonValue::Object(entries) => Json::Object(json_entries_view(entries@)),
    }
}

/// The models of a list of JSON values.
pub open spec fn json_list_view(s: Seq<JsonValue>) -> Seq<Json>
    decreases s,
{
    if s.len() == 0 {
        Seq::empty()
    } else {
        seq![json_view(&s[0])] + json_list_view(s.subrange(1, s.len() as int))
    }
}

/// The models of the entries of a JSON object.
pub open spec fn json_entries_view(s: Seq<(String, JsonValue)>) -> Seq<(Seq<char>, Json)>
    decreases s,
{
    if s.len() == 0 {
        Seq::empty()
    } else {
        seq![(s[0].0@, json_view(&s[0].1))] + json_entries_view(s.subrange(1, s.len() as int))
    }
}

impl View for JsonValue {
    type V = Json;

    open spec fn view(&self) -> Json {
        json_view(self)
    }
}

pub proof fn lemma_json_list_view(s: Seq<JsonValue>)
    ensures
        json_list_view(s).len() == s.len(),
        forall|i: int| 0 <= i < s.len() ==> #[trigger] json_list_view(s)[i] == json_view(&s[i]),
    decreases s.len(),
{
    if s.len() > 0 {
        let t = s.subrange(1, s.len() as int);
        lemma_json_list_view(t);
        assert forall|i: int| 0 <= i < s.len() implies #[trigger] json_list_view(s)[i] == json_view(
            &s[i],
        ) by {
            if i > 0 {
                assert(t[i - 1] == s[i]);
            }
        }
    }
}

pub proof fn lemma_json_entries_view(s: Seq<(String, JsonValue)>)
    ensures
        json_entries_view(s).len() == s.len(),
        forall|i: int|
            0 <= i < s.len() ==> #[trigger] json_entries_view(s)[i] == (s[i].0@, json_view(&s[i].1)),
    decreases s.len(),
{
    if s.len() > 0 {
        let t = s.subrange(1, s.len() as int);
        lemma_json_entries_view(t);
        assert forall|i: int| 0 <= i < s.len() implies #[trigger] json_entries_view(s)[i] == (
            s[i].0@,
            json_view(&s[i].1),
        ) by {
            if i > 0 {
                assert(t[i - 1] == s[i]);
            }
        }
    }
}

/// The models of a list are the models of its items.
pub proof fn lemma_json_list_view_push(s: Seq<JsonValue>, v: JsonValue)
    ensures
        json_list_view(s.push(v)) == json_list_view(s).push(json_view(&v)),
{
    lemma_json_list_view(s);
    lemma_json_list_view(s.push(v));
    assert(json_list_view(s.push(v)) =~= json_list_view(s).push(json_view(&v)));
}

/// The models of entries are the models of each entry.
pub proof fn lemma_json_entries_view_push(s: Seq<(String, JsonValue)>, e: (String, JsonValue))
    ensures
        json_entries_view(s.push(e)) == json_entries_view(s).push((e.0@, json_view(&e.1))),
{
    lemma_json_entries_view(s);
    lemma_json_entries_view(s.push(e));
    assert(json_entries_view(s.push(e)) =~= json_entries_view(s).push((e.0@, json_view(&e.1))));
}

/// The position of the first entry with `key`, or -1.
pub open spec fn entry_index(entries: Seq<(Seq<char>, Json)>, key: Seq<char>) -> int
    decreases entries.len(),
{
    if entries.len() == 0 {
        -1
    } else if entries[0].0 == key {
        0
    } else {
        let rest = entry_index(entries.subrange(1, entries.len() as int), key);
        if rest < 0 {
            -1
        } else {
            rest + 1
        }
    }
}

/// The value of the first entry with `key`.
pub open spec fn entry_lookup(entries: Seq<(Seq<char>, Json)>, key: Seq<char>) -> Option<Json> {
    let i = entry_index(entries, key);
    if i < 0 {
        None
    } else {
        Some(entries[i].1)
    }
}

/// `entries` with `key` bound to `value`: the entry with `key` is replaced
/// where there is one, else the entry is appended.
pub open spec fn entry_insert(entries: Seq<(Seq<char>, Json)>, key: Seq<char>, value: Json) -> Seq<
    (Seq<char>, Json),
> {
    let i = entry_index(entries, key);
    if i < 0 {
        entries.push((key, value))
    } else {
        entries.update(i, (key, value))
    }
}

/// What `entry_index` finds: the first entry with the key.
pub proof fn lemma_entry_index(entries: Seq<(Seq<char>, Json)>, key: Seq<char>)
    ensures
        -1 <= entry_index(entries, key) < entries.len(),
        entry_index(entries, key) >= 0 ==> entries[entry_index(entries, key)].0 == key,
        forall|j: int|
            0 <= j < entries.len() && (entry_index(entries, key) < 0 || j < entry_index(
                entries,
                key,
            )) ==> #[trigger] entries[j].0 != key,
    decreases entries.len(),
{
    if entries.len() > 0 && entries[0].0 != key {
        let t = entries.subrange(1, entries.len() as int);
        lemma_entry_index(t, key);
        assert forall|j: int|
            0 <= j < entries.len() && (entry_index(entries, key) < 0 || j < entry_index(
                entries,
                key,
            )) implies #[trigger] entries[j].0 != key by {
            if j > 0 {
                assert(t[j - 1] == entries[j]);
            }
        }
    }
}

/// The first position `i` with `entries[i].0 == key` is `entry_index`.
pub proof fn lemma_entry_index_at(entries: Seq<(Seq<char>, Json)>, key: Seq<char>, i: int)
    requires
        0 <= i < entries.len(),
        entries[i].0 == key,
        forall|j: int| 0 <= j < i ==> #[trigger] entries[j].0 != key,
    ensures
        entry_index(entries, key) == i,
{
    lemma_entry_index(entries, key);
}

/// No entry has the key: `entry_index` is -1.
pub proof fn lemma_entry_index_none(entries: Seq<(Seq<char>, Json)>, key: Seq<char>)
    requires
        forall|j: int| 0 <= j < entries.len() ==> #[trigger] entries[j].0 != key,
    ensures
        entry_index(entries, key) == -1,
{
    lemma_entry_index(entries, key);
}

impl Json {
    /// The value under `key` when `self` is an object.
    pub open spec fn get(self, key: Seq<char>) -> Option<Json> {
        match self {
            Json::Object(entries) => entry_lookup(entries, key),
            _ => None,
        }
    }

    /// The item at `i` when `self` is an array.
    pub open spec fn at(self, i: int) -> Option<Json> {
        match self {
            Json::Array(items) => if 0 <= i < items.len() {
                Some(items[i])
            } else {
                None
            },
            _ => None,
        }
    }
}

impl JsonValue {
    /// The value under `key` when `self` is an object, as `Value::get` gives it.
    pub fn get(&self, key: &str) -> (r: Option<&JsonValue>)
        ensures
            r is Some <==> self@.get(key@) is Some,
            r matches Some(v) ==> self@.get(key@) == Some(v@),
    {
        match self {
            JsonValue::Object(entries) => {
                proof {
                    lemma_json_entries_view(entries@);
                }
                let ghost es = json_entries_view(entries@);
                assert(self@ == Json::Object(es));
                let mut i: usize = 0;
                while i < entries.len()
                    invariant
                        0 <= i <= entries@.len(),
                        self@ == Json::Object(es),
                        es == json_entries_view(entries@),
                        es.len() == entries@.len(),
                        forall|k: int|
                            0 <= k < entries@.len() ==> #[trigger] es[k] == (
                                entries@[k].0@,
                                json_view(&entries@[k].1),
                            ),
                        forall|j: int| 0 <= j < i ==> #[trigger] es[j].0 != key@,
                    decreases entries.len() - i,
                {
                    if str_eq(entries[i].0.as_str(), key) {
                        proof {
                            lemma_entry_index_at(es, key@, i as int);
                        }
                        return Some(&entries[i].1);
                    }
                    i = i + 1;
                }
                proof {
                    lemma_entry_index_none(es, key@);
                }
                None
            },
            _ => None,
        }
    }

    /// The item at `i` when `self` is an array.
    pub fn at(&self, i: usize) -> (r: Option<&JsonValue>)
        ensures
            r is Some <==> self@.at(i as int) is Some,
            r matches Some(v) ==> self@.at(i as int) == Some(v@),
    {
        match self {
            JsonValue::Array(items) => {
                proof {
                    lemma_json_list_view(items@);
                }
                if i < items.len() {
                    Some(&items[i])
                } else {
                    None
                }
            },
            _ => None,
        }
    }

    /// The array items when `self` is an array, as `Value::as_array` gives them.
    pub fn as_array(&self) -> (r: Option<&Vec<JsonValue>>)
        ensures
            r is Some <==> self@ is Array,
            r matches Some(items) ==> self@ == Json::Array(json_list_view(items@)),
    {
        match self {
            JsonValue::Array(items) => Some(items),
            _ => None,
        }
    }

    /// A copy of `self`.
    pub fn deep_clone(&self) -> (r: JsonValue)
        ensures
            r@ == self@,
        decreases self,
    {
        match self {
            JsonValue::Null => JsonValue::Null,
            JsonValue::Bool(b) => JsonValue::Bool(*b),
            JsonValue::Int(n) => JsonValue::Int(*n),
            JsonValue::Number(t) => JsonValue::Number(t.clone()),
            JsonValue::Str(t) => JsonValue::Str(t.clone()),
            JsonValue::Array(items) => {
                let mut out: Vec<JsonValue> = Vec::new();
                let mut i: usize = 0;
                #[verifier::loop_isolation(false)]
                while i < items.len()
                    invariant
                        0 <= i <= items@.len(),
                        json_list_view(out@) == json_list_view(items@.subrange(0, i as int)),
                    decreases items.len() - i,
                {
                    assert(decreases_to!(self => items@[i as int]));
                    let c = items[i].deep_clone();
                    proof {
                        lemma_json_list_view_push(out@, c);
                        lemma_json_list_view_push(items@.subrange(0, i as int), items@[i as int]);
                        assert(items@.subrange(0, i as int).push(items@[i as int]) =~= items@.subrange(
                            0,
                            i + 1,
                        ));
                    }
                    out.push(c);
                    i = i + 1;
                }
                assert(items@.subrange(0, items@.len() as int) =~= items@);
                JsonValue::Array(out)
            },
            JsonValue::Object(entries) => {
                let mut out: Vec<(String, JsonValue)> = Vec::new();
                let mut i: usize = 0;
                #[verifier::loop_isolation(false)]
                while i < entries.len()
                    invariant
                        0 <= i <= entries@.len(),
                        json_entries_view(out@) == json_entries_view(entries@.subrange(0, i as int)),
                    decreases entries.len() - i,
                {
                    let k = entries[i].0.clone();
                    assert(decreases_to!(self => entries@[i as int].1));
                    let c = entries[i].1.deep_clone();
                    proof {
                        lemma_json_entries_view_push(out@, (k, c));
                        lemma_json_entries_view_push(
                            entries@.subrange(0, i as int),
                            entries@[i as int],
                        );
                        assert(entries@.subrange(0, i as int).push(entries@[i as int])
                            =~= entries@.subrange(0, i + 1));
                    }
                    out.push((k, c));
                    i = i + 1;
                }
                assert(entries@.subrange(0, entries@.len() as int) =~= entries@);
                JsonValue::Object(out)
            },
        }
    }
}

/// A copy of a list of JSON values.
pub fn clone_list(items: &Vec<JsonValue>) -> (r: Vec<JsonValue>)
    ensures
        json_list_view(r@) == json_list_view(items@),
{
    let mut out: Vec<JsonValue> = Vec::new();
    let mut i: usize = 0;
    assert(json_list_view(out@) =~= json_list_view(items@.subrange(0, 0)));
    while i < items.len()
        invariant
            0 <= i <= items@.len(),
            json_list_view(out@) == json_list_view(items@.subrange(0, i as int)),
        decreases items.len() - i,
    {
        let c = items[i].deep_clone();
        proof {
            lemma_json_list_view_push(out@, c);
            lemma_json_list_view_push(items@.subrange(0, i as int), items@[i as int]);
            assert(items@.subrange(0, i as int).push(items@[i as int]) =~= items@.subrange(0, i + 1));
        }
        out.push(c);
        i = i + 1;
    }
    assert(items@.subrange(0, items@.len() as int) =~= items@);
    out
}

/// Binds `key` to `value` in an object's entries, replacing the entry that
/// holds `key` where there is one, as `Map::insert` does.
pub fn object_insert(entries: &mut Vec<(String, JsonValue)>, key: String, value: JsonValue)
    ensures
        json_entries_view(final(entries)@) == entry_insert(
            json_entries_view(old(entries)@),
            key@,
            value@,
        ),
{
    proof {
        lemma_json_entries_view(entries@);
    }
    let ghost es = json_entries_view(entries@);
    let mut i: usize = 0;
    while i < entries.len()
        invariant
            0 <= i <= entries@.len(),
            entries@ == old(entries)@,
            es == json_entries_view(entries@),
            es.len() == entries@.len(),
            forall|k: int|
                0 <= k < entries@.len() ==> #[trigger] es[k] == (
                    entries@[k].0@,
                    json_view(&entries@[k].1),
                ),
            forall|j: int| 0 <= j < i ==> #[trigger] es[j].0 != key@,
        decreases entries.len() - i,
    {
        if str_eq(entries[i].0.as_str(), key.as_str()) {
            proof {
                lemma_entry_index_at(es, key@, i as int);
            }
            let ghost before = entries@;
            entries.set(i, (key, value));
            proof {
                lemma_json_entries_view(entries@);
                assert(json_entries_view(entries@) =~= es.update(i as int, (key@, value@)));
            }
            return;
        }
        i = i + 1;
    }
    proof {
        lemma_entry_index_none(es, key@);
        lemma_json_entries_view_push(entries@, (key, value));
    }
    entries.push((key, value));
}

} // verus!

verus! {

/// A key bound by `object_insert` reads back as the value it was bound to,
/// and every other key reads as before: entries behave as a map.
pub proof fn law_object_insert_read_back(
    entries: Seq<(Seq<char>, Json)>,
    key: Seq<char>,
    value: Json,
    other: Seq<char>,
)
    requires
        other != key,
    ensures
        entry_lookup(entry_insert(entries, key, value), key) == Some(value),
        entry_lookup(entry_insert(entries, key, value), other) == entry_lookup(entries, other),
{
    lemma_entry_index(entries, key);
    lemma_entry_index(entries, other);
    let i = entry_index(entries, key);
    let after = entry_insert(entries, key, value);
    if i < 0 {
        assert(after == entries.push((key, value)));
        assert forall|j: int| 0 <= j < entries.len() implies #[trigger] after[j].0 != key by {
            assert(after[j] == entries[j]);
        }
        lemma_entry_index_at(after, key, entries.len() as int);
        let o = entry_index(entries, other);
        if o >= 0 {
            assert forall|j: int| 0 <= j < o implies #[trigger] after[j].0 != other by {
                assert(after[j] == entries[j]);
            }
            lemma_entry_index_at(after, other, o);
        } else {
            assert forall|j: int| 0 <= j < after.len() implies #[trigger] after[j].0 != other by {
                if j < entries.len() {
                    assert(after[j] == entries[j]);
                }
            }
            lemma_entry_index_none(after, other);
        }
    } else {
        assert(after == entries.update(i, (key, value)));
        assert forall|j: int| 0 <= j < i implies #[trigger] after[j].0 != key by {
            assert(after[j] == entries[j]);
        }
        lemma_entry_index_at(after, key, i);
        let o = entry_index(entries, other);
        if o >= 0 {
            assert forall|j: int| 0 <= j < o implies #[trigger] after[j].0 != other by {
                if j != i {
                    assert(after[j] == entries[j]);
                }
            }
            assert(o != i);
            lemma_entry_index_at(after, other, o);
        } else {
            assert forall|j: int| 0 <= j < after.len() implies #[trigger] after[j].0 != other by {
                if j != i {
                    assert(after[j] == entries[j]);
                }
            }
            lemma_entry_index_none(after, other);
        }
    }
}

} // verus!
