//! JSON values as a closed union, with their mathematical model.

use vstd::prelude::*;

use vstd::string::StringExecFns;

use crate::bindings::{json_quote, json_quoted};

verus! {

/// The mathematical model of a JSON value.
///
/// A number is held as its literal text. An object is the sequence of its
/// entries, in order; looking a key up finds the first entry that has it.
pub enum Json {
    Null,
    Bool(bool),
    Number(Seq<char>),
    String(Seq<char>),
    Array(Seq<Json>),
    Object(Seq<(Seq<char>, Json)>),
}

/// A JSON value.
///
/// A number holds its literal text, as the parser writes it back, so that
/// integers of any size and fractions go through unchanged. An object holds
/// its entries in order. It stands for a mapping where no key occurs twice;
/// the decoders give only such objects.
#[derive(Debug, PartialEq, Eq)]
pub enum JsonValue {
    Null,
    Bool(bool),
    Number(String),
    String(String),
    Array(Vec<JsonValue>),
    Object(Vec<(String, JsonValue)>),
}

/// The model of a value.
pub open spec fn model_of(value: JsonValue) -> Json
    decreases value,
{
    match value {
        JsonValue::Null => Json::Null,
        JsonValue::Bool(b) => Json::Bool(b),
        JsonValue::Number(text) => Json::Number(text@),
        JsonValue::String(text) => Json::String(text@),
        JsonValue::Array(items) => Json::Array(
            Seq::new(
                items@.len(),
                |i: int|
                    if 0 <= i < items@.len() {
                        model_of(items@[i])
                    } else {
                        Json::Null
                    },
            ),
        ),
        JsonValue::Object(entries) => Json::Object(
            Seq::new(
                entries@.len(),
                |i: int|
                    if 0 <= i < entries@.len() {
                        (entries@[i].0@, model_of(entries@[i].1))
                    } else {
                        (Seq::empty(), Json::Null)
                    },
            ),
        ),
    }
}

impl View for JsonValue {
    type V = Json;

    open spec fn view(&self) -> Json {
        model_of(*self)
    }
}

/// The models of a list of values, in order.
pub open spec fn values_view(items: Seq<JsonValue>) -> Seq<Json> {
    Seq::new(items.len(), |i: int| items[i]@)
}

/// The models of a list of entries, in order.
pub open spec fn entries_view(entries: Seq<(String, JsonValue)>) -> Seq<(Seq<char>, Json)> {
    Seq::new(entries.len(), |i: int| (entries[i].0@, entries[i].1@))
}

/// The model of an optional value.
pub open spec fn option_view(value: Option<JsonValue>) -> Option<Json> {
    match value {
        Some(v) => Some(v@),
        None => None,
    }
}

/// The model of an optional borrowed value.
pub open spec fn option_ref_view(value: Option<&JsonValue>) -> Option<Json> {
    match value {
        Some(v) => Some(v@),
        None => None,
    }
}

impl Json {
    /// Whether every object in the value, at any depth, is a mapping: no two
    /// of its entries have the same key.
    pub open spec fn well_formed(self) -> bool
        decreases self,
    {
        match self {
            Json::Array(items) => forall|i: int|
                0 <= i < items.len() ==> (#[trigger] items[i]).well_formed(),
            Json::Object(entries) => distinct_keys(entries) && forall|i: int|
                0 <= i < entries.len() ==> (#[trigger] entries[i]).1.well_formed(),
            _ => true,
        }
    }

    /// The value that an object holds under `key`; nothing for a value that
    /// is no object.
    pub open spec fn get(self, key: Seq<char>) -> Option<Json> {
        match self {
            Json::Object(entries) => lookup(entries, key),
            _ => None,
        }
    }
}

/// The index of the first entry at or after `start` whose key is `key`.
pub open spec fn find_from(entries: Seq<(Seq<char>, Json)>, key: Seq<char>, start: int) -> Option<
    int,
>
    decreases entries.len() - start,
{
    if start < 0 || start >= entries.len() {
        None
    } else if entries[start].0 == key {
        Some(start)
    } else {
        find_from(entries, key, start + 1)
    }
}

/// The index of the first entry whose key is `key`.
pub open spec fn find(entries: Seq<(Seq<char>, Json)>, key: Seq<char>) -> Option<int> {
    find_from(entries, key, 0)
}

/// The value of the first entry whose key is `key`.
pub open spec fn lookup(entries: Seq<(Seq<char>, Json)>, key: Seq<char>) -> Option<Json> {
    match find(entries, key) {
        Some(i) => Some(entries[i].1),
        None => None,
    }
}

/// `find_from` returns the least index from `start` on that holds the key,
/// and nothing exactly when no index from `start` on holds it.
pub proof fn lemma_find_from(entries: Seq<(Seq<char>, Json)>, key: Seq<char>, start: int)
    requires
        0 <= start,
    ensures
        match find_from(entries, key, start) {
            Some(i) => {
                &&& start <= i < entries.len()
                &&& entries[i].0 == key
                &&& forall|j: int| start <= j < i ==> (#[trigger] entries[j]).0 != key
            },
            None => forall|j: int| start <= j < entries.len() ==> (#[trigger] entries[j]).0 != key,
        },
    decreases entries.len() - start,
{
    if start < entries.len() && entries[start].0 != key {
        lemma_find_from(entries, key, start + 1);
    }
}

/// Where an entry holds the key and none before it does, `find` gives its
/// index.
pub proof fn lemma_find_first(entries: Seq<(Seq<char>, Json)>, key: Seq<char>, i: int)
    requires
        0 <= i < entries.len(),
        entries[i].0 == key,
        forall|j: int| 0 <= j < i ==> (#[trigger] entries[j]).0 != key,
    ensures
        find(entries, key) == Some(i),
        lookup(entries, key) == Some(entries[i].1),
{
    lemma_find_from(entries, key, 0);
}

/// Where no entry holds the key, `find` gives nothing.
pub proof fn lemma_find_none(entries: Seq<(Seq<char>, Json)>, key: Seq<char>)
    requires
        forall|j: int| 0 <= j < entries.len() ==> (#[trigger] entries[j]).0 != key,
    ensures
        find(entries, key) is None,
        lookup(entries, key) is None,
{
    lemma_find_from(entries, key, 0);
}

/// Whether no two entries have the same key: the entries are a mapping.
pub open spec fn distinct_keys<V>(entries: Seq<(Seq<char>, V)>) -> bool {
    forall|i: int, j: int|
        0 <= i < j < entries.len() ==> (#[trigger] entries[i]).0 != (#[trigger] entries[j]).0
}

/// The entries with `value` under `key`: in the place of the first entry
/// that has this key, or at the end where there is none.
pub open spec fn upsert(entries: Seq<(Seq<char>, Json)>, key: Seq<char>, value: Json) -> Seq<
    (Seq<char>, Json),
> {
    match find(entries, key) {
        Some(i) => entries.update(i, (key, value)),
        None => entries.push((key, value)),
    }
}

/// After `upsert`, looking the key up gives the new value, and looking any
/// other key up gives what it gave before.
pub proof fn lemma_upsert_lookup(
    entries: Seq<(Seq<char>, Json)>,
    key: Seq<char>,
    value: Json,
    other: Seq<char>,
)
    ensures
        lookup(upsert(entries, key, value), other) == if other == key {
            Some(value)
        } else {
            lookup(entries, other)
        },
{
    let after = upsert(entries, key, value);
    lemma_find_from(entries, key, 0);
    lemma_find_from(entries, other, 0);
    match find(entries, key) {
        Some(i) => {
            if other == key {
                assert(after[i] == (key, value));
                assert forall|j: int| 0 <= j < i implies (#[trigger] after[j]).0 != key by {
                    assert(after[j] == entries[j]);
                }
                lemma_find_first(after, key, i);
            } else {
                match find(entries, other) {
                    Some(k) => {
                        assert(k != i);
                        assert(after[k] == entries[k]);
                        assert forall|j: int| 0 <= j < k implies (#[trigger] after[j]).0
                            != other by {
                            if j != i {
                                assert(after[j] == entries[j]);
                            }
                        }
                        lemma_find_first(after, other, k);
                    },
                    None => {
                        assert forall|j: int| 0 <= j < after.len() implies (#[trigger] after[j]).0
                            != other by {
                            if j != i {
                                assert(after[j] == entries[j]);
                            }
                        }
                        lemma_find_none(after, other);
                    },
                }
            }
        },
        None => {
            let n = entries.len() as int;
            assert(after[n] == (key, value));
            if other == key {
                assert forall|j: int| 0 <= j < n implies (#[trigger] after[j]).0 != key by {
                    assert(after[j] == entries[j]);
                }
                lemma_find_first(after, key, n);
            } else {
                match find(entries, other) {
                    Some(k) => {
                        assert(after[k] == entries[k]);
                        assert forall|j: int| 0 <= j < k implies (#[trigger] after[j]).0
                            != other by {
                            assert(after[j] == entries[j]);
                        }
                        lemma_find_first(after, other, k);
                    },
                    None => {
                        assert forall|j: int| 0 <= j < after.len() implies (#[trigger] after[j]).0
                            != other by {
                            if j < n {
                                assert(after[j] == entries[j]);
                            }
                        }
                        lemma_find_none(after, other);
                    },
                }
            }
        },
    }
}

/// `upsert` keeps the keys distinct.
pub proof fn lemma_upsert_distinct(entries: Seq<(Seq<char>, Json)>, key: Seq<char>, value: Json)
    requires
        distinct_keys(entries),
    ensures
        distinct_keys(upsert(entries, key, value)),
{
    let after = upsert(entries, key, value);
    lemma_find_from(entries, key, 0);
    assert forall|i: int, j: int| 0 <= i < j < after.len() implies (#[trigger] after[i]).0 != (
    #[trigger] after[j]).0 by {
        match find(entries, key) {
            Some(k) => {
                assert(after[i].0 == entries[i].0);
                assert(after[j].0 == entries[j].0);
            },
            None => {
                if j < entries.len() {
                    assert(after[i] == entries[i]);
                    assert(after[j] == entries[j]);
                } else {
                    assert(after[i] == entries[i]);
                    assert(after[j].0 == key);
                }
            },
        }
    }
}

/// Whether every value of a list is well formed.
pub open spec fn all_well_formed(items: Seq<Json>) -> bool {
    forall|i: int| 0 <= i < items.len() ==> (#[trigger] items[i]).well_formed()
}

/// Whether the entries are those of a well-formed object.
pub open spec fn well_formed_entries(entries: Seq<(Seq<char>, Json)>) -> bool {
    Json::Object(entries).well_formed()
}

/// What a well-formed object holds under a key is well formed.
pub proof fn lemma_lookup_well_formed(entries: Seq<(Seq<char>, Json)>, key: Seq<char>)
    requires
        well_formed_entries(entries),
    ensures
        lookup(entries, key) matches Some(value) ==> value.well_formed(),
{
    lemma_find_from(entries, key, 0);
}

/// The compact JSON text of a value: no blanks between tokens, the items of
/// an array and the entries of an object in their order with a comma between
/// each two, a string as `json_quoted` writes it and a number as its
/// literal.
pub open spec fn json_text(value: Json) -> Seq<char>
    decreases value, 0nat,
{
    match value {
        Json::Null => "null"@,
        Json::Bool(b) => if b {
            "true"@
        } else {
            "false"@
        },
        Json::Number(text) => text,
        Json::String(text) => json_quoted(text),
        Json::Array(items) => "["@ + items_text(items, items.len()) + "]"@,
        Json::Object(entries) => "{"@ + entries_text(entries, entries.len()) + "}"@,
    }
}

/// The JSON texts of the first `count` items, with a comma between each two.
pub open spec fn items_text(items: Seq<Json>, count: nat) -> Seq<char>
    decreases items, count,
{
    if count == 0 || count > items.len() {
        Seq::empty()
    } else if count == 1 {
        json_text(items[0])
    } else {
        items_text(items, (count - 1) as nat) + ","@ + json_text(items[count - 1])
    }
}

/// The JSON texts of the first `count` entries, with a comma between each
/// two. The text of an entry is its key as a string, a colon and its value.
pub open spec fn entries_text(entries: Seq<(Seq<char>, Json)>, count: nat) -> Seq<char>
    decreases entries, count,
{
    if count == 0 || count > entries.len() {
        Seq::empty()
    } else if count == 1 {
        json_quoted(entries[0].0) + ":"@ + json_text(entries[0].1)
    } else {
        entries_text(entries, (count - 1) as nat) + ","@ + json_quoted(entries[count - 1].0) + ":"@
            + json_text(entries[count - 1].1)
    }
}

/// An entry list and the entries of the object built from it have one model.
pub proof fn lemma_object_view(entries: Vec<(String, JsonValue)>)
    ensures
        JsonValue::Object(entries)@ == Json::Object(entries_view(entries@)),
{
    assert(JsonValue::Object(entries)@->Object_0 =~= entries_view(entries@));
}

/// An item list and the items of the array built from it have one model.
pub proof fn lemma_array_view(items: Vec<JsonValue>)
    ensures
        JsonValue::Array(items)@ == Json::Array(values_view(items@)),
{
    assert(JsonValue::Array(items)@->Array_0 =~= values_view(items@));
}

impl Clone for JsonValue {
    /// A deep copy: the copy has the same model.
    fn clone(&self) -> (r: Self)
        ensures
            r@ == self@,
        decreases self,
    {
        match self {
            JsonValue::Null => JsonValue::Null,
            JsonValue::Bool(b) => JsonValue::Bool(*b),
            JsonValue::Number(text) => JsonValue::Number(text.clone()),
            JsonValue::String(text) => JsonValue::String(text.clone()),
            JsonValue::Array(items) => {
                let copy = clone_values(items);
                proof {
                    lemma_array_view(copy);
                    lemma_array_view(*items);
                }
                JsonValue::Array(copy)
            },
            JsonValue::Object(entries) => {
                let copy = clone_entries(entries);
                proof {
                    lemma_object_view(copy);
                    lemma_object_view(*entries);
                }
                JsonValue::Object(copy)
            },
        }
    }
}

/// A deep copy of a list of values.
pub fn clone_values(items: &Vec<JsonValue>) -> (r: Vec<JsonValue>)
    ensures
        values_view(r@) == values_view(items@),
    decreases items,
{
    let mut copy: Vec<JsonValue> = Vec::new();
    let mut i: usize = 0;
    while i < items.len()
        invariant
            i <= items.len(),
            copy@.len() == i,
            forall|j: int| 0 <= j < items.len() ==> decreases_to!(items => #[trigger] items@[j]),
            forall|j: int| 0 <= j < i ==> (#[trigger] copy@[j])@ == items@[j]@,
        decreases items.len() - i,
    {
        copy.push(items[i].clone());
        i += 1;
    }
    assert(values_view(copy@) =~= values_view(items@));
    copy
}

/// A deep copy of a list of entries.
pub fn clone_entries(entries: &Vec<(String, JsonValue)>) -> (r: Vec<(String, JsonValue)>)
    ensures
        entries_view(r@) == entries_view(entries@),
    decreases entries,
{
    let mut copy: Vec<(String, JsonValue)> = Vec::new();
    let mut i: usize = 0;
    while i < entries.len()
        invariant
            i <= entries.len(),
            copy@.len() == i,
            forall|j: int|
                0 <= j < entries.len() ==> decreases_to!(entries => (#[trigger] entries@[j]).1),
            forall|j: int|
                0 <= j < i ==> (#[trigger] copy@[j]).0@ == entries@[j].0@ && copy@[j].1@
                    == entries@[j].1@,
        decreases entries.len() - i,
    {
        copy.push((entries[i].0.clone(), entries[i].1.clone()));
        i += 1;
    }
    assert(entries_view(copy@) =~= entries_view(entries@));
    copy
}

/// The index of the first entry of `entries` whose key is `key`.
pub fn find_entry(entries: &Vec<(String, JsonValue)>, key: &str) -> (r: Option<usize>)
    ensures
        match r {
            Some(i) => find(entries_view(entries@), key@) == Some(i as int) && i < entries.len(),
            None => find(entries_view(entries@), key@) is None,
        },
{
    let wanted = key.to_owned();
    let mut i: usize = 0;
    while i < entries.len()
        invariant
            i <= entries.len(),
            wanted@ == key@,
            find(entries_view(entries@), key@) == find_from(entries_view(entries@), key@, i as int),
        decreases entries.len() - i,
    {
        if entries[i].0 == wanted {
            return Some(i);
        }
        i += 1;
    }
    None
}

impl JsonValue {
    /// Whether the value is `null`.
    pub fn is_null(&self) -> (r: bool)
        ensures
            r == (self@ == Json::Null),
    {
        match self {
            JsonValue::Null => true,
            _ => false,
        }
    }

    /// The value that an object holds under `key`: that of the first entry
    /// with this key. Nothing when the value is no object or has no such
    /// entry.
    pub fn get(&self, key: &str) -> (r: Option<&JsonValue>)
        ensures
            option_ref_view(r) == self@.get(key@),
    {
        match self {
            JsonValue::Object(entries) => {
                proof {
                    lemma_object_view(*entries);
                }
                match find_entry(entries, key) {
                    Some(i) => Some(&entries[i].1),
                    None => None,
                }
            },
            _ => None,
        }
    }

    /// The text of a string value; nothing for any other value.
    pub fn as_str(&self) -> (r: Option<&str>)
        ensures
            match self@ {
                Json::String(text) => r matches Some(s) && s@ == text,
                _ => r is None,
            },
    {
        match self {
            JsonValue::String(text) => Some(text.as_str()),
            _ => None,
        }
    }

    /// The compact JSON text of the value. The entries of an object are
    /// written in the order in which the value holds them.
    pub fn to_json(&self) -> (r: String)
        ensures
            r@ == json_text(self@),
        decreases self,
    {
        match self {
            JsonValue::Null => String::from_str("null"),
            JsonValue::Bool(b) => if *b {
                String::from_str("true")
            } else {
                String::from_str("false")
            },
            JsonValue::Number(text) => text.clone(),
            JsonValue::String(text) => json_quote(text.as_str()),
            JsonValue::Array(items) => {
                let ghost models = values_view(items@);
                let mut out = String::from_str("[");
                let mut i: usize = 0;
                while i < items.len()
                    invariant
                        i <= items.len(),
                        models == values_view(items@),
                        out@ == "["@ + items_text(models, i as nat),
                        forall|j: int|
                            0 <= j < items.len() ==> decreases_to!(self => #[trigger] items@[j]),
                    decreases items.len() - i,
                {
                    if i > 0 {
                        out.append(",");
                    }
                    let part = items[i].to_json();
                    out.append(part.as_str());
                    assert(out@ =~= "["@ + items_text(models, (i + 1) as nat));
                    i += 1;
                }
                out.append("]");
                proof {
                    lemma_array_view(*items);
                }
                out
            },
            JsonValue::Object(entries) => {
                let ghost models = entries_view(entries@);
                let mut out = String::from_str("{");
                let mut i: usize = 0;
                while i < entries.len()
                    invariant
                        i <= entries.len(),
                        models == entries_view(entries@),
                        out@ == "{"@ + entries_text(models, i as nat),
                        forall|j: int|
                            0 <= j < entries.len() ==> decreases_to!(self => (#[trigger] entries@[j]).1),
                    decreases entries.len() - i,
                {
                    if i > 0 {
                        out.append(",");
                    }
                    let key = json_quote(entries[i].0.as_str());
                    out.append(key.as_str());
                    out.append(":");
                    let part = entries[i].1.to_json();
                    out.append(part.as_str());
                    assert(out@ =~= "{"@ + entries_text(models, (i + 1) as nat));
                    i += 1;
                }
                out.append("}");
                proof {
                    lemma_object_view(*entries);
                }
                out
            },
        }
    }
}

} // verus!
