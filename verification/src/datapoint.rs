//! The canonical datapoint, and the rule that brings a raw record into it.

use vstd::prelude::*;

use crate::bindings::{is_random_uuid, uuid_new_v4, uuid_parse, uuid_parse_str};
use crate::json::{
    clone_entries, entries_view, find_from, lemma_lookup_well_formed, lemma_object_view, lookup,
    option_view, well_formed_entries, Json, JsonValue,
};
use crate::text::str_equal;

verus! {

/// A record in canonical shape.
#[derive(Debug, PartialEq, Eq)]
pub struct Datapoint {
    /// The identifier of the datapoint, a 128-bit UUID.
    pub id: u128,
    /// The identifier of the dataset that owns the datapoint.
    pub dataset_id: u128,
    /// The payload.
    pub data: JsonValue,
    /// The label or expected output, where the record gave one.
    pub target: Option<JsonValue>,
    /// The metadata, as entries from key to value. It stands for a mapping:
    /// a well-formed datapoint has no key twice.
    pub metadata: Vec<(String, JsonValue)>,
}

/// A record as the store returns it.
#[derive(Debug, PartialEq, Eq)]
pub struct DBDatapoint {
    pub id: u128,
    pub dataset_id: u128,
    pub data: JsonValue,
    pub target: Option<JsonValue>,
    /// The metadata as one JSON value, an object where there is any.
    pub metadata: JsonValue,
}

/// The mathematical model of a datapoint.
pub struct DatapointModel {
    pub id: u128,
    pub dataset_id: u128,
    pub data: Json,
    pub target: Option<Json>,
    pub metadata: Seq<(Seq<char>, Json)>,
}

impl View for Datapoint {
    type V = DatapointModel;

    open spec fn view(&self) -> DatapointModel {
        DatapointModel {
            id: self.id,
            dataset_id: self.dataset_id,
            data: self.data@,
            target: option_view(self.target),
            metadata: entries_view(self.metadata@),
        }
    }
}

/// What a raw record gives to a datapoint besides the identifiers.
pub struct Fields {
    pub data: Json,
    pub target: Option<Json>,
    pub metadata: Seq<(Seq<char>, Json)>,
}

impl Fields {
    /// Whether the payload, the target and the metadata are well formed: the
    /// metadata is a mapping, and so is every object in any of the three.
    pub open spec fn well_formed(self) -> bool {
        &&& self.data.well_formed()
        &&& self.target matches Some(target) ==> target.well_formed()
        &&& well_formed_entries(self.metadata)
    }
}

impl DatapointModel {
    /// Whether the payload, the target and the metadata are well formed: the
    /// metadata is a mapping, and so is every object in any of the three.
    pub open spec fn well_formed(self) -> bool {
        (Fields { data: self.data, target: self.target, metadata: self.metadata }).well_formed()
    }
}

/// Whether a key is one of the four that a canonical record may have.
pub open spec fn is_recognized_key(key: Seq<char>) -> bool {
    key == "data"@ || key == "target"@ || key == "metadata"@ || key == "id"@
}

/// Whether every key of the entries is a recognized one.
pub open spec fn only_recognized_keys(entries: Seq<(Seq<char>, Json)>) -> bool {
    forall|i: int| 0 <= i < entries.len() ==> is_recognized_key((#[trigger] entries[i]).0)
}

/// Whether the entries of an object have the canonical shape: a `data`
/// entry, and no key but the recognized ones.
pub open spec fn is_canonical(entries: Seq<(Seq<char>, Json)>) -> bool {
    lookup(entries, "data"@) is Some && only_recognized_keys(entries)
}

/// The metadata that a value stands for: the entries of an object, and no
/// entries for any other value.
pub open spec fn metadata_of(value: Json) -> Seq<(Seq<char>, Json)> {
    match value {
        Json::Object(entries) => entries,
        _ => Seq::empty(),
    }
}

/// The record that holds `value` as its whole payload.
pub open spec fn wrapped(value: Json) -> Fields {
    Fields { data: value, target: None, metadata: Seq::empty() }
}

/// The fields that a raw record is normalised to; nothing for `null`.
///
/// An object in canonical shape gives its `data`, its `target` where it has
/// one, and the entries of its `metadata` where that is an object. Every
/// other value is itself the payload.
pub open spec fn normalized(raw: Json) -> Option<Fields> {
    match raw {
        Json::Null => None,
        Json::Object(entries) => if is_canonical(entries) {
            Some(
                Fields {
                    data: lookup(entries, "data"@)->Some_0,
                    target: lookup(entries, "target"@),
                    metadata: match lookup(entries, "metadata"@) {
                        Some(value) => metadata_of(value),
                        None => Seq::empty(),
                    },
                },
            )
        } else {
            Some(wrapped(raw))
        },
        _ => Some(wrapped(raw)),
    }
}

/// The text that a raw record offers as its identifier: the string under
/// the key `id` of an object.
pub open spec fn id_text(raw: Json) -> Option<Seq<char>> {
    match raw.get("id"@) {
        Some(Json::String(text)) => Some(text),
        _ => None,
    }
}

/// The identifier that a raw record brings with it: what its `id` text
/// reads as, where it has one and that is a UUID.
pub open spec fn given_id(raw: Json) -> Option<u128> {
    match id_text(raw) {
        Some(text) => uuid_parse(text),
        None => None,
    }
}

/// The model of an optional datapoint.
pub open spec fn option_datapoint_view(datapoint: Option<Datapoint>) -> Option<DatapointModel> {
    match datapoint {
        Some(d) => Some(d@),
        None => None,
    }
}

/// Whether `result` is what a raw record may be normalised to in the
/// dataset `dataset_id`.
///
/// `null` gives nothing. Any other record gives a datapoint of the dataset
/// with the fields that the record is normalised to. Its identifier is the
/// one that the record brings with it and, where it brings none, some
/// random UUID.
pub open spec fn normalizes_to(dataset_id: u128, raw: Json, result: Option<DatapointModel>) -> bool {
    match normalized(raw) {
        Some(fields) => {
            &&& result matches Some(datapoint)
            &&& datapoint.dataset_id == dataset_id
            &&& datapoint.data == fields.data
            &&& datapoint.target == fields.target
            &&& datapoint.metadata == fields.metadata
            &&& match given_id(raw) {
                Some(id) => datapoint.id == id,
                None => is_random_uuid(datapoint.id),
            }
        },
        None => result is None,
    }
}

/// The object that writes the fields of a datapoint down in canonical shape:
/// the identifier as a string under `id`, the payload under `data`, the
/// target under `target` where there is one, the metadata as an object
/// under `metadata`.
pub open spec fn canonical_object(id: Seq<char>, fields: Fields) -> Json {
    Json::Object(
        seq![("id"@, Json::String(id)), ("data"@, fields.data)] + match fields.target {
            Some(target) => seq![("target"@, target)],
            None => Seq::empty(),
        } + seq![("metadata"@, Json::Object(fields.metadata))],
    )
}

/// The four recognized keys are four different texts.
pub proof fn lemma_recognized_keys_differ()
    ensures
        "data"@ != "target"@,
        "data"@ != "metadata"@,
        "data"@ != "id"@,
        "target"@ != "metadata"@,
        "target"@ != "id"@,
        "metadata"@ != "id"@,
{
    reveal_strlit("data");
    reveal_strlit("target");
    reveal_strlit("metadata");
    reveal_strlit("id");
    assert("data"@.len() == 4);
    assert("target"@.len() == 6);
    assert("metadata"@.len() == 8);
    assert("id"@.len() == 2);
}

/// What a well-formed record is normalised to is well formed.
pub proof fn lemma_normalized_well_formed(raw: Json)
    requires
        raw.well_formed(),
    ensures
        normalized(raw) matches Some(fields) ==> fields.well_formed(),
{
    assert(well_formed_entries(Seq::empty()));
    match raw {
        Json::Object(entries) => {
            lemma_lookup_well_formed(entries, "data"@);
            lemma_lookup_well_formed(entries, "target"@);
            lemma_lookup_well_formed(entries, "metadata"@);
        },
        _ => {},
    }
}

/// Only `null` is dropped: every other value is normalised to some fields.
pub proof fn lemma_only_null_is_dropped(raw: Json)
    ensures
        normalized(raw) is None <==> raw == Json::Null,
{
}

/// A value that is neither `null` nor an object is itself the payload, with
/// no target and no metadata, and brings no identifier.
pub proof fn lemma_plain_value_is_wrapped(raw: Json)
    requires
        raw != Json::Null,
        !(raw is Object),
    ensures
        normalized(raw) == Some(wrapped(raw)),
        given_id(raw) is None,
{
}

/// An object without a `data` entry is itself the payload.
pub proof fn lemma_object_without_data_is_wrapped(entries: Seq<(Seq<char>, Json)>)
    requires
        lookup(entries, "data"@) is None,
    ensures
        normalized(Json::Object(entries)) == Some(wrapped(Json::Object(entries))),
{
}

/// An object with a key that is not recognized is itself the payload,
/// whether or not it has a `data` entry: nothing of it is left out.
pub proof fn lemma_object_with_other_key_is_wrapped(entries: Seq<(Seq<char>, Json)>, i: int)
    requires
        0 <= i < entries.len(),
        !is_recognized_key(entries[i].0),
    ensures
        normalized(Json::Object(entries)) == Some(wrapped(Json::Object(entries))),
{
}

/// An object in canonical shape gives its fields as they are: the value
/// under `data`, the value under `target` where there is one, and the
/// entries of the object under `metadata`.
pub proof fn lemma_canonical_object_is_taken_apart(entries: Seq<(Seq<char>, Json)>)
    requires
        is_canonical(entries),
    ensures
        normalized(Json::Object(entries)) matches Some(fields) && {
            &&& Some(fields.data) == lookup(entries, "data"@)
            &&& fields.target == lookup(entries, "target"@)
            &&& match lookup(entries, "metadata"@) {
                Some(Json::Object(metadata)) => fields.metadata == metadata,
                _ => fields.metadata == Seq::<(Seq<char>, Json)>::empty(),
            }
        },
{
}

/// The payload of a normalised record is `null` only where the record is an
/// object in canonical shape that holds `null` under `data`.
pub proof fn lemma_null_payload_is_given(raw: Json)
    requires
        normalized(raw) matches Some(fields) && fields.data == Json::Null,
    ensures
        raw matches Json::Object(entries) && is_canonical(entries) && lookup(entries, "data"@)
            == Some(Json::Null),
{
}

/// Writing fields down in canonical shape and normalising the object gives
/// the same fields back.
pub proof fn lemma_canonical_round_trip(id: Seq<char>, fields: Fields)
    ensures
        normalized(canonical_object(id, fields)) == Some(fields),
        id_text(canonical_object(id, fields)) == Some(id),
{
    lemma_recognized_keys_differ();
    reveal_with_fuel(find_from, 5);
    let entries = canonical_object(id, fields)->Object_0;
    assert(entries[0] == ("id"@, Json::String(id)));
    assert(entries[1] == ("data"@, fields.data));
    match fields.target {
        Some(target) => {
            assert(entries.len() == 4);
            assert(entries[2] == ("target"@, target));
            assert(entries[3] == ("metadata"@, Json::Object(fields.metadata)));
        },
        None => {
            assert(entries.len() == 3);
            assert(entries[2] == ("metadata"@, Json::Object(fields.metadata)));
        },
    }
    assert(only_recognized_keys(entries));
}

/// Normalising one record twice gives the same datapoint where the record
/// brings a valid identifier with it. Where it brings none, the two
/// datapoints differ at most in their identifiers.
pub proof fn lemma_normalizing_again(
    dataset_id: u128,
    raw: Json,
    first: Option<DatapointModel>,
    second: Option<DatapointModel>,
)
    requires
        normalizes_to(dataset_id, raw, first),
        normalizes_to(dataset_id, raw, second),
    ensures
        given_id(raw) is Some ==> first == second,
        first is Some <==> second is Some,
        first matches Some(a) ==> second matches Some(b) ==> a == (DatapointModel { id: a.id, ..b }),
{
}

/// Normalising what a canonical object was normalised to, written down in
/// canonical shape again, changes nothing.
pub proof fn lemma_normalizing_twice(entries: Seq<(Seq<char>, Json)>, id: Seq<char>)
    requires
        is_canonical(entries),
    ensures
        normalized(canonical_object(id, normalized(Json::Object(entries))->Some_0)) == normalized(
            Json::Object(entries),
        ),
{
    lemma_canonical_round_trip(id, normalized(Json::Object(entries))->Some_0);
}

impl DBDatapoint {
    /// Whether the payload, the target and the metadata value are well
    /// formed.
    pub open spec fn well_formed(self) -> bool {
        &&& self.data@.well_formed()
        &&& self.target matches Some(target) ==> target@.well_formed()
        &&& self.metadata@.well_formed()
    }
}

/// The datapoint that a stored record stands for: its fields as they are,
/// and the metadata that its `metadata` value stands for.
pub open spec fn stored_model(row: DBDatapoint) -> DatapointModel {
    DatapointModel {
        id: row.id,
        dataset_id: row.dataset_id,
        data: row.data@,
        target: option_view(row.target),
        metadata: metadata_of(row.metadata@),
    }
}

/// The models of a list of datapoints, in order.
pub open spec fn datapoints_view(datapoints: Seq<Datapoint>) -> Seq<DatapointModel> {
    Seq::new(datapoints.len(), |i: int| datapoints[i]@)
}

/// The datapoints that a list of stored records stands for, in order.
pub open spec fn stored_models(rows: Seq<DBDatapoint>) -> Seq<DatapointModel> {
    Seq::new(rows.len(), |i: int| stored_model(rows[i]))
}

/// The metadata that a value stands for: the entries of an object. Any
/// other value stands for no metadata; this is no error.
pub fn parse_metadata_or_empty(value: &JsonValue) -> (r: Vec<(String, JsonValue)>)
    ensures
        entries_view(r@) == metadata_of(value@),
{
    match value {
        JsonValue::Object(entries) => {
            proof {
                lemma_object_view(*entries);
            }
            clone_entries(entries)
        },
        _ => {
            let none: Vec<(String, JsonValue)> = Vec::new();
            assert(entries_view(none@) =~= Seq::empty());
            none
        },
    }
}

/// Whether a key is one of the four that a canonical record may have.
pub fn recognized_key(key: &str) -> (r: bool)
    ensures
        r == is_recognized_key(key@),
{
    str_equal(key, "data") || str_equal(key, "target") || str_equal(key, "metadata") || str_equal(
        key,
        "id",
    )
}

/// Whether every key of the entries is a recognized one. The four keys are
/// a fixed list, and the answer does not depend on the order of the
/// entries.
pub fn has_only_recognized_keys(entries: &Vec<(String, JsonValue)>) -> (r: bool)
    ensures
        r == only_recognized_keys(entries_view(entries@)),
{
    let mut i: usize = 0;
    while i < entries.len()
        invariant
            i <= entries.len(),
            forall|j: int|
                0 <= j < i ==> is_recognized_key((#[trigger] entries_view(entries@)[j]).0),
        decreases entries.len() - i,
    {
        if !recognized_key(entries[i].0.as_str()) {
            assert(!is_recognized_key(entries_view(entries@)[i as int].0));
            return false;
        }
        i += 1;
    }
    true
}

impl Datapoint {
    /// The text that a raw record offers as its identifier.
    pub fn id_candidate(raw: &JsonValue) -> (r: Option<&str>)
        ensures
            match id_text(raw@) {
                Some(text) => r matches Some(found) && found@ == text,
                None => r is None,
            },
    {
        match raw.get("id") {
            Some(value) => value.as_str(),
            None => None,
        }
    }

    /// Normalises a raw record into a datapoint with the given identifiers;
    /// nothing for `null`.
    pub fn with_id(id: u128, dataset_id: u128, raw: &JsonValue) -> (r: Option<Datapoint>)
        ensures
            match normalized(raw@) {
                Some(fields) => r matches Some(datapoint) && datapoint@ == (DatapointModel {
                    id,
                    dataset_id,
                    data: fields.data,
                    target: fields.target,
                    metadata: fields.metadata,
                }),
                None => r is None,
            },
            raw@.well_formed() ==> (r matches Some(datapoint) ==> datapoint@.well_formed()),
    {
        proof {
            if raw@.well_formed() {
                lemma_normalized_well_formed(raw@);
            }
        }
        match raw {
            JsonValue::Null => None,
            JsonValue::Object(entries) => {
                proof {
                    lemma_object_view(*entries);
                }
                match raw.get("data") {
                    Some(data) => {
                        if has_only_recognized_keys(entries) {
                            let target = match raw.get("target") {
                                Some(value) => Some(value.clone()),
                                None => None,
                            };
                            let metadata = match raw.get("metadata") {
                                Some(value) => parse_metadata_or_empty(value),
                                None => parse_metadata_or_empty(&JsonValue::Null),
                            };
                            Some(Datapoint { id, dataset_id, data: data.clone(), target, metadata })
                        } else {
                            Some(Datapoint::wrapping(id, dataset_id, raw))
                        }
                    },
                    None => Some(Datapoint::wrapping(id, dataset_id, raw)),
                }
            },
            _ => Some(Datapoint::wrapping(id, dataset_id, raw)),
        }
    }

    /// The datapoint that holds `value` as its whole payload.
    fn wrapping(id: u128, dataset_id: u128, value: &JsonValue) -> (r: Datapoint)
        ensures
            r@ == (DatapointModel {
                id,
                dataset_id,
                data: value@,
                target: None,
                metadata: Seq::empty(),
            }),
    {
        let metadata: Vec<(String, JsonValue)> = Vec::new();
        assert(entries_view(metadata@) =~= Seq::empty());
        Datapoint { id, dataset_id, data: value.clone(), target: None, metadata }
    }

    /// Normalises a raw record into a datapoint of the dataset `dataset_id`;
    /// nothing for `null`.
    ///
    /// The identifier is the one that the record brings with it, a string
    /// under `id` that reads as a UUID. Where it brings none, the datapoint
    /// gets a new random one.
    pub fn try_from_raw_value(dataset_id: u128, raw: &JsonValue) -> (r: Option<Datapoint>)
        ensures
            normalizes_to(dataset_id, raw@, option_datapoint_view(r)),
            raw@.well_formed() ==> (r matches Some(datapoint) ==> datapoint@.well_formed()),
    {
        if raw.is_null() {
            return None;
        }
        let given = match Datapoint::id_candidate(raw) {
            Some(text) => uuid_parse_str(text),
            None => None,
        };
        let id = match given {
            Some(id) => id,
            None => uuid_new_v4(),
        };
        Datapoint::with_id(id, dataset_id, raw)
    }
}

impl Clone for Datapoint {
    /// A deep copy: the copy has the same model.
    fn clone(&self) -> (r: Self)
        ensures
            r@ == self@,
    {
        let target = match &self.target {
            Some(value) => Some(value.clone()),
            None => None,
        };
        Datapoint {
            id: self.id,
            dataset_id: self.dataset_id,
            data: self.data.clone(),
            target,
            metadata: clone_entries(&self.metadata),
        }
    }
}

impl From<DBDatapoint> for Datapoint {
    /// The datapoint that a stored record stands for. The store has typed
    /// every field but the metadata, which is read as in a raw record.
    fn from(row: DBDatapoint) -> (r: Datapoint)
        ensures
            r@ == stored_model(row),
            row.well_formed() ==> r@.well_formed(),
    {
        assert(well_formed_entries(Seq::empty()));
        let metadata = parse_metadata_or_empty(&row.metadata);
        Datapoint {
            id: row.id,
            dataset_id: row.dataset_id,
            data: row.data,
            target: row.target,
            metadata,
        }
    }
}

impl vstd::std_specs::convert::FromSpecImpl<DBDatapoint> for Datapoint {
    /// The conversion is stated over models, by the `ensures` of `from`.
    open spec fn obeys_from_spec() -> bool {
        false
    }

    open spec fn from_spec(row: DBDatapoint) -> Datapoint {
        arbitrary()
    }
}

/// The datapoints that a batch of stored records stands for, in order.
pub fn datapoints_from_rows(rows: Vec<DBDatapoint>) -> (r: Vec<Datapoint>)
    ensures
        datapoints_view(r@) == stored_models(rows@),
{
    let ghost all = rows@;
    let mut datapoints: Vec<Datapoint> = Vec::new();
    for row in it: rows
        invariant
            it.seq() == all,
            datapoints@.len() == it.index(),
            forall|j: int| 0 <= j < it.index() ==> (#[trigger] datapoints@[j])@ == stored_model(all[j]),
    {
        datapoints.push(Datapoint::from(row));
    }
    assert(datapoints_view(datapoints@) =~= stored_models(all));
    datapoints
}

} // verus!
