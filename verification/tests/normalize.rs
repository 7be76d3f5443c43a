use datapoints::datapoint::{
    datapoints_from_rows, has_only_recognized_keys, parse_metadata_or_empty, recognized_key,
    DBDatapoint, Datapoint,
};
use datapoints::json::JsonValue;

const DATASET: u128 = 0x0123_4567_89ab_cdef_0123_4567_89ab_cdef;

fn text(s: &str) -> JsonValue {
    JsonValue::String(s.to_string())
}

fn number(s: &str) -> JsonValue {
    JsonValue::Number(s.to_string())
}

fn entries(list: Vec<(&str, JsonValue)>) -> Vec<(String, JsonValue)> {
    list.into_iter().map(|(k, v)| (k.to_string(), v)).collect()
}

fn object(list: Vec<(&str, JsonValue)>) -> JsonValue {
    JsonValue::Object(entries(list))
}

fn is_version_4(id: u128) -> bool {
    id & 0x0000_0000_0000_f000_c000_0000_0000_0000 == 0x0000_0000_0000_4000_8000_0000_0000_0000
}

#[test]
fn object_with_only_data_gives_its_data() {
    let raw = object(vec![("data", number("1"))]);
    let datapoint = Datapoint::try_from_raw_value(DATASET, &raw).unwrap();
    assert_eq!(datapoint.data, number("1"));
    assert_eq!(datapoint.target, None);
    assert_eq!(datapoint.metadata, vec![]);
    assert_eq!(datapoint.dataset_id, DATASET);
}

#[test]
fn object_with_all_recognized_keys_is_taken_apart() {
    let raw = object(vec![
        ("id", text("550e8400-e29b-41d4-a716-446655440000")),
        ("data", object(vec![("question", text("why"))])),
        ("target", JsonValue::Array(vec![number("1"), number("2")])),
        ("metadata", object(vec![("source", text("manual")), ("rank", number("3"))])),
    ]);
    let datapoint = Datapoint::try_from_raw_value(DATASET, &raw).unwrap();
    assert_eq!(datapoint.id, 0x550e8400_e29b_41d4_a716_446655440000);
    assert_eq!(datapoint.dataset_id, DATASET);
    assert_eq!(datapoint.data, object(vec![("question", text("why"))]));
    assert_eq!(datapoint.target, Some(JsonValue::Array(vec![number("1"), number("2")])));
    assert_eq!(
        datapoint.metadata,
        entries(vec![("source", text("manual")), ("rank", number("3"))])
    );
}

#[test]
fn object_with_data_and_target_only() {
    let raw = object(vec![("data", text("in")), ("target", text("out"))]);
    let datapoint = Datapoint::try_from_raw_value(DATASET, &raw).unwrap();
    assert_eq!(datapoint.data, text("in"));
    assert_eq!(datapoint.target, Some(text("out")));
    assert_eq!(datapoint.metadata, vec![]);
}

#[test]
fn null_data_under_the_data_key_is_kept() {
    let raw = object(vec![("data", JsonValue::Null)]);
    let datapoint = Datapoint::try_from_raw_value(DATASET, &raw).unwrap();
    assert_eq!(datapoint.data, JsonValue::Null);
}

#[test]
fn null_target_under_the_target_key_is_kept() {
    let raw = object(vec![("data", number("1")), ("target", JsonValue::Null)]);
    let datapoint = Datapoint::try_from_raw_value(DATASET, &raw).unwrap();
    assert_eq!(datapoint.target, Some(JsonValue::Null));
}

#[test]
fn object_with_an_unrecognized_key_is_wrapped_whole() {
    let raw = object(vec![("data", number("1")), ("extra", JsonValue::Bool(true))]);
    let datapoint = Datapoint::try_from_raw_value(DATASET, &raw).unwrap();
    assert_eq!(datapoint.data, raw);
    assert_eq!(datapoint.target, None);
    assert_eq!(datapoint.metadata, vec![]);
}

#[test]
fn object_with_target_and_an_unrecognized_key_keeps_no_target() {
    let raw = object(vec![
        ("data", number("1")),
        ("target", number("2")),
        ("metadata", object(vec![("k", text("v"))])),
        ("label", text("x")),
    ]);
    let datapoint = Datapoint::try_from_raw_value(DATASET, &raw).unwrap();
    assert_eq!(datapoint.data, raw);
    assert_eq!(datapoint.target, None);
    assert_eq!(datapoint.metadata, vec![]);
}

#[test]
fn object_without_data_is_wrapped_whole() {
    let raw = object(vec![("target", number("2")), ("metadata", object(vec![]))]);
    let datapoint = Datapoint::try_from_raw_value(DATASET, &raw).unwrap();
    assert_eq!(datapoint.data, raw);
    assert_eq!(datapoint.target, None);
    assert_eq!(datapoint.metadata, vec![]);
}

#[test]
fn empty_object_is_wrapped_whole() {
    let raw = object(vec![]);
    let datapoint = Datapoint::try_from_raw_value(DATASET, &raw).unwrap();
    assert_eq!(datapoint.data, raw);
}

#[test]
fn dataset_id_of_the_record_is_not_read() {
    let raw = object(vec![
        ("data", number("1")),
        ("dataset_id", text("550e8400-e29b-41d4-a716-446655440000")),
    ]);
    let datapoint = Datapoint::try_from_raw_value(DATASET, &raw).unwrap();
    assert_eq!(datapoint.dataset_id, DATASET);
    assert_eq!(datapoint.data, raw);
}

#[test]
fn null_yields_no_datapoint() {
    assert_eq!(Datapoint::try_from_raw_value(DATASET, &JsonValue::Null), None);
    assert_eq!(Datapoint::with_id(1, DATASET, &JsonValue::Null), None);
}

#[test]
fn string_is_wrapped_with_a_new_id() {
    let raw = text("x");
    let datapoint = Datapoint::try_from_raw_value(DATASET, &raw).unwrap();
    assert_eq!(datapoint.data, raw);
    assert_eq!(datapoint.target, None);
    assert_eq!(datapoint.metadata, vec![]);
    assert!(is_version_4(datapoint.id));
}

#[test]
fn array_is_wrapped_with_a_new_id() {
    let raw = JsonValue::Array(vec![number("1"), number("2")]);
    let datapoint = Datapoint::try_from_raw_value(DATASET, &raw).unwrap();
    assert_eq!(datapoint.data, raw);
    assert_eq!(datapoint.target, None);
    assert_eq!(datapoint.metadata, vec![]);
    assert!(is_version_4(datapoint.id));
}

#[test]
fn number_is_wrapped_with_a_new_id() {
    let raw = number("5");
    let datapoint = Datapoint::try_from_raw_value(DATASET, &raw).unwrap();
    assert_eq!(datapoint.data, raw);
    assert_eq!(datapoint.target, None);
    assert_eq!(datapoint.metadata, vec![]);
    assert!(is_version_4(datapoint.id));
}

#[test]
fn boolean_is_wrapped() {
    let raw = JsonValue::Bool(false);
    let datapoint = Datapoint::try_from_raw_value(DATASET, &raw).unwrap();
    assert_eq!(datapoint.data, raw);
}

#[test]
fn new_ids_differ_from_call_to_call() {
    let raw = text("x");
    let first = Datapoint::try_from_raw_value(DATASET, &raw).unwrap();
    let second = Datapoint::try_from_raw_value(DATASET, &raw).unwrap();
    assert_ne!(first.id, second.id);
}

#[test]
fn valid_id_is_taken_from_the_record() {
    let raw = object(vec![
        ("id", text("a1a2a3a4-b1b2-c1c2-d1d2-d3d4d5d6d7d8")),
        ("data", number("1")),
    ]);
    let datapoint = Datapoint::try_from_raw_value(DATASET, &raw).unwrap();
    assert_eq!(datapoint.id, 0xa1a2a3a4_b1b2_c1c2_d1d2_d3d4d5d6d7d8);
    assert_eq!(
        datapoint.id,
        uuid::Uuid::parse_str("a1a2a3a4-b1b2-c1c2-d1d2-d3d4d5d6d7d8").unwrap().as_u128()
    );
    assert_eq!(datapoint.data, number("1"));
}

#[test]
fn same_record_with_a_valid_id_gives_the_same_id_again() {
    let raw = object(vec![
        ("id", text("a1a2a3a4-b1b2-c1c2-d1d2-d3d4d5d6d7d8")),
        ("data", number("1")),
    ]);
    let first = Datapoint::try_from_raw_value(DATASET, &raw).unwrap();
    let second = Datapoint::try_from_raw_value(DATASET, &raw).unwrap();
    assert_eq!(first, second);
}

#[test]
fn id_without_hyphens_is_taken_too() {
    let raw = object(vec![("id", text("a1a2a3a4b1b2c1c2d1d2d3d4d5d6d7d8")), ("data", number("1"))]);
    let datapoint = Datapoint::try_from_raw_value(DATASET, &raw).unwrap();
    assert_eq!(datapoint.id, 0xa1a2a3a4_b1b2_c1c2_d1d2_d3d4d5d6d7d8);
}

#[test]
fn invalid_id_gives_a_new_one() {
    let raw = object(vec![("id", text("not-a-uuid")), ("data", number("1"))]);
    let datapoint = Datapoint::try_from_raw_value(DATASET, &raw).unwrap();
    assert!(is_version_4(datapoint.id));
    assert_eq!(datapoint.data, number("1"));
    assert_eq!(datapoint.target, None);
}

#[test]
fn id_that_is_no_string_gives_a_new_one() {
    let raw = object(vec![("id", number("7")), ("data", number("1"))]);
    let datapoint = Datapoint::try_from_raw_value(DATASET, &raw).unwrap();
    assert!(is_version_4(datapoint.id));
    assert_eq!(datapoint.data, number("1"));
}

#[test]
fn id_of_a_wrapped_object_is_still_taken() {
    let raw = object(vec![
        ("id", text("a1a2a3a4-b1b2-c1c2-d1d2-d3d4d5d6d7d8")),
        ("question", text("why")),
    ]);
    let datapoint = Datapoint::try_from_raw_value(DATASET, &raw).unwrap();
    assert_eq!(datapoint.id, 0xa1a2a3a4_b1b2_c1c2_d1d2_d3d4d5d6d7d8);
    assert_eq!(datapoint.data, raw);
}

#[test]
fn id_candidate_is_the_string_under_id() {
    let raw = object(vec![("id", text("abc")), ("data", number("1"))]);
    assert_eq!(Datapoint::id_candidate(&raw), Some("abc"));
    assert_eq!(Datapoint::id_candidate(&object(vec![("id", number("1"))])), None);
    assert_eq!(Datapoint::id_candidate(&object(vec![("data", number("1"))])), None);
    assert_eq!(Datapoint::id_candidate(&text("abc")), None);
}

#[test]
fn with_id_uses_the_given_identifiers() {
    let raw = object(vec![("id", text("a1a2a3a4-b1b2-c1c2-d1d2-d3d4d5d6d7d8")), ("data", text("d"))]);
    let datapoint = Datapoint::with_id(42, 43, &raw).unwrap();
    assert_eq!(
        datapoint,
        Datapoint { id: 42, dataset_id: 43, data: text("d"), target: None, metadata: vec![] }
    );
}

#[test]
fn metadata_that_is_no_object_gives_none() {
    let raw = object(vec![("data", number("1")), ("metadata", text("oops"))]);
    let datapoint = Datapoint::try_from_raw_value(DATASET, &raw).unwrap();
    assert_eq!(datapoint.data, number("1"));
    assert_eq!(datapoint.metadata, vec![]);
    let raw = object(vec![("data", number("1")), ("metadata", JsonValue::Null)]);
    let datapoint = Datapoint::try_from_raw_value(DATASET, &raw).unwrap();
    assert_eq!(datapoint.metadata, vec![]);
    let raw = object(vec![("data", number("1")), ("metadata", JsonValue::Array(vec![]))]);
    let datapoint = Datapoint::try_from_raw_value(DATASET, &raw).unwrap();
    assert_eq!(datapoint.metadata, vec![]);
}

#[test]
fn parse_metadata_or_empty_takes_the_entries_of_an_object() {
    let value = object(vec![("a", number("1")), ("b", object(vec![("c", JsonValue::Null)]))]);
    assert_eq!(
        parse_metadata_or_empty(&value),
        entries(vec![("a", number("1")), ("b", object(vec![("c", JsonValue::Null)]))])
    );
    assert_eq!(parse_metadata_or_empty(&JsonValue::Null), vec![]);
    assert_eq!(parse_metadata_or_empty(&number("1")), vec![]);
    assert_eq!(parse_metadata_or_empty(&JsonValue::Bool(true)), vec![]);
}

#[test]
fn recognized_keys_are_the_four() {
    assert!(recognized_key("data"));
    assert!(recognized_key("target"));
    assert!(recognized_key("metadata"));
    assert!(recognized_key("id"));
    assert!(!recognized_key("Data"));
    assert!(!recognized_key("dataset_id"));
    assert!(!recognized_key(""));
    assert!(has_only_recognized_keys(&entries(vec![("id", JsonValue::Null), ("data", JsonValue::Null)])));
    assert!(has_only_recognized_keys(&entries(vec![])));
    assert!(!has_only_recognized_keys(&entries(vec![("data", JsonValue::Null), ("x", JsonValue::Null)])));
}

#[test]
fn canonical_output_normalizes_to_itself() {
    let raw = object(vec![
        ("data", object(vec![("q", text("why"))])),
        ("target", text("because")),
        ("metadata", object(vec![("k", text("v"))])),
    ]);
    let first = Datapoint::try_from_raw_value(DATASET, &raw).unwrap();
    let written = object(vec![
        ("id", text(&uuid::Uuid::from_u128(first.id).to_string())),
        ("data", first.data.clone()),
        ("target", first.target.clone().unwrap()),
        ("metadata", JsonValue::Object(first.metadata.clone())),
    ]);
    let second = Datapoint::try_from_raw_value(DATASET, &written).unwrap();
    assert_eq!(first, second);
}

#[test]
fn datapoint_clone_is_equal() {
    let raw = object(vec![
        ("data", object(vec![("q", text("why"))])),
        ("target", text("because")),
        ("metadata", object(vec![("k", text("v"))])),
    ]);
    let datapoint = Datapoint::with_id(1, 2, &raw).unwrap();
    assert_eq!(datapoint.clone(), datapoint);
}

#[test]
fn first_data_entry_is_the_payload() {
    let raw = object(vec![("data", number("1")), ("data", number("2"))]);
    let datapoint = Datapoint::with_id(1, 2, &raw).unwrap();
    assert_eq!(datapoint.data, number("1"));
}

#[test]
fn stored_row_becomes_a_datapoint() {
    let row = DBDatapoint {
        id: 7,
        dataset_id: 8,
        data: object(vec![("extra", number("1")), ("data", number("2"))]),
        target: Some(text("t")),
        metadata: object(vec![("k", text("v"))]),
    };
    let datapoint = Datapoint::from(row);
    assert_eq!(
        datapoint,
        Datapoint {
            id: 7,
            dataset_id: 8,
            data: object(vec![("extra", number("1")), ("data", number("2"))]),
            target: Some(text("t")),
            metadata: entries(vec![("k", text("v"))]),
        }
    );
}

#[test]
fn stored_rows_keep_their_order_and_default_their_metadata() {
    let rows = vec![
        DBDatapoint { id: 1, dataset_id: 9, data: text("a"), target: None, metadata: JsonValue::Null },
        DBDatapoint { id: 2, dataset_id: 9, data: text("b"), target: None, metadata: text("bad") },
    ];
    let datapoints = datapoints_from_rows(rows);
    assert_eq!(
        datapoints,
        vec![
            Datapoint { id: 1, dataset_id: 9, data: text("a"), target: None, metadata: vec![] },
            Datapoint { id: 2, dataset_id: 9, data: text("b"), target: None, metadata: vec![] },
        ]
    );
    assert_eq!(datapoints_from_rows(vec![]), vec![]);
}
