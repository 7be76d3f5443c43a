//! What this library takes on trust from the crates it calls: `serde_json`,
//! `serde_jsonlines`, `csv` and `uuid`.
//!
//! Nothing in this file is proved. Each item states what the outside
//! function is taken to return, and the rest of the library is verified
//! against these statements alone.

use vstd::prelude::*;

use crate::json::{Json, JsonValue};

verus! {

/// `serde_json::Value`, carried from a parser to `value_from_serde`.
#[verifier::external_type_specification]
#[verifier::external_body]
pub struct ExSerdeValue(serde_json::Value);

/// `serde_json::Error`.
#[verifier::external_type_specification]
#[verifier::external_body]
pub struct ExSerdeError(serde_json::Error);

/// `csv::Error`.
#[verifier::external_type_specification]
#[verifier::external_body]
pub struct ExCsvError(csv::Error);

/// `std::io::Error`.
#[verifier::external_type_specification]
#[verifier::external_body]
pub struct ExIoError(std::io::Error);

/// What a `serde_json::Value` holds, as a model.
pub uninterp spec fn serde_model(value: serde_json::Value) -> Json;

/// The message that a `serde_json::Error` writes of itself.
pub uninterp spec fn serde_error_message(error: serde_json::Error) -> Seq<char>;

/// The message that a `std::io::Error` writes of itself.
pub uninterp spec fn io_error_message(error: std::io::Error) -> Seq<char>;

/// The message that a `csv::Error` writes of itself.
pub uninterp spec fn csv_error_message(error: csv::Error) -> Seq<char>;

/// What `serde_json::from_slice` reads from a buffer as one JSON document,
/// or the message of the error that it reports.
pub uninterp spec fn json_document(bytes: Seq<u8>) -> Result<Json, Seq<char>>;

/// What `serde_jsonlines::JsonLinesReader::read_all` yields for a buffer: one
/// item for each line, the line's value or the message of the error that it
/// reports for the line.
pub uninterp spec fn json_lines(bytes: Seq<u8>) -> Seq<Result<Json, Seq<char>>>;

/// The fields of the first record that `csv::Reader::headers` reads from a
/// buffer, or the message of the error that it reports.
pub uninterp spec fn csv_header(bytes: Seq<u8>) -> Result<Seq<Seq<char>>, Seq<char>>;

/// What `csv::Reader::records` yields for a buffer, after the first record:
/// for each record its fields, or the message of the error that it reports
/// for the record.
pub uninterp spec fn csv_records(bytes: Seq<u8>) -> Seq<Result<Seq<Seq<char>>, Seq<char>>>;

/// The 128-bit value that `uuid::Uuid::parse_str` reads from a text; nothing
/// where it reports an error.
pub uninterp spec fn uuid_parse(text: Seq<char>) -> Option<u128>;

/// The JSON string literal that `serde_json` writes for a text: quoted, with
/// its escapes.
pub uninterp spec fn json_quoted(text: Seq<char>) -> Seq<char>;

/// The characters of each string of a list, in order.
pub open spec fn texts(strings: Seq<String>) -> Seq<Seq<char>> {
    Seq::new(strings.len(), |i: int| strings[i]@)
}

/// Whether parsed lines are the given items, one for one: a value with its
/// model, an error with its message.
pub open spec fn lines_are(
    lines: Seq<Result<serde_json::Value, std::io::Error>>,
    items: Seq<Result<Json, Seq<char>>>,
) -> bool {
    &&& lines.len() == items.len()
    &&& forall|i: int|
        0 <= i < lines.len() ==> match #[trigger] lines[i] {
            Ok(value) => items[i] == Ok::<Json, Seq<char>>(serde_model(value)),
            Err(error) => items[i] == Err::<Json, Seq<char>>(io_error_message(error)),
        }
}

/// Whether parsed records are the given items, one for one: a record with
/// its fields, an error with its message.
pub open spec fn records_are(
    records: Seq<Result<Vec<String>, csv::Error>>,
    items: Seq<Result<Seq<Seq<char>>, Seq<char>>>,
) -> bool {
    &&& records.len() == items.len()
    &&& forall|i: int|
        0 <= i < records.len() ==> match #[trigger] records[i] {
            Ok(fields) => items[i] == Ok::<Seq<Seq<char>>, Seq<char>>(texts(fields@)),
            Err(error) => items[i] == Err::<Seq<Seq<char>>, Seq<char>>(csv_error_message(error)),
        }
}

/// Whether a 128-bit value has the version and variant bits of a random
/// (version 4) UUID.
pub open spec fn is_random_uuid(id: u128) -> bool {
    id & 0x0000_0000_0000_f000_c000_0000_0000_0000 == 0x0000_0000_0000_4000_8000_0000_0000_0000
}

/// `serde_json::from_slice` at `serde_json::Value`: parses the whole buffer
/// as one JSON document. The result is a function of the bytes alone, the
/// error too.
#[verifier::external_body]
pub(crate) fn json_from_slice(bytes: &[u8]) -> (r: Result<serde_json::Value, serde_json::Error>)
    ensures
        match r {
            Ok(value) => json_document(bytes@) == Ok::<Json, Seq<char>>(serde_model(value)),
            Err(error) => json_document(bytes@) == Err::<Json, Seq<char>>(
                serde_error_message(error),
            ),
        },
{
    serde_json::from_slice::<serde_json::Value>(bytes)
}

/// `serde_jsonlines::JsonLinesReader::read_all` at `serde_json::Value`, over
/// a buffer in memory: one item for each line, in order, each the line's
/// value or the error that reading or parsing it gave. The result is a
/// function of the bytes alone.
#[verifier::external_body]
pub(crate) fn json_lines_read_all(bytes: &[u8]) -> (r: Vec<
    Result<serde_json::Value, std::io::Error>,
>)
    ensures
        lines_are(r@, json_lines(bytes@)),
{
    serde_jsonlines::JsonLinesReader::new(std::io::BufReader::new(std::io::Cursor::new(bytes)))
        .read_all::<serde_json::Value>()
        .collect()
}

/// Takes a `serde_json::Value` apart, variant by variant, into a value of
/// this library: a number becomes the text that `serde_json::Number`'s
/// `Display` writes, an object the entries that `serde_json::Map::iter`
/// yields. This states what `serde_model` is. A `serde_json::Map` holds each
/// key once, so the result is well formed.
#[verifier::external_body]
pub(crate) fn value_from_serde(value: &serde_json::Value) -> (r: JsonValue)
    ensures
        r@ == serde_model(*value),
        r@.well_formed(),
{
    match value {
        serde_json::Value::Null => JsonValue::Null,
        serde_json::Value::Bool(b) => JsonValue::Bool(*b),
        serde_json::Value::Number(n) => JsonValue::Number(n.to_string()),
        serde_json::Value::String(s) => JsonValue::String(s.clone()),
        serde_json::Value::Array(a) => JsonValue::Array(a.iter().map(value_from_serde).collect()),
        serde_json::Value::Object(o) => JsonValue::Object(
            o.iter().map(|(k, v)| (k.clone(), value_from_serde(v))).collect(),
        ),
    }
}

/// `serde_json::Error`'s `Display`: the message of the error, which is a
/// function of the error alone.
#[verifier::external_body]
pub(crate) fn serde_error_text(error: &serde_json::Error) -> (r: String)
    ensures
        r@ == serde_error_message(*error),
{
    error.to_string()
}

/// `std::io::Error`'s `Display`: the message of the error, which is a
/// function of the error alone.
#[verifier::external_body]
pub(crate) fn io_error_text(error: &std::io::Error) -> (r: String)
    ensures
        r@ == io_error_message(*error),
{
    error.to_string()
}

/// `csv::Error`'s `Display`: the message of the error, which is a function
/// of the error alone.
#[verifier::external_body]
pub(crate) fn csv_error_text(error: &csv::Error) -> (r: String)
    ensures
        r@ == csv_error_message(*error),
{
    error.to_string()
}

/// `csv::Reader::headers` on a reader that `csv::Reader::from_reader` makes
/// over the buffer: the fields of the first record, or the error that
/// reading it gave. The result is a function of the bytes alone, the error
/// too.
#[verifier::external_body]
pub(crate) fn csv_read_header(bytes: &[u8]) -> (r: Result<Vec<String>, csv::Error>)
    ensures
        match r {
            Ok(names) => csv_header(bytes@) == Ok::<Seq<Seq<char>>, Seq<char>>(texts(names@)),
            Err(error) => csv_header(bytes@) == Err::<Seq<Seq<char>>, Seq<char>>(
                csv_error_message(error),
            ),
        },
{
    match csv::Reader::from_reader(bytes).headers() {
        Ok(names) => Ok(names.iter().map(|name| name.to_string()).collect()),
        Err(error) => Err(error),
    }
}

/// `csv::Reader::records` on a reader that `csv::Reader::from_reader` makes
/// over the buffer: one item for each record after the first, in order, each
/// the record's fields or the error that reading it gave. The result is a
/// function of the bytes alone.
#[verifier::external_body]
pub(crate) fn csv_read_records(bytes: &[u8]) -> (r: Vec<Result<Vec<String>, csv::Error>>)
    ensures
        records_are(r@, csv_records(bytes@)),
{
    csv::Reader::from_reader(bytes)
        .records()
        .map(|record| record.map(|fields| fields.iter().map(|field| field.to_string()).collect()))
        .collect()
}

/// `uuid::Uuid::parse_str`, the identifier given as its 128-bit value. The
/// result is a function of the text alone.
#[verifier::external_body]
pub(crate) fn uuid_parse_str(text: &str) -> (r: Option<u128>)
    ensures
        r == uuid_parse(text@),
{
    match uuid::Uuid::parse_str(text) {
        Ok(id) => Some(id.as_u128()),
        Err(_) => None,
    }
}

/// `uuid::Uuid::new_v4`, the identifier given as its 128-bit value: random
/// but for the version and variant bits, which the function sets. Two calls
/// need not agree. The function panics where the system has no random bytes
/// to give.
#[verifier::external_body]
pub(crate) fn uuid_new_v4() -> (r: u128)
    ensures
        is_random_uuid(r),
{
    uuid::Uuid::new_v4().as_u128()
}

/// `serde_json::Value`'s `Display` for a string value: the text as a JSON
/// string literal. The result is a function of the text alone.
#[verifier::external_body]
pub(crate) fn json_quote(text: &str) -> (r: String)
    ensures
        r@ == json_quoted(text@),
{
    serde_json::Value::String(text.to_string()).to_string()
}

} // verus!
