//! Decoders from the bytes of a file to a sequence of records.

use vstd::prelude::*;

use crate::bindings::{
    csv_error_text, csv_header, csv_read_header, csv_read_records, csv_records, io_error_text,
    json_document, json_from_slice, json_lines, json_lines_read_all, lines_are, records_are,
    serde_error_text, texts, value_from_serde,
};
use crate::error::DecodeError;
use crate::format::{format_of, FileFormat};
use crate::json::{
    all_well_formed, distinct_keys, entries_view, find_entry, lemma_array_view,
    lemma_object_view, lemma_upsert_distinct, lemma_upsert_lookup, lookup, upsert, values_view,
    Json, JsonValue,
};

verus! {

/// The items of a JSON document that is an array.
pub fn array_items(document: JsonValue) -> (r: Result<Vec<JsonValue>, DecodeError>)
    ensures
        match document@ {
            Json::Array(items) => r matches Ok(values) && values_view(values@) == items,
            _ => r matches Err(DecodeError::NotAnArray),
        },
        document@.well_formed() ==> (r matches Ok(values) ==> all_well_formed(values_view(values@))),
{
    match document {
        JsonValue::Array(items) => {
            proof {
                lemma_array_view(items);
            }
            Ok(items)
        },
        _ => Err(DecodeError::NotAnArray),
    }
}

/// Reads a buffer that holds one JSON document, an array, into the items of
/// the array, in order.
///
/// A buffer that is no JSON document gives `DecodeError::Json` with what
/// the parser said of it, a document that is no array
/// `DecodeError::NotAnArray`.
pub fn read_bytes_json(bytes: &Vec<u8>) -> (r: Result<Vec<JsonValue>, DecodeError>)
    ensures
        match json_document(bytes@) {
            Ok(Json::Array(items)) => r matches Ok(values) && values_view(values@) == items,
            Ok(_) => r matches Err(DecodeError::NotAnArray),
            Err(message) => r matches Err(DecodeError::Json { cause }) && cause@ == message,
        },
        r matches Ok(values) ==> all_well_formed(values_view(values@)),
{
    match json_from_slice(bytes.as_slice()) {
        Ok(parsed) => array_items(value_from_serde(&parsed)),
        Err(error) => Err(DecodeError::Json { cause: serde_error_text(&error) }),
    }
}

/// The byte that ends a line.
pub const LINE_BREAK: u8 = 10;

/// Whether an empty line starts at a place of a buffer: a line break stands
/// there, at the start of the buffer or right after another line break.
pub open spec fn is_empty_line(bytes: Seq<u8>, at: int) -> bool {
    bytes[at] == LINE_BREAK && (at == 0 || bytes[at - 1] == LINE_BREAK)
}

/// The first `count` bytes of a buffer without its empty lines.
pub open spec fn without_empty_lines_of(bytes: Seq<u8>, count: nat) -> Seq<u8>
    decreases count,
{
    if count == 0 {
        Seq::empty()
    } else if is_empty_line(bytes, count - 1) {
        without_empty_lines_of(bytes, (count - 1) as nat)
    } else {
        without_empty_lines_of(bytes, (count - 1) as nat).push(bytes[count - 1])
    }
}

/// A buffer without its empty lines: every line of length 0 is taken out
/// with the line break that ends it, and every other byte stays in its
/// order.
pub open spec fn without_empty_lines(bytes: Seq<u8>) -> Seq<u8> {
    without_empty_lines_of(bytes, bytes.len())
}

/// What is left of a prefix is empty, or ends with the last byte of the
/// prefix that stays.
proof fn lemma_last_kept(bytes: Seq<u8>, count: nat)
    requires
        count <= bytes.len(),
    ensures
        without_empty_lines_of(bytes, count).len() <= count,
        without_empty_lines_of(bytes, count).len() > 0 ==> count > 0
            && without_empty_lines_of(bytes, count).last() == bytes[count - 1],
        without_empty_lines_of(bytes, count).len() == 0 ==> forall|i: int|
            0 <= i < count ==> bytes[i] == LINE_BREAK,
    decreases count,
{
    if count > 0 {
        lemma_last_kept(bytes, (count - 1) as nat);
        let before = without_empty_lines_of(bytes, (count - 1) as nat);
        if before.len() > 0 && count >= 2 {
            assert(before.last() == bytes[count - 2]);
        }
    }
}

/// No empty line is left in a buffer without its empty lines.
pub proof fn lemma_no_empty_line_left(bytes: Seq<u8>, at: int)
    requires
        0 <= at < without_empty_lines(bytes).len(),
    ensures
        !is_empty_line(without_empty_lines(bytes), at),
{
    lemma_no_empty_line_in(bytes, bytes.len(), at);
}

/// No empty line is left in what stays of a prefix.
proof fn lemma_no_empty_line_in(bytes: Seq<u8>, count: nat, at: int)
    requires
        count <= bytes.len(),
        0 <= at < without_empty_lines_of(bytes, count).len(),
    ensures
        !is_empty_line(without_empty_lines_of(bytes, count), at),
    decreases count,
{
    let kept = without_empty_lines_of(bytes, count);
    let before = without_empty_lines_of(bytes, (count - 1) as nat);
    lemma_last_kept(bytes, (count - 1) as nat);
    if is_empty_line(bytes, count - 1) {
        lemma_no_empty_line_in(bytes, (count - 1) as nat, at);
    } else if at < before.len() {
        lemma_no_empty_line_in(bytes, (count - 1) as nat, at);
        assert(kept[at] == before[at]);
        if at > 0 {
            assert(kept[at - 1] == before[at - 1]);
        }
    } else {
        assert(kept[at] == bytes[count - 1]);
        if at > 0 {
            assert(kept[at - 1] == before.last());
        }
    }
}

/// A buffer that has no empty line stays as it is.
pub proof fn lemma_nothing_to_take_out(bytes: Seq<u8>)
    requires
        forall|at: int| 0 <= at < bytes.len() ==> !is_empty_line(bytes, at),
    ensures
        without_empty_lines(bytes) == bytes,
{
    lemma_prefix_stays(bytes, bytes.len());
    assert(bytes.take(bytes.len() as int) =~= bytes);
}

/// A prefix that has no empty line stays as it is.
proof fn lemma_prefix_stays(bytes: Seq<u8>, count: nat)
    requires
        count <= bytes.len(),
        forall|at: int| 0 <= at < bytes.len() ==> !is_empty_line(bytes, at),
    ensures
        without_empty_lines_of(bytes, count) == bytes.take(count as int),
    decreases count,
{
    if count > 0 {
        lemma_prefix_stays(bytes, (count - 1) as nat);
        assert(!is_empty_line(bytes, count - 1));
        assert(bytes.take(count as int) =~= bytes.take(count - 1).push(bytes[count - 1]));
    } else {
        assert(bytes.take(0) =~= Seq::<u8>::empty());
    }
}

/// Takes the empty lines out of a buffer of lines.
pub fn drop_empty_lines(bytes: &Vec<u8>) -> (r: Vec<u8>)
    ensures
        r@ == without_empty_lines(bytes@),
{
    let mut kept: Vec<u8> = Vec::new();
    let mut at: usize = 0;
    while at < bytes.len()
        invariant
            at <= bytes.len(),
            kept@ == without_empty_lines_of(bytes@, at as nat),
        decreases bytes.len() - at,
    {
        let empty = bytes[at] == LINE_BREAK && (at == 0 || bytes[at - 1] == LINE_BREAK);
        if !empty {
            kept.push(bytes[at]);
        }
        at += 1;
    }
    kept
}

/// The index of the first item at or after `start` that is a failure.
pub open spec fn first_failure_from<T>(items: Seq<Result<T, Seq<char>>>, start: int) -> Option<int>
    decreases items.len() - start,
{
    if start < 0 || start >= items.len() {
        None
    } else if items[start] is Err {
        Some(start)
    } else {
        first_failure_from(items, start + 1)
    }
}

/// The index of the first item that is a failure.
pub open spec fn first_failure<T>(items: Seq<Result<T, Seq<char>>>) -> Option<int> {
    first_failure_from(items, 0)
}

/// The values of a sequence of items of which none is a failure.
pub open spec fn successes<T>(items: Seq<Result<T, Seq<char>>>) -> Seq<T> {
    Seq::new(items.len(), |i: int| items[i]->Ok_0)
}

/// The failures of a sequence of items: the index of each with its
/// message, in order.
pub open spec fn failures<T>(items: Seq<Result<T, Seq<char>>>) -> Seq<(int, Seq<char>)>
    decreases items.len(),
{
    if items.len() == 0 {
        Seq::empty()
    } else {
        match items.last() {
            Ok(_) => failures(items.drop_last()),
            Err(message) => failures(items.drop_last()).push((items.len() - 1, message)),
        }
    }
}

/// `first_failure_from` finds the least index from `start` on whose item is
/// a failure, and none only where no item from `start` on is one.
pub proof fn lemma_first_failure<T>(items: Seq<Result<T, Seq<char>>>, start: int)
    requires
        0 <= start,
    ensures
        match first_failure_from(items, start) {
            Some(k) => {
                &&& start <= k < items.len()
                &&& items[k] is Err
                &&& forall|j: int| start <= j < k ==> items[j] is Ok
            },
            None => forall|j: int| start <= j < items.len() ==> items[j] is Ok,
        },
    decreases items.len() - start,
{
    if start < items.len() && items[start] is Ok {
        lemma_first_failure(items, start + 1);
    }
}

/// `failures` holds exactly the items that are failures, each at its index
/// with its message, in rising order of the indices.
pub proof fn lemma_failures<T>(items: Seq<Result<T, Seq<char>>>)
    ensures
        forall|k: int|
            0 <= k < failures(items).len() ==> 0 <= (#[trigger] failures(items)[k]).0 < items.len()
                && items[failures(items)[k].0] == Err::<T, Seq<char>>(failures(items)[k].1),
        forall|k: int, l: int|
            0 <= k < l < failures(items).len() ==> failures(items)[k].0 < failures(items)[l].0,
        forall|i: int|
            0 <= i < items.len() && (#[trigger] items[i]) is Err ==> exists|k: int|
                0 <= k < failures(items).len() && (#[trigger] failures(items)[k]).0 == i,
    decreases items.len(),
{
    if items.len() > 0 {
        let before = items.drop_last();
        let last = items.len() - 1;
        lemma_failures(before);
        assert forall|i: int| 0 <= i < items.len() && (#[trigger] items[i]) is Err implies exists|
            k: int,
        |
            0 <= k < failures(items).len() && (#[trigger] failures(items)[k]).0 == i by {
            if i < last {
                assert(before[i] is Err);
                let k = choose|k: int|
                    0 <= k < failures(before).len() && (#[trigger] failures(before)[k]).0 == i;
                assert(failures(items)[k].0 == i);
            } else {
                assert(failures(items)[failures(before).len() as int].0 == i);
            }
        }
    }
}

/// What a sequence of lines decodes to: the values of all its lines where
/// each has one, and else the message of the first line that has none.
pub open spec fn collected(lines: Seq<Result<Json, Seq<char>>>) -> Result<Seq<Json>, Seq<char>> {
    match first_failure(lines) {
        None => Ok(successes(lines)),
        Some(k) => Err(lines[k]->Err_0),
    }
}

/// The models of a list of lines, in order: of a value its model, of a
/// failure its message.
pub open spec fn lines_view(lines: Seq<Result<JsonValue, String>>) -> Seq<Result<Json, Seq<char>>> {
    Seq::new(
        lines.len(),
        |i: int|
            match lines[i] {
                Ok(value) => Ok(value@),
                Err(cause) => Err(cause@),
            },
    )
}

/// Gathers the values of line-delimited JSON: all of them where every line
/// gave one. One line that gave none fails the whole, with the message of
/// the first such line.
pub fn collect_lines(lines: Vec<Result<JsonValue, String>>) -> (r: Result<
    Vec<JsonValue>,
    DecodeError,
>)
    ensures
        match collected(lines_view(lines@)) {
            Ok(items) => r matches Ok(values) && values_view(values@) == items,
            Err(message) => r matches Err(DecodeError::JsonLines { cause }) && cause@ == message,
        },
{
    let ghost all = lines@;
    let ghost items = lines_view(lines@);
    let mut values: Vec<JsonValue> = Vec::new();
    for line in it: lines
        invariant
            it.seq() == all,
            items == lines_view(all),
            values@.len() == it.index(),
            first_failure(items) == first_failure_from(items, it.index() as int),
            forall|j: int|
                0 <= j < it.index() ==> items[j] == Ok::<Json, Seq<char>>((#[trigger] values@[j])@),
    {
        match line {
            Ok(value) => {
                values.push(value);
            },
            Err(cause) => {
                return Err(DecodeError::JsonLines { cause });
            },
        }
    }
    proof {
        lemma_first_failure(items, 0);
        assert(values_view(values@) =~= successes(items));
    }
    Ok(values)
}

/// Reads a buffer of line-delimited JSON into the values of its lines, in
/// order.
///
/// An empty line, one of length 0, is no line of the file: it gives no
/// value and is no error. Every other line holds one value, a line of
/// blanks too. One line that cannot be read or parsed fails the whole with
/// `DecodeError::JsonLines`, which holds what the reader said of the first
/// such line.
pub fn read_bytes_jsonl(bytes: &Vec<u8>) -> (r: Result<Vec<JsonValue>, DecodeError>)
    ensures
        match collected(json_lines(without_empty_lines(bytes@))) {
            Ok(items) => r matches Ok(values) && values_view(values@) == items,
            Err(message) => r matches Err(DecodeError::JsonLines { cause }) && cause@ == message,
        },
        r matches Ok(values) ==> all_well_formed(values_view(values@)),
{
    let kept = drop_empty_lines(bytes);
    let parsed = json_lines_read_all(kept.as_slice());
    let ghost all = parsed@;
    let ghost items = json_lines(without_empty_lines(bytes@));
    let mut lines: Vec<Result<JsonValue, String>> = Vec::new();
    for line in it: parsed
        invariant
            it.seq() == all,
            lines_are(all, items),
            lines@.len() == it.index(),
            forall|j: int| 0 <= j < it.index() ==> lines_view(lines@)[j] == #[trigger] items[j],
            forall|j: int|
                0 <= j < it.index() ==> ((#[trigger] lines@[j]) matches Ok(value)
                    ==> value@.well_formed()),
    {
        match line {
            Ok(value) => {
                lines.push(Ok(value_from_serde(&value)));
            },
            Err(error) => {
                lines.push(Err(io_error_text(&error)));
            },
        }
    }
    assert(lines_view(lines@) =~= items);
    let ghost given = lines@;
    let r = collect_lines(lines);
    proof {
        if r is Ok {
            let values = r->Ok_0;
            lemma_first_failure(items, 0);
            assert(values_view(values@).len() == successes(items).len());
            assert forall|j: int| 0 <= j < values@.len() implies (#[trigger] values_view(
                values@,
            )[j]).well_formed() by {
                assert(first_failure(items) is None);
                assert(items[j] is Ok);
                assert(values_view(values@)[j] == successes(items)[j]);
                assert(items[j] == lines_view(given)[j]);
                assert(given[j] is Ok);
            }
        }
    }
    r
}

/// The field of a record in a column; the empty text where the record has
/// no such column.
pub open spec fn cell(fields: Seq<Seq<char>>, column: int) -> Seq<char> {
    if 0 <= column < fields.len() {
        fields[column]
    } else {
        Seq::empty()
    }
}

/// The entries of the object that the first `columns` columns of a record
/// make: each column's name with the record's field in it, as a string. Of
/// two columns with one name the later one gives the value.
pub open spec fn row_entries(header: Seq<Seq<char>>, fields: Seq<Seq<char>>, columns: nat) -> Seq<
    (Seq<char>, Json),
>
    decreases columns,
{
    if columns == 0 {
        Seq::empty()
    } else {
        upsert(
            row_entries(header, fields, (columns - 1) as nat),
            header[columns - 1],
            Json::String(cell(fields, columns - 1)),
        )
    }
}

/// The object that a record makes under a header.
pub open spec fn row_object(header: Seq<Seq<char>>, fields: Seq<Seq<char>>) -> Json {
    Json::Object(row_entries(header, fields, header.len()))
}

/// The last of the first `columns` columns of a header that has the name.
pub open spec fn last_column(header: Seq<Seq<char>>, name: Seq<char>, columns: nat) -> Option<int>
    decreases columns,
{
    if columns == 0 {
        None
    } else if header[columns - 1] == name {
        Some(columns - 1)
    } else {
        last_column(header, name, (columns - 1) as nat)
    }
}

/// A row holds, under each name of the header, the record's field in the
/// last column of this name, and holds nothing under any other key.
pub proof fn lemma_row_lookup(
    header: Seq<Seq<char>>,
    fields: Seq<Seq<char>>,
    columns: nat,
    name: Seq<char>,
)
    ensures
        lookup(row_entries(header, fields, columns), name) == match last_column(
            header,
            name,
            columns,
        ) {
            Some(column) => Some(Json::String(cell(fields, column))),
            None => None,
        },
    decreases columns,
{
    if columns > 0 {
        lemma_row_lookup(header, fields, (columns - 1) as nat, name);
        lemma_upsert_lookup(
            row_entries(header, fields, (columns - 1) as nat),
            header[columns - 1],
            Json::String(cell(fields, columns - 1)),
            name,
        );
    }
}

/// No two entries of a row have the same key, whatever names the header
/// repeats.
pub proof fn lemma_row_keys_distinct(header: Seq<Seq<char>>, fields: Seq<Seq<char>>, columns: nat)
    ensures
        distinct_keys(row_entries(header, fields, columns)),
    decreases columns,
{
    if columns > 0 {
        lemma_row_keys_distinct(header, fields, (columns - 1) as nat);
        lemma_upsert_distinct(
            row_entries(header, fields, (columns - 1) as nat),
            header[columns - 1],
            Json::String(cell(fields, columns - 1)),
        );
    }
}

/// Every value of a row is a string.
pub proof fn lemma_row_values(header: Seq<Seq<char>>, fields: Seq<Seq<char>>, columns: nat)
    ensures
        forall|i: int|
            0 <= i < row_entries(header, fields, columns).len() ==> (#[trigger] row_entries(
                header,
                fields,
                columns,
            )[i]).1 is String,
    decreases columns,
{
    if columns > 0 {
        lemma_row_values(header, fields, (columns - 1) as nat);
        crate::json::lemma_find_from(
            row_entries(header, fields, (columns - 1) as nat),
            header[columns - 1],
            0,
        );
    }
}

/// A row is a well-formed object.
pub proof fn lemma_row_well_formed(header: Seq<Seq<char>>, fields: Seq<Seq<char>>)
    ensures
        row_object(header, fields).well_formed(),
{
    lemma_row_keys_distinct(header, fields, header.len());
    lemma_row_values(header, fields, header.len());
    let entries = row_entries(header, fields, header.len());
    assert forall|i: int| 0 <= i < entries.len() implies (#[trigger] entries[i]).1.well_formed() by {
        assert(entries[i].1 is String);
    }
}

/// Under a header that repeats no name, a row is the header's names in
/// order, each with the record's field in its column.
pub proof fn lemma_row_of_distinct_header(
    header: Seq<Seq<char>>,
    fields: Seq<Seq<char>>,
    columns: nat,
)
    requires
        columns <= header.len(),
        forall|i: int, j: int| 0 <= i < j < header.len() ==> header[i] != header[j],
    ensures
        row_entries(header, fields, columns) == Seq::new(
            columns,
            |i: int| (header[i], Json::String(cell(fields, i))),
        ),
    decreases columns,
{
    let expected = Seq::new(columns, |i: int| (header[i], Json::String(cell(fields, i))));
    if columns > 0 {
        let before = row_entries(header, fields, (columns - 1) as nat);
        lemma_row_of_distinct_header(header, fields, (columns - 1) as nat);
        assert forall|j: int| 0 <= j < before.len() implies (#[trigger] before[j]).0
            != header[columns - 1] by {}
        crate::json::lemma_find_none(before, header[columns - 1]);
        assert(row_entries(header, fields, columns) =~= expected);
    } else {
        assert(row_entries(header, fields, columns) =~= expected);
    }
}

/// The object that a record makes under a header: each column's name with
/// the record's field in that column, as a string, and the empty string
/// where the record is too short.
pub fn csv_row(header: &Vec<String>, fields: &Vec<String>) -> (r: JsonValue)
    ensures
        r@ == row_object(texts(header@), texts(fields@)),
        r@.well_formed(),
{
    let mut entries: Vec<(String, JsonValue)> = Vec::new();
    let mut column: usize = 0;
    while column < header.len()
        invariant
            column <= header.len(),
            entries_view(entries@) == row_entries(texts(header@), texts(fields@), column as nat),
        decreases header.len() - column,
    {
        let name = header[column].clone();
        let value = if column < fields.len() {
            fields[column].clone()
        } else {
            String::new()
        };
        let ghost before = entries_view(entries@);
        match find_entry(&entries, name.as_str()) {
            Some(i) => {
                entries.set(i, (name, JsonValue::String(value)));
                assert(entries_view(entries@) =~= before.update(
                    i as int,
                    (texts(header@)[column as int], Json::String(cell(texts(fields@), column as int))),
                ));
            },
            None => {
                entries.push((name, JsonValue::String(value)));
                assert(entries_view(entries@) =~= before.push(
                    (texts(header@)[column as int], Json::String(cell(texts(fields@), column as int))),
                ));
            },
        }
        column += 1;
    }
    proof {
        lemma_object_view(entries);
        lemma_row_well_formed(texts(header@), texts(fields@));
    }
    JsonValue::Object(entries)
}

/// A record of a CSV table that was left out, with the reason.
#[derive(Debug, PartialEq, Eq)]
pub struct SkippedRecord {
    /// The place of the record among those after the header, from 0.
    pub record: usize,
    /// What the reader said of the record.
    pub cause: String,
}

/// The records of a file, and what was left out on the way.
#[derive(Debug, PartialEq, Eq)]
pub struct Decoded {
    /// The records that could be read, in order.
    pub records: Vec<JsonValue>,
    /// The records of a CSV table that could not be read, in order.
    pub skipped: Vec<SkippedRecord>,
}

/// The models of a list of records, in order: of a record its fields, of a
/// failure its message.
pub open spec fn records_view(records: Seq<Result<Vec<String>, String>>) -> Seq<
    Result<Seq<Seq<char>>, Seq<char>>,
> {
    Seq::new(
        records.len(),
        |i: int|
            match records[i] {
                Ok(fields) => Ok(texts(fields@)),
                Err(cause) => Err(cause@),
            },
    )
}

/// The models of a list of skipped records, in order: the place of each
/// with its message.
pub open spec fn skipped_view(skipped: Seq<SkippedRecord>) -> Seq<(int, Seq<char>)> {
    Seq::new(skipped.len(), |i: int| (skipped[i].record as int, skipped[i].cause@))
}

/// The rows of a table: the object of each record that could be read, in
/// order. A record that could not be read gives no row.
pub open spec fn table_rows(
    header: Seq<Seq<char>>,
    records: Seq<Result<Seq<Seq<char>>, Seq<char>>>,
) -> Seq<Json>
    decreases records.len(),
{
    if records.len() == 0 {
        Seq::empty()
    } else {
        let before = table_rows(header, records.drop_last());
        match records.last() {
            Ok(fields) => before.push(row_object(header, fields)),
            Err(_) => before,
        }
    }
}

/// Every record of a table gives a row or is left out, and none does both:
/// the rows and the failures together are as many as the records.
pub proof fn lemma_rows_and_failures(
    header: Seq<Seq<char>>,
    records: Seq<Result<Seq<Seq<char>>, Seq<char>>>,
)
    ensures
        table_rows(header, records).len() + failures(records).len() == records.len(),
    decreases records.len(),
{
    if records.len() > 0 {
        lemma_rows_and_failures(header, records.drop_last());
    }
}

/// Where every record of a table could be read, the rows are the objects of
/// the records, one for one.
pub proof fn lemma_rows_of_full_table(
    header: Seq<Seq<char>>,
    records: Seq<Result<Seq<Seq<char>>, Seq<char>>>,
)
    requires
        first_failure(records) is None,
    ensures
        table_rows(header, records) == Seq::new(
            records.len(),
            |i: int| row_object(header, records[i]->Ok_0),
        ),
        failures(records).len() == 0,
    decreases records.len(),
{
    lemma_first_failure(records, 0);
    let expected = Seq::new(records.len(), |i: int| row_object(header, records[i]->Ok_0));
    if records.len() > 0 {
        let before = records.drop_last();
        lemma_first_failure(before, 0);
        assert forall|j: int| 0 <= j < before.len() implies before[j] is Ok by {
            assert(before[j] == records[j]);
        }
        assert(first_failure(before) is None);
        lemma_rows_of_full_table(header, before);
        assert(records.last() is Ok);
        assert(table_rows(header, records) =~= expected);
    } else {
        assert(table_rows(header, records) =~= expected);
    }
}

/// Makes the rows of a table from its header and records. A record that
/// could not be read is left out and reported with its message; the others
/// go on.
pub fn csv_rows(header: &Vec<String>, records: &Vec<Result<Vec<String>, String>>) -> (r: Decoded)
    ensures
        values_view(r.records@) == table_rows(texts(header@), records_view(records@)),
        skipped_view(r.skipped@) == failures(records_view(records@)),
        all_well_formed(values_view(r.records@)),
{
    let ghost names = texts(header@);
    let ghost items = records_view(records@);
    let mut rows: Vec<JsonValue> = Vec::new();
    let mut skipped: Vec<SkippedRecord> = Vec::new();
    let mut i: usize = 0;
    while i < records.len()
        invariant
            i <= records.len(),
            names == texts(header@),
            items == records_view(records@),
            values_view(rows@) == table_rows(names, items.take(i as int)),
            skipped_view(skipped@) == failures(items.take(i as int)),
            all_well_formed(values_view(rows@)),
        decreases records.len() - i,
    {
        let ghost rows_before = values_view(rows@);
        let ghost skipped_before = skipped_view(skipped@);
        proof {
            assert(items.take(i + 1).drop_last() =~= items.take(i as int));
            assert(items.take(i + 1).last() == items[i as int]);
        }
        match &records[i] {
            Ok(fields) => {
                rows.push(csv_row(header, fields));
                assert(values_view(rows@) =~= rows_before.push(row_object(names, texts(fields@))));
            },
            Err(cause) => {
                skipped.push(SkippedRecord { record: i, cause: cause.clone() });
                assert(skipped_view(skipped@) =~= skipped_before.push((i as int, cause@)));
            },
        }
        i += 1;
    }
    proof {
        assert(items.take(records.len() as int) =~= items);
    }
    Decoded { records: rows, skipped }
}

/// Reads a buffer that holds a CSV table into one object for each record
/// after the header, and reports the records that it left out.
///
/// A header that cannot be read fails the whole with
/// `DecodeError::CsvHeader`, which holds what the reader said of it. A
/// record that cannot be read is left out and reported with what the reader
/// said of it, and the records after it are still read.
pub fn read_bytes_csv_with_skipped(bytes: &Vec<u8>) -> (r: Result<Decoded, DecodeError>)
    ensures
        match csv_header(bytes@) {
            Ok(header) => {
                &&& r matches Ok(table)
                &&& values_view(table.records@) == table_rows(header, csv_records(bytes@))
                &&& skipped_view(table.skipped@) == failures(csv_records(bytes@))
            },
            Err(message) => r matches Err(DecodeError::CsvHeader { cause }) && cause@ == message,
        },
        r matches Ok(table) ==> all_well_formed(values_view(table.records@)),
{
    match csv_read_header(bytes.as_slice()) {
        Err(error) => Err(DecodeError::CsvHeader { cause: csv_error_text(&error) }),
        Ok(header) => {
            let parsed = csv_read_records(bytes.as_slice());
            let ghost all = parsed@;
            let ghost items = csv_records(bytes@);
            let mut records: Vec<Result<Vec<String>, String>> = Vec::new();
            for record in it: parsed
                invariant
                    it.seq() == all,
                    records_are(all, items),
                    records@.len() == it.index(),
                    forall|j: int|
                        0 <= j < it.index() ==> records_view(records@)[j] == #[trigger] items[j],
            {
                match record {
                    Ok(fields) => {
                        records.push(Ok(fields));
                    },
                    Err(error) => {
                        records.push(Err(csv_error_text(&error)));
                    },
                }
            }
            assert(records_view(records@) =~= items);
            Ok(csv_rows(&header, &records))
        },
    }
}

/// Reads a buffer that holds a CSV table into one object for each record
/// after the header: the header's column names with the record's fields, as
/// strings.
///
/// A header that cannot be read fails the whole with
/// `DecodeError::CsvHeader`, which holds what the reader said of it. A
/// record that cannot be read is left out, and the records after it are
/// still read.
pub fn read_bytes_csv(bytes: &Vec<u8>) -> (r: Result<Vec<JsonValue>, DecodeError>)
    ensures
        match csv_header(bytes@) {
            Ok(header) => r matches Ok(rows) && values_view(rows@) == table_rows(
                header,
                csv_records(bytes@),
            ),
            Err(message) => r matches Err(DecodeError::CsvHeader { cause }) && cause@ == message,
        },
        r matches Ok(rows) ==> all_well_formed(values_view(rows@)),
{
    match read_bytes_csv_with_skipped(bytes) {
        Ok(table) => Ok(table.records),
        Err(error) => Err(error),
    }
}

/// Whether `result` is what reading a buffer in a format gives: the records
/// with what was left out, or the error of that format with its cause.
pub open spec fn decodes_to(
    format: FileFormat,
    bytes: Seq<u8>,
    result: Result<Decoded, DecodeError>,
) -> bool {
    match format {
        FileFormat::JsonLines => match collected(json_lines(without_empty_lines(bytes))) {
            Ok(items) => {
                &&& result matches Ok(decoded)
                &&& values_view(decoded.records@) == items
                &&& skipped_view(decoded.skipped@).len() == 0
            },
            Err(message) => result matches Err(DecodeError::JsonLines { cause }) && cause@
                == message,
        },
        FileFormat::Json => match json_document(bytes) {
            Ok(Json::Array(items)) => {
                &&& result matches Ok(decoded)
                &&& values_view(decoded.records@) == items
                &&& skipped_view(decoded.skipped@).len() == 0
            },
            Ok(_) => result matches Err(DecodeError::NotAnArray),
            Err(message) => result matches Err(DecodeError::Json { cause }) && cause@ == message,
        },
        FileFormat::Csv => match csv_header(bytes) {
            Ok(header) => {
                &&& result matches Ok(decoded)
                &&& values_view(decoded.records@) == table_rows(header, csv_records(bytes))
                &&& skipped_view(decoded.skipped@) == failures(csv_records(bytes))
            },
            Err(message) => result matches Err(DecodeError::CsvHeader { cause }) && cause@
                == message,
        },
    }
}

/// Reads the records of a file in the format that its name's final
/// extension stands for: `jsonl`, `json` or `csv`.
///
/// A name with another extension, or with none, gives
/// `DecodeError::UnsupportedFormat`, whatever the bytes are: the content
/// is never looked at to guess a format.
pub fn read_file_records(file_bytes: &Vec<u8>, filename: &String) -> (r: Result<
    Decoded,
    DecodeError,
>)
    ensures
        match format_of(filename@) {
            None => r matches Err(DecodeError::UnsupportedFormat),
            Some(format) => decodes_to(format, file_bytes@, r),
        },
        r matches Ok(decoded) ==> all_well_formed(values_view(decoded.records@)),
{
    match FileFormat::from_filename(filename.as_str()) {
        None => Err(DecodeError::UnsupportedFormat),
        Some(FileFormat::JsonLines) => match read_bytes_jsonl(file_bytes) {
            Ok(records) => Ok(without_skipped(records)),
            Err(error) => Err(error),
        },
        Some(FileFormat::Json) => match read_bytes_json(file_bytes) {
            Ok(records) => Ok(without_skipped(records)),
            Err(error) => Err(error),
        },
        Some(FileFormat::Csv) => read_bytes_csv_with_skipped(file_bytes),
    }
}

/// The records, with nothing left out.
fn without_skipped(records: Vec<JsonValue>) -> (r: Decoded)
    ensures
        r.records == records,
        skipped_view(r.skipped@).len() == 0,
{
    let skipped: Vec<SkippedRecord> = Vec::new();
    Decoded { records, skipped }
}

} // verus!
