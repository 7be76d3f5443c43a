use datapoints::decode::{
    array_items, collect_lines, csv_row, csv_rows, drop_empty_lines, read_bytes_csv,
    read_bytes_csv_with_skipped, read_bytes_json, read_bytes_jsonl, read_file_records, Decoded,
    SkippedRecord,
};
use datapoints::error::DecodeError;
use datapoints::format::{extension, FileFormat};
use datapoints::json::JsonValue;

fn text(s: &str) -> JsonValue {
    JsonValue::String(s.to_string())
}

fn number(s: &str) -> JsonValue {
    JsonValue::Number(s.to_string())
}

fn object(entries: Vec<(&str, JsonValue)>) -> JsonValue {
    JsonValue::Object(entries.into_iter().map(|(k, v)| (k.to_string(), v)).collect())
}

fn strings(list: Vec<&str>) -> Vec<String> {
    list.into_iter().map(|s| s.to_string()).collect()
}

#[test]
fn json_array_yields_its_items_in_order() {
    let bytes = b"[{\"data\":1},{\"data\":2}]".to_vec();
    let values = read_bytes_json(&bytes).unwrap();
    assert_eq!(
        values,
        vec![object(vec![("data", number("1"))]), object(vec![("data", number("2"))])]
    );
}

#[test]
fn json_values_of_every_kind_are_read() {
    let bytes = b"[null, true, false, -3, 2.5, 1e3, \"a\\nb\", [], {}, {\"b\": [1], \"a\": {\"c\": null}}]"
        .to_vec();
    let values = read_bytes_json(&bytes).unwrap();
    assert_eq!(
        values,
        vec![
            JsonValue::Null,
            JsonValue::Bool(true),
            JsonValue::Bool(false),
            number("-3"),
            number("2.5"),
            number("1000.0"),
            text("a\nb"),
            JsonValue::Array(vec![]),
            object(vec![]),
            object(vec![
                ("a", object(vec![("c", JsonValue::Null)])),
                ("b", JsonValue::Array(vec![number("1")])),
            ]),
        ]
    );
}

#[test]
fn empty_json_array_yields_nothing() {
    assert_eq!(read_bytes_json(&b" [ ] ".to_vec()), Ok(vec![]));
}

#[test]
fn json_object_at_top_level_is_refused() {
    let bytes = b"{\"data\":1}".to_vec();
    let error = read_bytes_json(&bytes).unwrap_err();
    assert_eq!(error, DecodeError::NotAnArray);
    assert!(error.message().contains("must contain an array"));
    assert_eq!(error.message(), "the file must contain an array of json objects");
}

#[test]
fn json_scalar_at_top_level_is_refused() {
    assert_eq!(read_bytes_json(&b"5".to_vec()), Err(DecodeError::NotAnArray));
    assert_eq!(read_bytes_json(&b"\"x\"".to_vec()), Err(DecodeError::NotAnArray));
    assert_eq!(read_bytes_json(&b"null".to_vec()), Err(DecodeError::NotAnArray));
}

#[test]
fn malformed_json_is_a_parse_error() {
    let error = read_bytes_json(&b"[1, 2".to_vec()).unwrap_err();
    match &error {
        DecodeError::Json { cause } => {
            assert!(!cause.is_empty());
            assert_eq!(error.message(), *cause);
        }
        other => panic!("unexpected error {:?}", other),
    }
    assert!(matches!(read_bytes_json(&b"".to_vec()), Err(DecodeError::Json { .. })));
    assert!(matches!(read_bytes_json(&b"[1] x".to_vec()), Err(DecodeError::Json { .. })));
}

#[test]
fn array_items_takes_an_array_apart() {
    assert_eq!(
        array_items(JsonValue::Array(vec![number("1"), JsonValue::Null])),
        Ok(vec![number("1"), JsonValue::Null])
    );
    assert_eq!(array_items(object(vec![])), Err(DecodeError::NotAnArray));
    assert_eq!(array_items(JsonValue::Null), Err(DecodeError::NotAnArray));
}

#[test]
fn jsonl_lines_are_parsed_one_by_one() {
    let bytes = b"{\"a\":1}\n[true,null]\n\"x\"\n".to_vec();
    let values = read_bytes_jsonl(&bytes).unwrap();
    assert_eq!(
        values,
        vec![
            object(vec![("a", number("1"))]),
            JsonValue::Array(vec![JsonValue::Bool(true), JsonValue::Null]),
            text("x"),
        ]
    );
}

#[test]
fn jsonl_last_line_needs_no_line_break() {
    let values = read_bytes_jsonl(&b"1\n2".to_vec()).unwrap();
    assert_eq!(values, vec![number("1"), number("2")]);
}

#[test]
fn empty_jsonl_yields_nothing() {
    assert_eq!(read_bytes_jsonl(&b"".to_vec()), Ok(vec![]));
}

#[test]
fn one_malformed_jsonl_line_fails_the_whole() {
    let error = read_bytes_jsonl(&b"{\"a\":1}\n{oops\n{\"b\":2}\n".to_vec()).unwrap_err();
    match &error {
        DecodeError::JsonLines { cause } => {
            assert!(!cause.is_empty());
            assert_eq!(error.message(), format!("error parsing jsonlines: {}", cause));
        }
        other => panic!("unexpected error {:?}", other),
    }
}

#[test]
fn empty_jsonl_line_is_no_record_and_no_error() {
    assert_eq!(
        read_bytes_jsonl(&b"[1]\n\n[2]\n".to_vec()),
        Ok(vec![JsonValue::Array(vec![number("1")]), JsonValue::Array(vec![number("2")])])
    );
    assert_eq!(read_bytes_jsonl(&b"1\n\n2\n".to_vec()), Ok(vec![number("1"), number("2")]));
    assert_eq!(read_bytes_jsonl(&b"\n".to_vec()), Ok(vec![]));
    assert_eq!(read_bytes_jsonl(&b"\n\n\n".to_vec()), Ok(vec![]));
    assert_eq!(
        read_bytes_jsonl(&b"\n\n1\n\n\n\n2\n\n".to_vec()),
        Ok(vec![number("1"), number("2")])
    );
    assert_eq!(read_bytes_jsonl(&b"1\n\n2".to_vec()), Ok(vec![number("1"), number("2")]));
}

#[test]
fn jsonl_line_of_blanks_only_is_not_empty() {
    assert!(matches!(
        read_bytes_jsonl(&b"1\n \n2\n".to_vec()),
        Err(DecodeError::JsonLines { .. })
    ));
    assert!(matches!(
        read_bytes_jsonl(&b"1\r\n\r\n2\r\n".to_vec()),
        Err(DecodeError::JsonLines { .. })
    ));
}

#[test]
fn empty_lines_are_taken_out_of_a_buffer() {
    assert_eq!(drop_empty_lines(&b"a\n\nb\n".to_vec()), b"a\nb\n".to_vec());
    assert_eq!(drop_empty_lines(&b"\n".to_vec()), b"".to_vec());
    assert_eq!(drop_empty_lines(&b"\n\n\na\n\n\nb".to_vec()), b"a\nb".to_vec());
    assert_eq!(drop_empty_lines(&b"a\nb\n".to_vec()), b"a\nb\n".to_vec());
    assert_eq!(drop_empty_lines(&b"a\n \nb".to_vec()), b"a\n \nb".to_vec());
    assert_eq!(drop_empty_lines(&b"a\r\n\r\nb".to_vec()), b"a\r\n\r\nb".to_vec());
    assert_eq!(drop_empty_lines(&b"".to_vec()), b"".to_vec());
    assert_eq!(drop_empty_lines(&b"ab".to_vec()), b"ab".to_vec());
}

#[test]
fn jsonl_error_holds_what_the_reader_said_of_the_first_bad_line() {
    let bytes = b"1\n{oops\n[2\n".to_vec();
    let said = serde_json::from_str::<serde_json::Value>("{oops\n").unwrap_err().to_string();
    assert_eq!(read_bytes_jsonl(&bytes), Err(DecodeError::JsonLines { cause: said.clone() }));
    assert_eq!(
        read_bytes_jsonl(&bytes).unwrap_err().message(),
        format!("error parsing jsonlines: {}", said)
    );
}

#[test]
fn json_error_holds_what_the_parser_said() {
    let bytes = b"[1, 2".to_vec();
    let said = serde_json::from_slice::<serde_json::Value>(&bytes).unwrap_err().to_string();
    assert!(!said.is_empty());
    assert_eq!(read_bytes_json(&bytes), Err(DecodeError::Json { cause: said.clone() }));
    assert_eq!(
        read_file_records(&bytes, &"x.json".to_string()),
        Err(DecodeError::Json { cause: said })
    );
}

#[test]
fn csv_errors_hold_what_the_reader_said() {
    let bytes = b"a,b\n1,2\n3\n".to_vec();
    let decoded = read_bytes_csv_with_skipped(&bytes).unwrap();
    let mut reader = csv::Reader::from_reader(bytes.as_slice());
    let said = reader.records().nth(1).unwrap().unwrap_err().to_string();
    assert!(!said.is_empty());
    assert_eq!(decoded.skipped, vec![SkippedRecord { record: 1, cause: said }]);
    let bad_header = b"a,\xff\n1,2\n".to_vec();
    let mut reader = csv::Reader::from_reader(bad_header.as_slice());
    let said = reader.headers().unwrap_err().to_string();
    assert_eq!(read_bytes_csv(&bad_header), Err(DecodeError::CsvHeader { cause: said }));
}

#[test]
fn jsonl_line_may_have_blanks_around_its_value() {
    let values = read_bytes_jsonl(&b"  {\"a\" : 1}  \r\n\ttrue\n".to_vec()).unwrap();
    assert_eq!(values, vec![object(vec![("a", number("1"))]), JsonValue::Bool(true)]);
}

#[test]
fn jsonl_line_that_is_no_utf8_fails_the_whole() {
    assert!(matches!(
        read_bytes_jsonl(&b"1\n\"\xff\"\n2\n".to_vec()),
        Err(DecodeError::JsonLines { .. })
    ));
}

#[test]
fn jsonl_line_with_two_values_fails_the_whole() {
    assert!(matches!(
        read_bytes_jsonl(&b"1 2\n".to_vec()),
        Err(DecodeError::JsonLines { .. })
    ));
}

#[test]
fn collect_lines_gives_all_values_or_the_first_failure() {
    assert_eq!(
        collect_lines(vec![Ok(number("1")), Ok(text("a"))]),
        Ok(vec![number("1"), text("a")])
    );
    assert_eq!(collect_lines(vec![]), Ok(vec![]));
    assert_eq!(
        collect_lines(vec![
            Ok(number("1")),
            Err("first".to_string()),
            Ok(number("2")),
            Err("second".to_string()),
        ]),
        Err(DecodeError::JsonLines { cause: "first".to_string() })
    );
}

#[test]
fn csv_row_with_missing_field_is_skipped() {
    let bytes = b"a,b\n1,2\n3\n".to_vec();
    let rows = read_bytes_csv(&bytes).unwrap();
    assert_eq!(rows, vec![object(vec![("a", text("1")), ("b", text("2"))])]);
}

#[test]
fn csv_rows_after_a_skipped_one_are_still_read() {
    let bytes = b"a,b\n1,2\n3\n4,5\n6,7,8\n9,10\n".to_vec();
    let decoded = read_bytes_csv_with_skipped(&bytes).unwrap();
    assert_eq!(
        decoded.records,
        vec![
            object(vec![("a", text("1")), ("b", text("2"))]),
            object(vec![("a", text("4")), ("b", text("5"))]),
            object(vec![("a", text("9")), ("b", text("10"))]),
        ]
    );
    let places: Vec<usize> = decoded.skipped.iter().map(|s| s.record).collect();
    assert_eq!(places, vec![1, 3]);
    assert!(decoded.skipped.iter().all(|s| !s.cause.is_empty()));
    assert_eq!(read_bytes_csv(&bytes).unwrap(), decoded.records);
}

#[test]
fn csv_cells_stay_strings() {
    let bytes = b"n,flag,empty,quoted\n12,true,,\"x, y\"\n".to_vec();
    let rows = read_bytes_csv(&bytes).unwrap();
    assert_eq!(
        rows,
        vec![object(vec![
            ("n", text("12")),
            ("flag", text("true")),
            ("empty", text("")),
            ("quoted", text("x, y")),
        ])]
    );
}

#[test]
fn csv_with_header_only_has_no_rows() {
    assert_eq!(read_bytes_csv(&b"a,b\n".to_vec()), Ok(vec![]));
    assert_eq!(read_bytes_csv(&b"".to_vec()), Ok(vec![]));
}

#[test]
fn csv_record_that_is_no_utf8_is_skipped() {
    let bytes = b"a,b\n1,\xff\n3,4\n".to_vec();
    let decoded = read_bytes_csv_with_skipped(&bytes).unwrap();
    assert_eq!(decoded.records, vec![object(vec![("a", text("3")), ("b", text("4"))])]);
    assert_eq!(decoded.skipped.len(), 1);
    assert_eq!(decoded.skipped[0].record, 0);
}

#[test]
fn csv_header_that_is_no_utf8_fails_the_whole() {
    let bytes = b"a,\xff\n1,2\n".to_vec();
    let error = read_bytes_csv(&bytes).unwrap_err();
    match &error {
        DecodeError::CsvHeader { cause } => {
            assert!(!cause.is_empty());
            assert_eq!(error.message(), *cause);
        }
        other => panic!("unexpected error {:?}", other),
    }
    assert!(matches!(read_bytes_csv_with_skipped(&bytes), Err(DecodeError::CsvHeader { .. })));
}

#[test]
fn csv_header_with_a_repeated_name_keeps_the_later_column() {
    let bytes = b"a,b,a\n1,2,3\n".to_vec();
    let rows = read_bytes_csv(&bytes).unwrap();
    assert_eq!(rows, vec![object(vec![("a", text("3")), ("b", text("2"))])]);
}

#[test]
fn csv_row_fills_missing_cells_with_the_empty_string() {
    let row = csv_row(&strings(vec!["a", "b", "c"]), &strings(vec!["1"]));
    assert_eq!(row, object(vec![("a", text("1")), ("b", text("")), ("c", text(""))]));
    let row = csv_row(&strings(vec!["a"]), &strings(vec!["1", "2"]));
    assert_eq!(row, object(vec![("a", text("1"))]));
    let row = csv_row(&strings(vec![]), &strings(vec!["1", "2"]));
    assert_eq!(row, object(vec![]));
    let row = csv_row(&strings(vec!["x", "y", "x"]), &strings(vec!["1", "2"]));
    assert_eq!(row, object(vec![("x", text("")), ("y", text("2"))]));
}

#[test]
fn csv_rows_reports_what_it_leaves_out() {
    let header = strings(vec!["a", "b"]);
    let records = vec![
        Err("bad start".to_string()),
        Ok(strings(vec!["1", "2"])),
        Err("bad middle".to_string()),
        Ok(strings(vec!["3"])),
    ];
    assert_eq!(
        csv_rows(&header, &records),
        Decoded {
            records: vec![
                object(vec![("a", text("1")), ("b", text("2"))]),
                object(vec![("a", text("3")), ("b", text(""))]),
            ],
            skipped: vec![
                SkippedRecord { record: 0, cause: "bad start".to_string() },
                SkippedRecord { record: 2, cause: "bad middle".to_string() },
            ],
        }
    );
    assert_eq!(csv_rows(&header, &vec![]), Decoded { records: vec![], skipped: vec![] });
}

#[test]
fn format_follows_the_final_extension() {
    assert_eq!(FileFormat::from_filename("data.jsonl"), Some(FileFormat::JsonLines));
    assert_eq!(FileFormat::from_filename("data.json"), Some(FileFormat::Json));
    assert_eq!(FileFormat::from_filename("data.csv"), Some(FileFormat::Csv));
    assert_eq!(FileFormat::from_filename("archive.csv.json"), Some(FileFormat::Json));
    assert_eq!(FileFormat::from_filename("a.b/c.d.jsonl"), Some(FileFormat::JsonLines));
    assert_eq!(FileFormat::from_filename(".csv"), Some(FileFormat::Csv));
    assert_eq!(FileFormat::from_filename("d\u{e9}j\u{e0}.csv"), Some(FileFormat::Csv));
}

#[test]
fn other_extensions_have_no_format() {
    assert_eq!(FileFormat::from_filename("data.txt"), None);
    assert_eq!(FileFormat::from_filename("data.CSV"), None);
    assert_eq!(FileFormat::from_filename("data.Json"), None);
    assert_eq!(FileFormat::from_filename("data.csv "), None);
    assert_eq!(FileFormat::from_filename("data.json.bak"), None);
    assert_eq!(FileFormat::from_filename("data."), None);
    assert_eq!(FileFormat::from_filename("data"), None);
    assert_eq!(FileFormat::from_filename("csv"), None);
    assert_eq!(FileFormat::from_filename("json"), None);
    assert_eq!(FileFormat::from_filename(""), None);
    assert_eq!(FileFormat::from_filename("xjsonl"), None);
}

#[test]
fn extension_is_what_follows_the_last_dot() {
    assert_eq!(extension("a.b.c"), Some("c"));
    assert_eq!(extension("a."), Some(""));
    assert_eq!(extension(".x"), Some("x"));
    assert_eq!(extension("abc"), None);
    assert_eq!(extension(""), None);
    assert_eq!(extension("\u{e9}.\u{e0}\u{e8}"), Some("\u{e0}\u{e8}"));
}

#[test]
fn unsupported_extension_fails_before_any_decode() {
    let valid_everywhere = b"[1]".to_vec();
    let error = read_file_records(&valid_everywhere, &"records.txt".to_string()).unwrap_err();
    assert_eq!(error, DecodeError::UnsupportedFormat);
    assert_eq!(
        error.message(),
        "Attempting to process file as unstructured even though requested as structured"
    );
    assert_eq!(
        read_file_records(&b"\xff\xfe".to_vec(), &"records".to_string()),
        Err(DecodeError::UnsupportedFormat)
    );
}

#[test]
fn file_is_read_in_the_format_of_its_extension() {
    let bytes = b"[1]".to_vec();
    assert_eq!(
        read_file_records(&bytes, &"x.json".to_string()),
        Ok(Decoded { records: vec![number("1")], skipped: vec![] })
    );
    assert_eq!(
        read_file_records(&bytes, &"x.jsonl".to_string()),
        Ok(Decoded { records: vec![JsonValue::Array(vec![number("1")])], skipped: vec![] })
    );
    assert_eq!(
        read_file_records(&bytes, &"x.csv".to_string()),
        Ok(Decoded { records: vec![], skipped: vec![] })
    );
    let table = b"k\nv\nw,x\n".to_vec();
    let decoded = read_file_records(&table, &"x.csv".to_string()).unwrap();
    assert_eq!(decoded.records, vec![object(vec![("k", text("v"))])]);
    assert_eq!(decoded.skipped.len(), 1);
    assert_eq!(decoded.skipped[0].record, 1);
    assert!(matches!(
        read_file_records(&table, &"x.json".to_string()),
        Err(DecodeError::Json { .. })
    ));
    assert!(matches!(
        read_file_records(&table, &"x.jsonl".to_string()),
        Err(DecodeError::JsonLines { .. })
    ));
    assert_eq!(
        read_file_records(&b"{}".to_vec(), &"x.json".to_string()),
        Err(DecodeError::NotAnArray)
    );
}
