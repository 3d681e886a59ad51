use convert_to_parquet::json::suffix_for;
use convert_to_parquet::json::{
    collect_headers, is_blank_line, is_json, json_has_nested, json_table, kind_for,
    parse_json_text, records_from_document, records_from_json_text, records_from_jsonl_text,
    records_from_lines, stdin_suffix, JsonError, JsonKind, JsonLine, JsonType, JsonValue,
};

fn num(n: &str) -> JsonValue {
    JsonValue::Number(n.to_string())
}

fn text(s: &str) -> JsonValue {
    JsonValue::Str(s.to_string())
}

fn obj(entries: Vec<(&str, JsonValue)>, compact: &str) -> JsonValue {
    JsonValue::Object {
        entries: entries.into_iter().map(|(k, v)| (k.to_string(), v)).collect(),
        text: compact.to_string(),
    }
}

fn arr(items: Vec<JsonValue>, compact: &str) -> JsonValue {
    JsonValue::Array { items, text: compact.to_string() }
}

fn record(entries: Vec<(&str, JsonValue)>) -> Vec<(String, JsonValue)> {
    entries.into_iter().map(|(k, v)| (k.to_string(), v)).collect()
}

fn csv_of(records: &Vec<Vec<(String, JsonValue)>>) -> String {
    let table = json_table(records);
    let mut out = String::new();
    if table.headers.is_empty() {
        return out;
    }
    out.push_str(&table.headers.join(","));
    out.push('\n');
    for row in &table.rows {
        let cells: Vec<String> = row
            .iter()
            .map(|c| {
                if c.contains(',') || c.contains('"') {
                    format!("\"{}\"", c.replace('"', "\"\""))
                } else {
                    c.clone()
                }
            })
            .collect();
        out.push_str(&cells.join(","));
        out.push('\n');
    }
    out
}

fn jsonl(text: &str) -> Result<Vec<Vec<(String, JsonValue)>>, JsonError> {
    let lines: Vec<String> = text.lines().map(|l| l.to_string()).collect();
    records_from_jsonl_text(&lines)
}

#[test]
fn is_json_detects_extensions() {
    assert!(is_json("a.json"));
    assert!(is_json("a.jsonl"));
    assert!(is_json("a.ndjson"));
    assert!(!is_json("a.csv"));
}

#[test]
fn json_kinds_by_extension() {
    assert_eq!(kind_for("a.jsonl"), JsonKind::Lines);
    assert_eq!(kind_for("a.NDJSON"), JsonKind::Lines);
    assert_eq!(kind_for("a.json"), JsonKind::Document);
    assert_eq!(kind_for("a"), JsonKind::Document);
}

#[test]
fn jsonl_basic() {
    let records = jsonl("{\"a\":1,\"b\":\"x\"}\n{\"a\":2,\"b\":\"y\"}\n").unwrap();
    assert_eq!(records.len(), 2);
    assert_eq!(csv_of(&records), "a,b\n1,x\n2,y\n");
}

#[test]
fn jsonl_heterogeneous_keys() {
    let records = jsonl("{\"a\":1}\n{\"b\":2}\n{\"a\":3,\"b\":4}\n").unwrap();
    assert_eq!(records.len(), 3);
    assert_eq!(csv_of(&records), "a,b\n1,\n,2\n3,4\n");
}

#[test]
fn json_array_of_objects() {
    let records = records_from_json_text("[{\"a\":1},{\"a\":2}]").unwrap();
    assert_eq!(records.len(), 2);
    assert_eq!(csv_of(&records), "a\n1\n2\n");
}

#[test]
fn json_single_object() {
    let records = records_from_json_text("{\"a\":1,\"b\":\"x\"}").unwrap();
    assert_eq!(records.len(), 1);
    assert_eq!(csv_of(&records), "a,b\n1,x\n");
}

#[test]
fn json_nested_serialized() {
    let records = records_from_json_text("[{\"a\":{\"k\":1},\"b\":[1,2]}]").unwrap();
    assert_eq!(csv_of(&records), "a,b\n\"{\"\"k\"\":1}\",\"[1,2]\"\n");
}

#[test]
fn json_null_becomes_empty() {
    let records = records_from_json_text("[{\"a\":null,\"b\":1}]").unwrap();
    assert_eq!(csv_of(&records), "a,b\n,1\n");
}

#[test]
fn json_bool_formatting() {
    let records = records_from_json_text("[{\"a\":true,\"b\":false}]").unwrap();
    assert_eq!(csv_of(&records), "a,b\ntrue,false\n");
}

#[test]
fn jsonl_skips_blank_lines() {
    let records = jsonl("{\"a\":1}\n\n{\"a\":2}\n").unwrap();
    assert_eq!(records.len(), 2);
    assert!(is_blank_line("   "));
    assert!(!is_blank_line(" {} "));
}

#[test]
fn json_invalid_root_rejected() {
    assert_eq!(
        records_from_json_text("[1,2,3]").unwrap_err(),
        JsonError::RecordNotObject { position: 1, found: JsonType::Number }
    );
}

#[test]
fn json_scalar_root_rejected() {
    assert_eq!(
        records_from_json_text("42").unwrap_err(),
        JsonError::UnsupportedRoot { found: JsonType::Number }
    );
}

#[test]
fn json_csv_path_flattens_nested() {
    let records = records_from_json_text(r#"[{"id":1,"nested":{"a":1,"b":"x"}}]"#).unwrap();
    assert_eq!(csv_of(&records), "id,nested\n1,\"{\"\"a\"\":1,\"\"b\"\":\"\"x\"\"}\"\n");
}

#[test]
fn jsonl_errors_name_the_first_bad_line() {
    let err = records_from_lines(vec![
        JsonLine { number: 1, value: Some(obj(vec![("a", num("1"))], "")) },
        JsonLine { number: 3, value: Some(arr(vec![], "[]")) },
        JsonLine { number: 4, value: None },
    ])
    .unwrap_err();
    assert_eq!(err, JsonError::LineNotObject { line: 3, found: JsonType::Array });
    let err = records_from_lines(vec![JsonLine { number: 2, value: None }]).unwrap_err();
    assert_eq!(err, JsonError::InvalidLine { line: 2 });
}

#[test]
fn records_without_keys_make_no_table() {
    let records = vec![record(vec![]), record(vec![])];
    let table = json_table(&records);
    assert!(table.headers.is_empty());
    assert!(table.rows.is_empty());
}

#[test]
fn headers_in_first_seen_order_without_duplicates() {
    let records = vec![
        record(vec![("b", num("1")), ("a", num("2"))]),
        record(vec![("c", num("3")), ("a", num("4"))]),
    ];
    assert_eq!(collect_headers(&records), vec!["b", "a", "c"]);
}

#[test]
fn detects_nested_object() {
    let records = vec![record(vec![("id", num("1")), ("meta", obj(vec![("a", num("1"))], "{\"a\":1}"))])];
    assert!(json_has_nested(&records));
}

#[test]
fn detects_nested_array() {
    let records = vec![record(vec![
        ("id", num("1")),
        ("tags", arr(vec![num("1"), num("2"), num("3")], "[1,2,3]")),
    ])];
    assert!(json_has_nested(&records));
}

#[test]
fn scalar_only_not_nested() {
    let records = vec![record(vec![("id", num("1")), ("name", text("x"))])];
    assert!(!json_has_nested(&records));
}

#[test]
fn scalar_only_json_not_routed_as_nested() {
    let records = vec![record(vec![("id", num("1")), ("name", text("x"))])];
    assert!(!json_has_nested(&records));
}

#[test]
fn stdin_suffix_by_content() {
    assert_eq!(stdin_suffix(b"  [1,2]"), ".json");
    assert_eq!(stdin_suffix(b"{\"a\":1}"), ".json");
    assert_eq!(stdin_suffix(b"{\"a\":1}\n{\"a\":2}\n"), ".jsonl");
    assert_eq!(stdin_suffix(b"a,b\n1,2\n"), ".csv");
    assert_eq!(stdin_suffix(b"   "), ".csv");
}

#[test]
fn suffix_from_first_byte_and_parse_result() {
    assert_eq!(suffix_for(b"\n{x", true), ".json");
    assert_eq!(suffix_for(b"\n{x", false), ".jsonl");
    assert_eq!(suffix_for(b"[", false), ".json");
    assert_eq!(suffix_for(b"x", true), ".csv");
    assert_eq!(suffix_for(b"", true), ".csv");
}

#[test]
fn document_text_that_is_not_json_is_a_parse_error() {
    assert_eq!(records_from_json_text("[{\"a\":1},").unwrap_err(), JsonError::InvalidDocument);
    assert_eq!(records_from_json_text("").unwrap_err(), JsonError::InvalidDocument);
}

#[test]
fn jsonl_text_errors_carry_the_line_number() {
    // Line 2 is blank and skipped, but still counted.
    assert_eq!(
        jsonl("{\"a\":1}\n\n[1]\n{").unwrap_err(),
        JsonError::LineNotObject { line: 3, found: JsonType::Array }
    );
    assert_eq!(jsonl("{\"a\":1}\n {oops\n").unwrap_err(), JsonError::InvalidLine { line: 2 });
    assert!(jsonl("").unwrap().is_empty());
}

#[test]
fn parsed_values_keep_notation_and_compact_text() {
    let v = parse_json_text(" {\"n\": 1.50, \"l\": [1, \"x\"]} ").unwrap();
    match v {
        JsonValue::Object { entries, text } => {
            assert_eq!(text, "{\"l\":[1,\"x\"],\"n\":1.5}");
            assert_eq!(entries[0].0, "l");
            match &entries[0].1 {
                JsonValue::Array { items, text } => {
                    assert_eq!(text, "[1,\"x\"]");
                    assert!(matches!(&items[0], JsonValue::Number(n) if n == "1"));
                    assert!(matches!(&items[1], JsonValue::Str(t) if t == "x"));
                }
                other => panic!("expected an array, got {:?}", other),
            }
            assert!(matches!(&entries[1].1, JsonValue::Number(n) if n == "1.5"));
        }
        other => panic!("expected an object, got {:?}", other),
    }
    assert!(parse_json_text("nope").is_none());
}
