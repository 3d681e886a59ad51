//! JSON and JSON Lines input: which files are JSON, which records a document
//! or a line-delimited file holds, and the flat table (header row and cells)
//! they become before the CSV pipeline.
use crate::analysis::types::views;
use crate::paths::{ext_is, extension_chars, has_extension};
use crate::text::{is_white_space, string_from_chars, trim, trimmed};
use serde_json::Value;
use vstd::prelude::*;

verus! {

/// Delimiter of the intermediate CSV.
pub const JSON_DELIMITER: u8 = 44;

/// A parsed JSON value. Arrays and objects also carry their compact JSON
/// text, which is what a cell shows of a nested value.
#[derive(Debug)]
pub enum JsonValue {
    Null,
    Bool(bool),
    /// A number, in its JSON notation.
    Number(String),
    Str(String),
    Array { items: Vec<JsonValue>, text: String },
    Object { entries: Vec<(String, JsonValue)>, text: String },
}

/// The kind of a JSON value, as error messages name it.
#[derive(Clone, Copy, Debug, PartialEq, Eq, Structural)]
pub enum JsonType {
    Null,
    Bool,
    Number,
    String,
    Array,
    Object,
}

pub open spec fn type_of(v: JsonValue) -> JsonType {
    match v {
        JsonValue::Null => JsonType::Null,
        JsonValue::Bool(_) => JsonType::Bool,
        JsonValue::Number(_) => JsonType::Number,
        JsonValue::Str(_) => JsonType::String,
        JsonValue::Array { .. } => JsonType::Array,
        JsonValue::Object { .. } => JsonType::Object,
    }
}

pub fn json_type(v: &JsonValue) -> (t: JsonType)
    ensures
        t == type_of(*v),
{
    match v {
        JsonValue::Null => JsonType::Null,
        JsonValue::Bool(_) => JsonType::Bool,
        JsonValue::Number(_) => JsonType::Number,
        JsonValue::Str(_) => JsonType::String,
        JsonValue::Array { .. } => JsonType::Array,
        JsonValue::Object { .. } => JsonType::Object,
    }
}

impl JsonType {
    pub open spec fn spec_name(self) -> Seq<char> {
        match self {
            JsonType::Null => "null"@,
            JsonType::Bool => "bool"@,
            JsonType::Number => "number"@,
            JsonType::String => "string"@,
            JsonType::Array => "array"@,
            JsonType::Object => "object"@,
        }
    }

    /// The name error messages use for this kind of value.
    pub fn name(self) -> (s: &'static str)
        ensures
            s@ == self.spec_name(),
    {
        match self {
            JsonType::Null => "null",
            JsonType::Bool => "bool",
            JsonType::Number => "number",
            JsonType::String => "string",
            JsonType::Array => "array",
            JsonType::Object => "object",
        }
    }
}

/// Why a JSON input holds no records.
#[derive(Clone, Copy, Debug, PartialEq, Eq, Structural)]
pub enum JsonError {
    /// Line `line` (from 1) of a JSON Lines file is not valid JSON.
    InvalidLine { line: usize },
    /// Line `line` of a JSON Lines file holds a value that is not an object.
    LineNotObject { line: usize, found: JsonType },
    /// A document whose root is neither an object nor an array.
    UnsupportedRoot { found: JsonType },
    /// Element `position` (from 1) of a root array is not an object.
    RecordNotObject { position: usize, found: JsonType },
    /// The text of a JSON document is not valid JSON.
    InvalidDocument,
}

// ---------------------------------------------------------------- file kinds

pub open spec fn spec_is_json(p: Seq<char>) -> bool {
    ||| has_extension(p, seq!['j', 's', 'o', 'n'])
    ||| has_extension(p, seq!['j', 's', 'o', 'n', 'l'])
    ||| has_extension(p, seq!['n', 'd', 'j', 's', 'o', 'n'])
}

/// JSON input, by extension: json, jsonl or ndjson (any ASCII case).
pub fn is_json(path: &str) -> (b: bool)
    ensures
        b == spec_is_json(path@),
{
    let ext = extension_chars(path);
    ext_is(&ext, &['j', 's', 'o', 'n']) || ext_is(&ext, &['j', 's', 'o', 'n', 'l']) || ext_is(
        &ext,
        &['n', 'd', 'j', 's', 'o', 'n'],
    )
}

/// One object per line, or one document.
#[derive(Clone, Copy, Debug, PartialEq, Eq, Structural)]
pub enum JsonKind {
    Lines,
    Document,
}

pub open spec fn spec_kind_for(p: Seq<char>) -> JsonKind {
    if has_extension(p, seq!['j', 's', 'o', 'n', 'l']) || has_extension(
        p,
        seq!['n', 'd', 'j', 's', 'o', 'n'],
    ) {
        JsonKind::Lines
    } else {
        JsonKind::Document
    }
}

pub fn kind_for(path: &str) -> (k: JsonKind)
    ensures
        k == spec_kind_for(path@),
{
    let ext = extension_chars(path);
    if ext_is(&ext, &['j', 's', 'o', 'n', 'l']) || ext_is(&ext, &['n', 'd', 'j', 's', 'o', 'n']) {
        JsonKind::Lines
    } else {
        JsonKind::Document
    }
}

// ---------------------------------------------------------------- standard input

/// `u8::is_ascii_whitespace`: space, tab, line feed, form feed, carriage return.
pub open spec fn is_ascii_whitespace_byte(b: u8) -> bool {
    b == 0x20 || b == 0x09 || b == 0x0A || b == 0x0C || b == 0x0D
}

/// Whether `serde_json::from_slice::<serde_json::Value>` accepts the bytes.
pub uninterp spec fn serde_json_accepts(bytes: Seq<u8>) -> bool;

/// Calls `serde_json::from_slice::<serde_json::Value>` and keeps only whether
/// it succeeded. Claimed: the result is `serde_json_accepts(bytes)`.
#[verifier::external_body]
fn json_parses(bytes: &[u8]) -> (res: bool)
    ensures
        res == serde_json_accepts(bytes@),
{
    serde_json::from_slice::<serde_json::Value>(bytes).is_ok()
}

/// Index of the first byte that is not ASCII whitespace, if any.
pub open spec fn first_content(bytes: Seq<u8>) -> Option<int> {
    if exists|i: int| 0 <= i < bytes.len() && !is_ascii_whitespace_byte(#[trigger] bytes[i]) {
        Some(
            choose|i: int|
                0 <= i < bytes.len() && !is_ascii_whitespace_byte(bytes[i]) && forall|j: int|
                    0 <= j < i ==> is_ascii_whitespace_byte(#[trigger] bytes[j]),
        )
    } else {
        None
    }
}

/// File suffix under which buffered standard input is routed, `parses`
/// telling whether the whole input is one JSON value: a document (`[`, or
/// `{` that parses whole) is `.json`, other `{` input `.jsonl`, anything
/// else `.csv`.
pub open spec fn spec_suffix_for(bytes: Seq<u8>, parses: bool) -> Seq<char> {
    match first_content(bytes) {
        Some(i) => if bytes[i] == 0x5B {
            ".json"@
        } else if bytes[i] == 0x7B {
            if parses {
                ".json"@
            } else {
                ".jsonl"@
            }
        } else {
            ".csv"@
        },
        None => ".csv"@,
    }
}

pub open spec fn spec_stdin_suffix(bytes: Seq<u8>) -> Seq<char> {
    spec_suffix_for(bytes, serde_json_accepts(bytes))
}

/// The first byte that is not ASCII whitespace.
fn first_content_byte(bytes: &[u8]) -> (r: Option<u8>)
    ensures
        match first_content(bytes@) {
            Some(i) => r == Some(bytes@[i]),
            None => r is None,
        },
{
    let mut i: usize = 0;
    while i < bytes.len()
        invariant
            i <= bytes@.len(),
            forall|j: int| 0 <= j < i ==> is_ascii_whitespace_byte(#[trigger] bytes@[j]),
        decreases bytes@.len() - i,
    {
        let b = bytes[i];
        if !(b == 0x20 || b == 0x09 || b == 0x0A || b == 0x0C || b == 0x0D) {
            proof {
                let k = choose|k: int|
                    0 <= k < bytes@.len() && !is_ascii_whitespace_byte(bytes@[k]) && forall|j: int|
                        0 <= j < k ==> is_ascii_whitespace_byte(#[trigger] bytes@[j]);
                assert(!is_ascii_whitespace_byte(bytes@[i as int]));
                if k < i {
                    assert(is_ascii_whitespace_byte(bytes@[k]));
                } else if k > i {
                    assert(is_ascii_whitespace_byte(bytes@[i as int]));
                }
                assert(first_content(bytes@) == Some(i as int));
            }
            return Some(b);
        }
        i = i + 1;
    }
    None
}

/// The suffix for input `bytes`, given whether they parse as one JSON value.
pub fn suffix_for(bytes: &[u8], parses: bool) -> (s: &'static str)
    ensures
        s@ == spec_suffix_for(bytes@, parses),
{
    match first_content_byte(bytes) {
        Some(b) => if b == 0x5B {
            ".json"
        } else if b == 0x7B {
            if parses {
                ".json"
            } else {
                ".jsonl"
            }
        } else {
            ".csv"
        },
        None => ".csv",
    }
}

/// The suffix for buffered standard input; the input is parsed as JSON only
/// when it starts with `{`.
pub fn stdin_suffix(bytes: &[u8]) -> (s: &'static str)
    ensures
        s@ == spec_stdin_suffix(bytes@),
{
    let parses = match first_content_byte(bytes) {
        Some(b) => b == 0x7B && json_parses(bytes),
        None => false,
    };
    proof {
        if !(first_content(bytes@) matches Some(i) && bytes@[i] == 0x7B) {
            assert(spec_suffix_for(bytes@, parses) == spec_suffix_for(bytes@, serde_json_accepts(bytes@)));
        }
    }
    suffix_for(bytes, parses)
}

// ---------------------------------------------------------------- records

/// The keys of a record, in order.
pub open spec fn keys_of(entries: Seq<(String, JsonValue)>) -> Seq<Seq<char>> {
    entries.map_values(|e: (String, JsonValue)| e.0@)
}

pub open spec fn is_nested(v: JsonValue) -> bool {
    v is Array || v is Object
}

/// A record holds an object or an array among its values.
pub open spec fn spec_record_has_nested(entries: Seq<(String, JsonValue)>) -> bool {
    exists|i: int| 0 <= i < entries.len() && is_nested(#[trigger] entries[i].1)
}

pub fn record_has_nested(record: &Vec<(String, JsonValue)>) -> (b: bool)
    ensures
        b == spec_record_has_nested(record@),
{
    let mut i: usize = 0;
    while i < record.len()
        invariant
            i <= record@.len(),
            forall|j: int| 0 <= j < i ==> !is_nested(#[trigger] record@[j].1),
        decreases record@.len() - i,
    {
        match &record[i].1 {
            JsonValue::Array { .. } | JsonValue::Object { .. } => {
                return true;
            },
            _ => {},
        }
        i = i + 1;
    }
    false
}

/// Any record holds a nested value; such input keeps its structure on the
/// native path instead of being flattened to text.
pub fn json_has_nested(records: &Vec<Vec<(String, JsonValue)>>) -> (b: bool)
    ensures
        b == exists|r: int| 0 <= r < records@.len() && spec_record_has_nested(#[trigger] records@[r]@),
{
    let mut r: usize = 0;
    while r < records.len()
        invariant
            r <= records@.len(),
            forall|k: int| 0 <= k < r ==> !spec_record_has_nested(#[trigger] records@[k]@),
        decreases records@.len() - r,
    {
        if record_has_nested(&records[r]) {
            return true;
        }
        r = r + 1;
    }
    false
}

/// Records of a document: the elements of a root array (each an object), or a
/// root object alone.
pub open spec fn document_records_ok(root: JsonValue, records: Seq<Vec<(String, JsonValue)>>) -> bool {
    match root {
        JsonValue::Array { items, .. } => records.len() == items@.len() && forall|i: int|
            0 <= i < items@.len() ==> (#[trigger] items@[i] matches JsonValue::Object { entries, .. }
                && records[i] == entries),
        JsonValue::Object { entries, .. } => records == seq![entries],
        _ => false,
    }
}

/// The first element of a root array that is not an object.
pub open spec fn first_non_object(items: Seq<JsonValue>) -> Option<int> {
    if exists|i: int| 0 <= i < items.len() && !(#[trigger] items[i] is Object) {
        Some(
            choose|i: int|
                0 <= i < items.len() && !(items[i] is Object) && forall|j: int|
                    0 <= j < i ==> (#[trigger] items[j] is Object),
        )
    } else {
        None
    }
}

pub open spec fn document_error(root: JsonValue) -> Option<JsonError> {
    match root {
        JsonValue::Array { items, .. } => match first_non_object(items@) {
            Some(i) => Some(
                JsonError::RecordNotObject { position: (i + 1) as usize, found: type_of(items@[i]) },
            ),
            None => None,
        },
        JsonValue::Object { .. } => None,
        _ => Some(JsonError::UnsupportedRoot { found: type_of(root) }),
    }
}

/// Index of the first element of `items` that is not an object, if any.
fn find_non_object(items: &Vec<JsonValue>) -> (r: Option<usize>)
    ensures
        match r {
            Some(i) => first_non_object(items@) == Some(i as int) && i < items@.len(),
            None => first_non_object(items@) is None,
        },
{
    let mut i: usize = 0;
    while i < items.len()
        invariant
            i <= items@.len(),
            forall|j: int| 0 <= j < i ==> (#[trigger] items@[j] is Object),
        decreases items@.len() - i,
    {
        let is_object = match &items[i] {
            JsonValue::Object { .. } => true,
            _ => false,
        };
        if !is_object {
            proof {
                let k = choose|k: int|
                    0 <= k < items@.len() && !(items@[k] is Object) && forall|j: int|
                        0 <= j < k ==> (#[trigger] items@[j] is Object);
                if k < i {
                    assert(items@[k] is Object);
                } else if k > i {
                    assert(items@[i as int] is Object);
                }
            }
            return Some(i);
        }
        i = i + 1;
    }
    None
}

/// The records a parsed JSON document holds.
pub fn records_from_document(root: JsonValue) -> (r: Result<Vec<Vec<(String, JsonValue)>>, JsonError>)
    ensures
        match r {
            Ok(records) => document_error(root) is None && document_records_ok(root, records@),
            Err(e) => document_error(root) == Some(e),
        },
{
    match root {
        JsonValue::Array { items, .. } => {
            if let Some(i) = find_non_object(&items) {
                let found = json_type(&items[i]);
                return Err(JsonError::RecordNotObject { position: i + 1, found });
            }
            let ghost all = items@;
            let mut items = items;
            let mut reversed: Vec<Vec<(String, JsonValue)>> = Vec::new();
            while items.len() > 0
                invariant
                    items@.len() + reversed@.len() == all.len(),
                    items@ == all.take(items@.len() as int),
                    forall|j: int| 0 <= j < all.len() ==> (#[trigger] all[j] is Object),
                    forall|k: int|
                        0 <= k < reversed@.len() ==> (#[trigger] all[all.len() - 1 - k] matches JsonValue::Object {
                            entries,
                            ..
                        } && reversed@[k] == entries),
                decreases items@.len(),
            {
                let ghost n = items@.len();
                let v = items.pop().unwrap();
                assert(v == all[n - 1]);
                assert(items@ =~= all.take(n - 1));
                match v {
                    JsonValue::Object { entries, .. } => {
                        reversed.push(entries);
                    },
                    _ => {
                        assert(all[n - 1] is Object);
                    },
                }
            }
            let mut records: Vec<Vec<(String, JsonValue)>> = Vec::new();
            while reversed.len() > 0
                invariant
                    records@.len() + reversed@.len() == all.len(),
                    forall|k: int|
                        0 <= k < reversed@.len() ==> (#[trigger] all[all.len() - 1 - k] matches JsonValue::Object {
                            entries,
                            ..
                        } && reversed@[k] == entries),
                    forall|k: int|
                        0 <= k < records@.len() ==> (#[trigger] all[k] matches JsonValue::Object {
                            entries,
                            ..
                        } && records@[k] == entries),
                decreases reversed@.len(),
            {
                let ghost n = reversed@.len();
                let ghost before = reversed@;
                let e = reversed.pop().unwrap();
                assert(e == before[n - 1]);
                let ghost idx = all.len() - 1 - (n - 1);
                assert(idx == records@.len());
                assert(all[idx] matches JsonValue::Object { entries, .. } && before[n - 1] == entries);
                records.push(e);
            }
            Ok(records)
        },
        JsonValue::Object { entries, .. } => {
            let mut records: Vec<Vec<(String, JsonValue)>> = Vec::new();
            records.push(entries);
            assert(records@ =~= seq![entries]);
            Ok(records)
        },
        other => {
            let found = json_type(&other);
            Err(JsonError::UnsupportedRoot { found })
        },
    }
}

// ---------------------------------------------------------------- parsing text

#[verifier::external_type_specification]
#[verifier::external_body]
pub struct ExSerdeJsonValue(Value);

/// What `serde_json::from_str::<serde_json::Value>` reads from `text`, as a
/// library value (`None` when it refuses the text).
pub uninterp spec fn serde_json_value(text: Seq<char>) -> Option<JsonValue>;

/// The library value of a `serde_json::Value`, variant for variant: numbers
/// keep their notation and nested values their compact text (`Display`).
#[verifier::external_body]
fn value_of(v: &Value) -> JsonValue {
    match v {
        Value::Null => JsonValue::Null,
        Value::Bool(b) => JsonValue::Bool(*b),
        Value::Number(n) => JsonValue::Number(n.to_string()),
        Value::String(t) => JsonValue::Str(t.clone()),
        Value::Array(a) => JsonValue::Array { items: a.iter().map(value_of).collect(), text: v.to_string() },
        Value::Object(m) => JsonValue::Object {
            entries: m.iter().map(|(k, x)| (k.clone(), value_of(x))).collect(),
            text: v.to_string(),
        },
    }
}

/// Calls `serde_json::from_str::<serde_json::Value>` on `text` and converts
/// the value it reads. Claimed: the result is `serde_json_value(text)`, a
/// function of the text alone.
#[verifier::external_body]
pub fn parse_json_text(text: &str) -> (r: Option<JsonValue>)
    ensures
        r == serde_json_value(text@),
{
    serde_json::from_str::<Value>(text).ok().map(|v| value_of(&v))
}

/// The records of the text of a JSON document: a parse error when
/// `serde_json` refuses the text, else what `records_from_document` gives for
/// its root value.
pub fn records_from_json_text(text: &str) -> (r: Result<Vec<Vec<(String, JsonValue)>>, JsonError>)
    ensures
        match serde_json_value(text@) {
            None => r == Err::<Vec<Vec<(String, JsonValue)>>, JsonError>(JsonError::InvalidDocument),
            Some(root) => match r {
                Ok(records) => document_error(root) is None && document_records_ok(root, records@),
                Err(e) => document_error(root) == Some(e),
            },
        },
{
    match parse_json_text(text) {
        None => Err(JsonError::InvalidDocument),
        Some(root) => records_from_document(root),
    }
}

/// The non-blank lines of a JSON Lines text, numbered from 1 by their place
/// among all lines, each with what `serde_json` reads from it once trimmed.
pub open spec fn jsonl_entries(lines: Seq<Seq<char>>) -> Seq<JsonLine>
    decreases lines.len(),
{
    if lines.len() == 0 {
        Seq::empty()
    } else {
        let before = jsonl_entries(lines.drop_last());
        if spec_is_blank_line(lines.last()) {
            before
        } else {
            before.push(JsonLine { number: lines.len() as usize, value: serde_json_value(trim(lines.last())) })
        }
    }
}

/// The records of a JSON Lines text given line by line: the object on each
/// non-blank line; the first line that `serde_json` refuses or that holds no
/// object is the error.
pub fn records_from_jsonl_text(lines: &Vec<String>) -> (r: Result<Vec<Vec<(String, JsonValue)>>, JsonError>)
    ensures
        match r {
            Ok(records) => first_bad_line(jsonl_entries(views(lines@))) is None && records@.len()
                == jsonl_entries(views(lines@)).len() && forall|i: int|
                0 <= i < records@.len() ==> line_holds(
                    #[trigger] jsonl_entries(views(lines@))[i],
                    records@[i],
                ),
            Err(e) => first_bad_line(jsonl_entries(views(lines@))) matches Some(i) && e == line_error(
                jsonl_entries(views(lines@))[i],
            ),
        },
{
    let mut entries: Vec<JsonLine> = Vec::new();
    let mut i: usize = 0;
    while i < lines.len()
        invariant
            i <= lines@.len(),
            entries@ == jsonl_entries(views(lines@).take(i as int)),
        decreases lines@.len() - i,
    {
        assert(views(lines@).take(i + 1).drop_last() =~= views(lines@).take(i as int));
        assert(views(lines@).take(i + 1).last() == lines@[i as int]@);
        if !is_blank_line(lines[i].as_str()) {
            let t = string_from_chars(trimmed(lines[i].as_str()).as_slice());
            let value = parse_json_text(t.as_str());
            entries.push(JsonLine { number: i + 1, value });
        }
        i = i + 1;
    }
    assert(views(lines@).take(lines@.len() as int) =~= views(lines@));
    records_from_lines(entries)
}

/// One non-blank line of a JSON Lines file: its number (from 1) and its
/// value, `None` when the line is not valid JSON.
#[derive(Debug)]
pub struct JsonLine {
    pub number: usize,
    pub value: Option<JsonValue>,
}

/// A line is blank when nothing but whitespace is on it; blank lines are skipped.
pub open spec fn spec_is_blank_line(line: Seq<char>) -> bool {
    trim(line).len() == 0
}

pub fn is_blank_line(line: &str) -> (b: bool)
    ensures
        b == spec_is_blank_line(line@),
{
    trimmed(line).len() == 0
}

pub open spec fn line_ok(l: JsonLine) -> bool {
    l.value matches Some(v) && v is Object
}

pub open spec fn line_holds(l: JsonLine, e: Vec<(String, JsonValue)>) -> bool {
    match l.value {
        Some(JsonValue::Object { entries, .. }) => entries == e,
        _ => false,
    }
}

pub open spec fn line_error(l: JsonLine) -> JsonError {
    match l.value {
        Some(v) => JsonError::LineNotObject { line: l.number, found: type_of(v) },
        None => JsonError::InvalidLine { line: l.number },
    }
}

pub open spec fn first_bad_line(lines: Seq<JsonLine>) -> Option<int> {
    if exists|i: int| 0 <= i < lines.len() && !line_ok(#[trigger] lines[i]) {
        Some(
            choose|i: int|
                0 <= i < lines.len() && !line_ok(lines[i]) && forall|j: int|
                    0 <= j < i ==> line_ok(#[trigger] lines[j]),
        )
    } else {
        None
    }
}

/// The records of a JSON Lines file: the object on each non-blank line; the
/// first line that is invalid or not an object is the error.
pub fn records_from_lines(lines: Vec<JsonLine>) -> (r: Result<Vec<Vec<(String, JsonValue)>>, JsonError>)
    ensures
        match r {
            Ok(records) => first_bad_line(lines@) is None && records@.len() == lines@.len() && forall|i: int|
                0 <= i < lines@.len() ==> line_holds(#[trigger] lines@[i], records@[i]),
            Err(e) => first_bad_line(lines@) matches Some(i) && e == line_error(lines@[i]),
        },
{
    let mut i: usize = 0;
    while i < lines.len()
        invariant
            i <= lines@.len(),
            forall|j: int| 0 <= j < i ==> line_ok(#[trigger] lines@[j]),
        decreases lines@.len() - i,
    {
        let ok = match &lines[i].value {
            Some(JsonValue::Object { .. }) => true,
            _ => false,
        };
        if !ok {
            proof {
                let k = choose|k: int|
                    0 <= k < lines@.len() && !line_ok(lines@[k]) && forall|j: int|
                        0 <= j < k ==> line_ok(#[trigger] lines@[j]);
                if k < i {
                    assert(line_ok(lines@[k]));
                } else if k > i {
                    assert(line_ok(lines@[i as int]));
                }
            }
            let e = match &lines[i].value {
                Some(v) => JsonError::LineNotObject { line: lines[i].number, found: json_type(v) },
                None => JsonError::InvalidLine { line: lines[i].number },
            };
            return Err(e);
        }
        i = i + 1;
    }
    let ghost all = lines@;
    let mut lines = lines;
    let mut reversed: Vec<Vec<(String, JsonValue)>> = Vec::new();
    while lines.len() > 0
        invariant
            lines@.len() + reversed@.len() == all.len(),
            lines@ == all.take(lines@.len() as int),
            forall|j: int| 0 <= j < all.len() ==> line_ok(#[trigger] all[j]),
            forall|k: int|
                0 <= k < reversed@.len() ==> line_holds(#[trigger] all[all.len() - 1 - k], reversed@[k]),
        decreases lines@.len(),
    {
        let ghost n = lines@.len();
        let l = lines.pop().unwrap();
        assert(l == all[n - 1]);
        assert(lines@ =~= all.take(n - 1));
        assert(line_ok(all[n - 1]));
        match l.value {
            Some(JsonValue::Object { entries, .. }) => {
                reversed.push(entries);
            },
            _ => {},
        }
    }
    let mut records: Vec<Vec<(String, JsonValue)>> = Vec::new();
    while reversed.len() > 0
        invariant
            records@.len() + reversed@.len() == all.len(),
            forall|k: int|
                0 <= k < reversed@.len() ==> line_holds(#[trigger] all[all.len() - 1 - k], reversed@[k]),
            forall|k: int|
                0 <= k < records@.len() ==> line_holds(#[trigger] all[k], records@[k]),
        decreases reversed@.len(),
    {
        let ghost n = reversed@.len();
        let ghost before = reversed@;
        let e = reversed.pop().unwrap();
        assert(e == before[n - 1]);
        let ghost idx = all.len() - 1 - (n - 1);
        assert(idx == records@.len());
        assert(line_holds(all[idx], before[n - 1]));
        records.push(e);
    }
    Ok(records)
}

// ---------------------------------------------------------------- table

/// All keys of all records, record by record.
pub open spec fn all_keys(records: Seq<Vec<(String, JsonValue)>>) -> Seq<Seq<char>>
    decreases records.len(),
{
    if records.len() == 0 {
        Seq::empty()
    } else {
        all_keys(records.drop_last()) + keys_of(records.last()@)
    }
}

/// The distinct elements of `s`, in order of first occurrence.
pub open spec fn dedup_first(s: Seq<Seq<char>>) -> Seq<Seq<char>>
    decreases s.len(),
{
    if s.len() == 0 {
        Seq::empty()
    } else {
        let d = dedup_first(s.drop_last());
        if d.contains(s.last()) {
            d
        } else {
            d.push(s.last())
        }
    }
}

/// Column names of the flat table: every key, once, in order of first appearance.
pub open spec fn spec_headers(records: Seq<Vec<(String, JsonValue)>>) -> Seq<Seq<char>> {
    dedup_first(all_keys(records))
}

pub(crate) fn contains_string(v: &Vec<String>, s: &String) -> (b: bool)
    ensures
        b == views(v@).contains(s@),
{
    let mut i: usize = 0;
    while i < v.len()
        invariant
            i <= v@.len(),
            forall|j: int| 0 <= j < i ==> (#[trigger] v@[j])@ != s@,
        decreases v@.len() - i,
    {
        if v[i] == *s {
            assert(views(v@)[i as int] == s@);
            return true;
        }
        i = i + 1;
    }
    proof {
        if views(v@).contains(s@) {
            let j = choose|j: int| 0 <= j < v@.len() && #[trigger] views(v@)[j] == s@;
            assert(v@[j]@ == s@);
        }
    }
    false
}

pub fn collect_headers(records: &Vec<Vec<(String, JsonValue)>>) -> (headers: Vec<String>)
    ensures
        views(headers@) == spec_headers(records@),
{
    let mut headers: Vec<String> = Vec::new();
    let mut r: usize = 0;
    assert(records@.take(0) =~= Seq::<Vec<(String, JsonValue)>>::empty());
    while r < records.len()
        invariant
            r <= records@.len(),
            views(headers@) == dedup_first(all_keys(records@.take(r as int))),
        decreases records@.len() - r,
    {
        let record = &records[r];
        let ghost base = all_keys(records@.take(r as int));
        let mut k: usize = 0;
        assert(keys_of(record@).take(0) =~= Seq::<Seq<char>>::empty());
        assert(base + keys_of(record@).take(0) =~= base);
        while k < record.len()
            invariant
                k <= record@.len(),
                views(headers@) == dedup_first(base + keys_of(record@).take(k as int)),
            decreases record@.len() - k,
        {
            let key = &record[k].0;
            let ghost s = base + keys_of(record@).take(k as int);
            let ghost s2 = base + keys_of(record@).take(k + 1);
            assert(s2.drop_last() =~= s);
            assert(s2.last() == key@);
            if !contains_string(&headers, key) {
                let c: String = key.clone();
                headers.push(c);
                assert(views(headers@) =~= dedup_first(s).push(key@));
            }
            k = k + 1;
        }
        proof {
            assert(keys_of(record@).take(record@.len() as int) =~= keys_of(record@));
            assert(records@.take(r + 1).drop_last() =~= records@.take(r as int));
        }
        r = r + 1;
    }
    assert(records@.take(records@.len() as int) =~= records@);
    headers
}

/// What a cell shows of a value: nothing for null, `true`/`false`, a number's
/// or a string's text, or the compact JSON of an array or an object.
pub open spec fn cell_text(v: JsonValue) -> Seq<char> {
    match v {
        JsonValue::Null => Seq::empty(),
        JsonValue::Bool(b) => if b {
            seq!['t', 'r', 'u', 'e']
        } else {
            seq!['f', 'a', 'l', 's', 'e']
        },
        JsonValue::Number(n) => n@,
        JsonValue::Str(s) => s@,
        JsonValue::Array { text, .. } => text@,
        JsonValue::Object { text, .. } => text@,
    }
}

pub fn cell_value(v: &JsonValue) -> (s: String)
    ensures
        s@ == cell_text(*v),
{
    match v {
        JsonValue::Null => String::new(),
        JsonValue::Bool(b) => {
            if *b {
                crate::text::string_from_chars(&['t', 'r', 'u', 'e'])
            } else {
                crate::text::string_from_chars(&['f', 'a', 'l', 's', 'e'])
            }
        },
        JsonValue::Number(n) => n.clone(),
        JsonValue::Str(s) => s.clone(),
        JsonValue::Array { text, .. } => text.clone(),
        JsonValue::Object { text, .. } => text.clone(),
    }
}

/// The value under `key` in a record (the first entry with that key).
pub open spec fn lookup(entries: Seq<(String, JsonValue)>, key: Seq<char>) -> Option<JsonValue> {
    if exists|i: int| 0 <= i < entries.len() && (#[trigger] entries[i]).0@ == key {
        Some(
            entries[choose|i: int|
                0 <= i < entries.len() && entries[i].0@ == key && forall|j: int|
                    0 <= j < i ==> (#[trigger] entries[j]).0@ != key].1,
        )
    } else {
        None
    }
}

/// The cell of a record under a column: the value's text, or nothing when the
/// record lacks the key.
pub open spec fn table_cell(entries: Seq<(String, JsonValue)>, key: Seq<char>) -> Seq<char> {
    match lookup(entries, key) {
        Some(v) => cell_text(v),
        None => Seq::empty(),
    }
}

fn cell_for(record: &Vec<(String, JsonValue)>, key: &String) -> (s: String)
    ensures
        s@ == table_cell(record@, key@),
{
    let mut i: usize = 0;
    while i < record.len()
        invariant
            i <= record@.len(),
            forall|j: int| 0 <= j < i ==> (#[trigger] record@[j]).0@ != key@,
        decreases record@.len() - i,
    {
        if record[i].0 == *key {
            proof {
                let k = choose|k: int|
                    0 <= k < record@.len() && record@[k].0@ == key@ && forall|j: int|
                        0 <= j < k ==> (#[trigger] record@[j]).0@ != key@;
                if k < i {
                    assert(record@[k].0@ != key@);
                } else if k > i {
                    assert(record@[i as int].0@ != key@);
                }
            }
            return cell_value(&record[i].1);
        }
        i = i + 1;
    }
    String::new()
}

/// A flat table: column names and one row of cells per record.
#[derive(Debug)]
pub struct JsonTable {
    pub headers: Vec<String>,
    pub rows: Vec<Vec<String>>,
}

/// The flat table of the records: no column and no row when no record has a
/// key; otherwise one row per record, its cells in column order.
pub fn json_table(records: &Vec<Vec<(String, JsonValue)>>) -> (t: JsonTable)
    ensures
        views(t.headers@) == spec_headers(records@),
        t.headers@.len() == 0 ==> t.rows@.len() == 0,
        t.headers@.len() > 0 ==> t.rows@.len() == records@.len(),
        forall|r: int|
            0 <= r < t.rows@.len() ==> (#[trigger] t.rows@[r])@.len() == t.headers@.len(),
        forall|r: int, h: int|
            0 <= r < t.rows@.len() && 0 <= h < t.headers@.len() ==> (#[trigger] t.rows@[r]@[h])@
                == table_cell(records@[r]@, t.headers@[h]@),
{
    let headers = collect_headers(records);
    let mut rows: Vec<Vec<String>> = Vec::new();
    if headers.len() == 0 {
        return JsonTable { headers, rows };
    }
    let mut r: usize = 0;
    while r < records.len()
        invariant
            r <= records@.len(),
            rows@.len() == r,
            forall|q: int| 0 <= q < r ==> (#[trigger] rows@[q])@.len() == headers@.len(),
            forall|q: int, h: int|
                0 <= q < r && 0 <= h < headers@.len() ==> (#[trigger] rows@[q]@[h])@ == table_cell(
                    records@[q]@,
                    headers@[h]@,
                ),
        decreases records@.len() - r,
    {
        let mut row: Vec<String> = Vec::new();
        let mut h: usize = 0;
        while h < headers.len()
            invariant
                h <= headers@.len(),
                r < records@.len(),
                row@.len() == h,
                forall|j: int| 0 <= j < h ==> (#[trigger] row@[j])@ == table_cell(records@[r as int]@, headers@[j]@),
            decreases headers@.len() - h,
        {
            row.push(cell_for(&records[r], &headers[h]));
            h = h + 1;
        }
        rows.push(row);
        r = r + 1;
    }
    JsonTable { headers, rows }
}

// ---------------------------------------------------------------- laws

proof fn lemma_push_contains(a: Seq<Seq<char>>, y: Seq<char>, x: Seq<char>)
    ensures
        a.push(y).contains(x) <==> (a.contains(x) || x == y),
{
    let e = a.push(y);
    if e.contains(x) {
        let i = choose|i: int| 0 <= i < e.len() && e[i] == x;
        if i < a.len() {
            assert(a[i] == x);
        }
    }
    if a.contains(x) {
        let i = choose|i: int| 0 <= i < a.len() && a[i] == x;
        assert(e[i] == x);
    }
    if x == y {
        assert(e[a.len() as int] == x);
    }
}

proof fn lemma_dedup_contains(s: Seq<Seq<char>>, x: Seq<char>)
    ensures
        dedup_first(s).contains(x) <==> s.contains(x),
    decreases s.len(),
{
    if s.len() > 0 {
        let p = s.drop_last();
        let l = s.last();
        lemma_dedup_contains(p, x);
        assert(s =~= p.push(l));
        lemma_push_contains(p, l, x);
        let d = dedup_first(p);
        lemma_push_contains(d, l, x);
        if d.contains(l) && x == l {
            assert(d.contains(x));
        }
    }
}

proof fn lemma_dedup_distinct(s: Seq<Seq<char>>)
    ensures
        forall|i: int, j: int|
            0 <= i < j < dedup_first(s).len() ==> dedup_first(s)[i] != dedup_first(s)[j],
    decreases s.len(),
{
    if s.len() > 0 {
        lemma_dedup_distinct(s.drop_last());
        let d = dedup_first(s.drop_last());
        if !d.contains(s.last()) {
            let e = d.push(s.last());
            assert forall|i: int, j: int| 0 <= i < j < e.len() implies e[i] != e[j] by {
                if j == d.len() {
                    if e[i] == e[j] {
                        assert(d[i] == s.last());
                    }
                }
            }
        }
    }
}

/// Every key of every record becomes exactly one column: the header row holds
/// no name twice, and a name is a header exactly when some record has that key.
pub proof fn law_headers_cover_keys_once(records: Seq<Vec<(String, JsonValue)>>, key: Seq<char>)
    ensures
        spec_headers(records).contains(key) <==> all_keys(records).contains(key),
        forall|i: int, j: int|
            0 <= i < j < spec_headers(records).len() ==> spec_headers(records)[i]
                != spec_headers(records)[j],
{
    lemma_dedup_contains(all_keys(records), key);
    lemma_dedup_distinct(all_keys(records));
}

} // verus!
