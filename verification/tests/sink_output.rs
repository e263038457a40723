use indexmap::IndexMap;
use serde_json::Value;
use vtiger_client::sink::{cell_text, record_json, ExportRecord, ExportSink};
use vtiger_client::types::FieldValue;
use vtiger_client::ExportFormat;

fn record(pairs: Vec<(&str, FieldValue)>, pretty: &str) -> ExportRecord {
    let mut fields = IndexMap::new();
    for (k, v) in pairs {
        fields.insert(k.to_string(), v);
    }
    ExportRecord { fields, pretty_json: pretty.to_string() }
}

fn s(t: &str) -> FieldValue {
    FieldValue::String(t.to_string())
}

#[test]
fn cells_render_each_kind() {
    assert_eq!(cell_text(&s("a\nb\tc")), "a\\nb\\tc");
    assert_eq!(cell_text(&FieldValue::Number("1.5".to_string())), "1.5");
    assert_eq!(cell_text(&FieldValue::Bool(true)), "true");
    assert_eq!(cell_text(&FieldValue::Bool(false)), "false");
    assert_eq!(cell_text(&FieldValue::Null), "");
    assert_eq!(cell_text(&FieldValue::Array("[1,2]".to_string())), "[1,2]");
    assert_eq!(cell_text(&FieldValue::Object("{\"a\":1}".to_string())), "{\"a\":1}");
}

#[test]
fn formats_select_the_files() {
    let sink = ExportSink::new(&vec![ExportFormat::Json, ExportFormat::CSV]);
    assert!(sink.writes_json());
    assert!(sink.writes_csv());
    assert!(!sink.writes_json_lines());
    assert_eq!(sink.opening(), Some("[".to_string()));
    let none = ExportSink::new(&vec![]);
    assert_eq!(none.opening(), None);
    let end = none.finish();
    assert_eq!(end.json, None);
    assert_eq!(end.csv, None);
}

#[test]
fn json_file_is_one_array() {
    let mut sink = ExportSink::new(&vec![ExportFormat::Json]);
    let mut file = sink.opening().unwrap();
    for i in 0..3 {
        let pretty = format!("{{\n  \"id\": \"{i}\"\n}}");
        let out = sink.accept(&record(vec![("id", s(&i.to_string()))], &pretty));
        assert!(out.json_lines.is_none());
        file.push_str(&out.json.unwrap());
    }
    assert_eq!(sink.written(), 3);
    let end = sink.finish();
    assert_eq!(end.csv, None);
    file.push_str(&end.json.unwrap());
    assert_eq!(
        file,
        "[{\n  \"id\": \"0\"\n}\n,\n{\n  \"id\": \"1\"\n}\n,\n{\n  \"id\": \"2\"\n}\n\n]"
    );
    let parsed: serde_json::Value = serde_json::from_str(&file).unwrap();
    assert_eq!(parsed.as_array().unwrap().len(), 3);
}

#[test]
fn empty_json_export_is_an_empty_array() {
    let sink = ExportSink::new(&vec![ExportFormat::Json]);
    let file = sink.opening().unwrap() + &sink.finish().json.unwrap();
    assert_eq!(file, "[\n]");
    let parsed: serde_json::Value = serde_json::from_str(&file).unwrap();
    assert_eq!(parsed.as_array().unwrap().len(), 0);
}

#[test]
fn json_lines_get_one_line_per_record() {
    let mut sink = ExportSink::new(&vec![ExportFormat::JsonLines]);
    let out = sink.accept(&record(vec![("a", s("1"))], "unused"));
    assert_eq!(out.json_lines, Some("{\"a\":\"1\"}\n".to_string()));
    assert!(out.json.is_none());
    assert_eq!(sink.finish().json, None);
}

#[test]
fn csv_gets_header_then_quoted_rows() {
    let mut sink = ExportSink::new(&vec![ExportFormat::CSV]);
    let first = sink.accept(&record(
        vec![("id", s("1")), ("note", s("say \"hi\"\nthere")), ("n", FieldValue::Number("3".to_string()))],
        "",
    ));
    assert!(!first.stopped);
    let second = sink.accept(&record(
        vec![("id", s("2")), ("note", FieldValue::Null), ("n", FieldValue::Bool(false))],
        "",
    ));
    assert!(!second.stopped);
    assert_eq!(sink.written(), 2);
    let end = sink.finish();
    assert_eq!(end.json, None);
    assert_eq!(
        String::from_utf8(end.csv.unwrap()).unwrap(),
        "\"id\",\"note\",\"n\"\r\n\"1\",\"say \"\"hi\"\"\\nthere\",\"3\"\r\n\"2\",\"\",\"false\"\r\n"
    );
}

#[test]
fn csv_file_without_records_is_empty() {
    let sink = ExportSink::new(&vec![ExportFormat::CSV]);
    assert!(sink.writes_csv());
    assert_eq!(sink.finish().csv, Some(vec![]));
}

#[test]
fn csv_row_of_other_width_stops_writing() {
    let mut sink = ExportSink::new(&vec![ExportFormat::CSV, ExportFormat::JsonLines, ExportFormat::Json]);
    sink.accept(&record(vec![("a", s("1")), ("b", s("2"))], "{}"));
    let out = sink.accept(&record(vec![("a", s("x"))], "{}"));
    assert!(out.stopped);
    assert!(sink.stopped());
    assert_eq!(out.json_lines, Some("{\"a\":\"x\"}\n".to_string()));
    assert_eq!(out.json, Some(",\n{}\n".to_string()));
    assert_eq!(sink.written(), 1);
    let end = sink.finish();
    assert_eq!(end.json, None);
    assert_eq!(
        String::from_utf8(end.csv.unwrap()).unwrap(),
        "\"a\",\"b\"\r\n\"1\",\"2\"\r\n\"x"
    );
}

#[test]
fn other_width_is_fine_without_csv() {
    let mut sink = ExportSink::new(&vec![ExportFormat::Json]);
    sink.accept(&record(vec![("a", s("1")), ("b", s("2"))], "{}"));
    let out = sink.accept(&record(vec![("a", s("1"))], "{}"));
    assert!(!out.stopped);
    assert_eq!(out.json, Some(",\n{}\n".to_string()));
    assert_eq!(sink.finish().json, Some("\n]".to_string()));
}

#[test]
fn progress_is_reported_every_ten_thousand() {
    let mut sink = ExportSink::new(&vec![]);
    let mut reports = vec![];
    for _ in 0..20001 {
        let out = sink.accept(&record(vec![], ""));
        if let Some(n) = out.progress {
            reports.push(n);
        }
    }
    assert_eq!(reports, vec![10000, 20000]);
    assert_eq!(sink.written(), 20001);
}

#[test]
fn record_json_matches_serde_json() {
    let mut inner = serde_json::Map::new();
    inner.insert("z".to_string(), Value::Bool(true));
    let entries: Vec<(&str, Value)> = vec![
        ("id", Value::String("12x3".to_string())),
        ("note", Value::String("say \"hi\"\n\u{1}é".to_string())),
        ("n", Value::Number(serde_json::Number::from(-7))),
        ("x", Value::Number(serde_json::Number::from_f64(1.5).unwrap())),
        ("b", Value::Bool(false)),
        ("none", Value::Null),
        ("list", Value::Array(vec![Value::Number(serde_json::Number::from(1)), Value::Null])),
        ("obj", Value::Object(inner)),
    ];
    let mut original = IndexMap::new();
    let mut fields = IndexMap::new();
    for (k, v) in entries {
        let f = match &v {
            Value::Null => FieldValue::Null,
            Value::Bool(b) => FieldValue::Bool(*b),
            Value::Number(n) => FieldValue::Number(n.to_string()),
            Value::String(t) => FieldValue::String(t.clone()),
            Value::Array(_) => FieldValue::Array(serde_json::to_string(&v).unwrap()),
            Value::Object(_) => FieldValue::Object(serde_json::to_string(&v).unwrap()),
        };
        fields.insert(k.to_string(), f);
        original.insert(k.to_string(), v);
    }
    let expected = serde_json::to_string(&original).unwrap();
    assert_eq!(record_json(&fields), expected);
    let mut sink = ExportSink::new(&vec![ExportFormat::JsonLines]);
    let out = sink.accept(&ExportRecord { fields, pretty_json: String::new() });
    assert_eq!(out.json_lines, Some(expected + "\n"));
    assert_eq!(record_json(&IndexMap::new()), "{}");
}
