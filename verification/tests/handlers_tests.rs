use infinite::json::{JsonError, JsonHandler};
use infinite::runtime::{TextError, TextHandler};
use infinite::tsv::{TsvData, TsvError, TsvHandler, TsvRow};

fn strings(v: &[&str]) -> Vec<String> {
    v.iter().map(|s| s.to_string()).collect()
}

#[test]
fn test_tsv_read_write() {
    let data = vec![
        strings(&["Name", "Age", "City"]),
        strings(&["Alice", "30", "NYC"]),
        strings(&["Bob", "25", "LA"]),
    ];
    let text = TsvHandler::format(&data);
    assert_eq!(text, "Name\tAge\tCity\nAlice\t30\tNYC\nBob\t25\tLA\n");
    let read_data = TsvHandler::parse_from_bytes(text.as_bytes()).unwrap();
    assert_eq!(data, read_data);
}

#[test]
fn tsv_fields_with_commas_are_quoted() {
    assert_eq!(TsvHandler::quote_field(&"a,b".to_string()), "\"a,b\"");
    assert_eq!(TsvHandler::quote_field(&"ab".to_string()), "ab");
    let row = strings(&["x", "1,2", ""]);
    assert_eq!(TsvHandler::format_row(&row), "x\t\"1,2\"\t");
    let data = vec![strings(&["h1", "h2"]), strings(&["a,b", "c"])];
    let text = TsvHandler::format(&data);
    assert_eq!(TsvHandler::parse(&text).unwrap(), data);
}

#[test]
fn tsv_joined_has_no_final_newline() {
    let data = vec![strings(&["a", "b"]), strings(&["c", "d"])];
    assert_eq!(TsvHandler::format_joined(&data), "a\tb\nc\td");
    assert_eq!(TsvHandler::format_joined(&Vec::new()), "");
    assert_eq!(TsvHandler::format(&Vec::new()), "");
}

#[test]
fn tsv_rows_may_differ_in_length() {
    let rows = TsvHandler::parse("a\tb\tc\nd\n").unwrap();
    assert_eq!(rows, vec![strings(&["a", "b", "c"]), strings(&["d"])]);
}

#[test]
fn tsv_invalid_utf8_is_an_error() {
    assert_eq!(TsvHandler::parse_from_bytes(&[0xff, 0xfe]).unwrap_err(), TsvError::InvalidUtf8);
}

#[test]
fn tsv_data_from_rows_keys_cells_by_header() {
    let rows = vec![strings(&["id", "name"]), strings(&["1", "axe"]), strings(&["2"])];
    let data = TsvData::from_rows(&rows);
    assert_eq!(data.headers, strings(&["id", "name"]));
    assert_eq!(data.rows.len(), 2);
    assert_eq!(data.rows[0].get(&"name".to_string()).unwrap(), "axe");
    assert_eq!(data.rows[1].get(&"id".to_string()).unwrap(), "2");
    assert!(data.rows[1].get(&"name".to_string()).is_none());
    let back = data.to_rows();
    assert_eq!(back, vec![strings(&["id", "name"]), strings(&["1", "axe"]), strings(&["2", ""])]);
}

#[test]
fn tsv_data_from_no_rows_is_empty() {
    let data = TsvData::from_rows(&Vec::new());
    assert!(data.headers.is_empty());
    assert!(data.rows.is_empty());
}

#[test]
fn tsv_row_insert_replaces() {
    let mut row = TsvRow::new();
    row.insert("a".to_string(), "1".to_string());
    row.insert("a".to_string(), "2".to_string());
    assert_eq!(row.data.len(), 1);
    assert_eq!(row.get(&"a".to_string()).unwrap(), "2");
    let cells = TsvRow::from_cells(&strings(&["x", "y"]), &strings(&["1", "2", "3"]));
    assert_eq!(cells.data.len(), 2);
    assert_eq!(cells.get(&"y".to_string()).unwrap(), "2");
}

fn sample_json() -> serde_json::Value {
    let mut map = serde_json::Map::new();
    map.insert("name".to_string(), serde_json::Value::String("test".to_string()));
    map.insert("value".to_string(), serde_json::Value::from(42));
    map.insert(
        "items".to_string(),
        serde_json::Value::Array(vec![
            serde_json::Value::from("a"),
            serde_json::Value::from("b"),
            serde_json::Value::from("c"),
        ]),
    );
    serde_json::Value::Object(map)
}

#[test]
fn test_json_read_write() {
    let data = sample_json();
    let bytes = JsonHandler::to_bytes(&data).unwrap();
    let read_data = JsonHandler::parse_from_bytes(&bytes).unwrap();
    assert_eq!(data, read_data);
}

#[test]
fn json_text_is_pretty() {
    let mut map = serde_json::Map::new();
    map.insert("a".to_string(), serde_json::Value::from(1));
    let text = JsonHandler::to_text(&serde_json::Value::Object(map)).unwrap();
    assert_eq!(text, "{\n  \"a\": 1\n}");
}

#[test]
fn json_byte_order_mark_is_skipped() {
    let v = JsonHandler::parse_str("\u{feff}{\"k\": true}").unwrap();
    assert_eq!(v["k"], serde_json::Value::Bool(true));
    assert_eq!(JsonHandler::strip_bom("\u{feff}\u{feff}x"), "x");
    assert_eq!(JsonHandler::strip_bom("x\u{feff}"), "x\u{feff}");
}

#[test]
fn json_errors() {
    assert_eq!(JsonHandler::parse_str("{not json").unwrap_err(), JsonError::InvalidJson);
    assert_eq!(JsonHandler::parse_from_bytes(&[0xc3, 0x28]).unwrap_err(), JsonError::InvalidUtf8);
}

#[test]
fn test_text_read_write() {
    let content = "Hello, World!\nThis is a test.";
    let bytes = TextHandler::encode(content);
    let read_content = TextHandler::decode(&bytes).unwrap();
    assert_eq!(content, read_content);
}

#[test]
fn text_invalid_utf8_is_an_error() {
    assert_eq!(TextHandler::decode(&[0x80]).unwrap_err(), TextError::InvalidUtf8);
}
