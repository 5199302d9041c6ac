use liquers::error::ErrorType;
use liquers::metadata::{Metadata, MetadataRecord};
use liquers::parse::parse_query;
use liquers::state::State;
use liquers::value::{DefaultValueSerializer, Value, ValueInterface};

#[test]
fn test_convert_int() {
    let v = Value::I32(123);
    let x: i32 = v.try_into_i32().unwrap();
    assert_eq!(x, 123);
}

#[test]
fn test_convert_text() {
    let v = Value::from("abc".to_owned());
    assert!(matches!(&v, Value::Text(t) if t == "abc"));
    let x: String = v.try_into_string().unwrap();
    assert_eq!(x, "abc");
}

fn json(v: &Value) -> String {
    String::from_utf8(v.as_bytes("json").unwrap()).unwrap()
}

#[test]
fn test_serde_to_json() {
    assert_eq!(json(&Value::Empty), "null");
    assert_eq!(json(&Value::Bool(true)), "true");
    assert_eq!(json(&Value::I32(123)), "123");
    assert_eq!(json(&Value::I64(123)), "123");
    assert_eq!(json(&Value::from("abc".to_owned())), "\"abc\"");
    let v = Value::Array(vec![Value::Empty, Value::Bool(false), Value::I32(123)]);
    assert_eq!(json(&v), "[null,false,123]");
    let v = Value::Object(vec![
        ("a".to_owned(), Value::I32(123)),
        ("test".to_owned(), Value::Empty),
    ]);
    assert_eq!(json(&v), "{\"a\":123,\"test\":null}");
}

#[test]
fn json_of_compound_values() {
    assert_eq!(json(&Value::I64(i64::MIN)), "-9223372036854775808");
    assert_eq!(json(&Value::I32(-7)), "-7");
    assert_eq!(json(&Value::I32(0)), "0");
    assert_eq!(json(&Value::Text("a\"b\\c\n".to_owned())), "\"a\\\"b\\\\c\\n\"");
    assert_eq!(json(&Value::Bytes(vec![0, 10, 255])), "[0,10,255]");
    assert_eq!(json(&Value::Array(vec![])), "[]");
    assert_eq!(json(&Value::Object(vec![])), "{}");
    let nested = Value::Object(vec![(
        "k\"".to_owned(),
        Value::Array(vec![Value::Object(vec![("x".to_owned(), Value::Text("y".to_owned()))])]),
    )]);
    assert_eq!(json(&nested), "{\"k\\\"\":[{\"x\":\"y\"}]}");
    let with_extension =
        Value::Array(vec![Value::I32(1), Value::Extension("frame".to_owned(), vec![1])]);
    let e = with_extension.as_bytes("json").unwrap_err();
    assert_eq!(e.error_type, ErrorType::SerializationError);
    assert_eq!(e.message, "Serialization to json not supported by array");
}

#[test]
fn formats() {
    assert_eq!(Value::Empty.as_bytes("txt").unwrap(), b"none");
    assert_eq!(Value::Bool(false).as_bytes("html").unwrap(), b"false");
    assert_eq!(Value::I64(-12).as_bytes("txt").unwrap(), b"-12");
    assert_eq!(Value::Text("žluť".to_owned()).as_bytes("txt").unwrap(), "žluť".as_bytes());
    assert_eq!(Value::Bytes(vec![1, 2]).as_bytes("b").unwrap(), vec![1, 2]);
    let e = Value::Text("x".to_owned()).as_bytes("b").unwrap_err();
    assert_eq!(e.message, "Serialization to b not supported by text");
    let e = Value::Array(vec![]).as_bytes("txt").unwrap_err();
    assert_eq!(e.message, "Serialization to txt not supported by array");
    let e = Value::Empty.as_bytes("csv").unwrap_err();
    assert_eq!(e.error_type, ErrorType::SerializationError);
    assert_eq!(e.message, "Unsupported format csv");

    let v = Value::deserialize_from_bytes(&"žluť".as_bytes().to_vec(), "text", "txt").unwrap();
    assert_eq!(v.try_into_string().unwrap(), "žluť");
    let e = Value::deserialize_from_bytes(&vec![0xff, 0xfe], "text", "html").unwrap_err();
    assert_eq!(e.message, "Malformed data in format html");
    let v = Value::deserialize_from_bytes(&vec![0xff, 0xfe], "bytes", "b").unwrap();
    assert!(matches!(v, Value::Bytes(b) if b == vec![0xff, 0xfe]));
    let e = Value::deserialize_from_bytes(&vec![], "x", "csv").unwrap_err();
    assert_eq!(e.message, "Unsupported format csv");
}

#[test]
fn value_names() {
    let all = vec![
        (Value::none(), "generic", "none", "json", "data.json", "application/json"),
        (Value::from_bool(true), "generic", "bool", "json", "data.json", "application/json"),
        (Value::from_i32(1), "generic", "i32", "json", "data.json", "application/json"),
        (Value::from_i64(1), "generic", "i64", "json", "data.json", "application/json"),
        (Value::new("t"), "text", "text", "txt", "text.txt", "text/plain"),
        (Value::Array(vec![]), "generic", "array", "json", "data.json", "application/json"),
        (Value::Object(vec![]), "dictionary", "object", "json", "data.json", "application/json"),
        (Value::from_bytes(vec![]), "bytes", "bytes", "b", "binary.b", "application/octet-stream"),
        (
            Value::Extension("frame".to_owned(), vec![]),
            "frame",
            "frame",
            "b",
            "binary.b",
            "application/octet-stream",
        ),
    ];
    for (v, identifier, label, extension, filename, media_type) in all {
        assert_eq!(v.identifier(), identifier);
        assert_eq!(v.type_label(), label);
        assert_eq!(v.default_extension(), extension);
        assert_eq!(v.default_filename(), filename);
        assert_eq!(v.default_media_type(), media_type);
    }
    assert!(Value::none().is_none());
    assert!(!Value::new("").is_none());
}

#[test]
fn value_conversions() {
    assert_eq!(Value::I64(5).try_into_i32().unwrap(), 5);
    assert_eq!(
        Value::I64(1 << 40).try_into_i32().unwrap_err().message,
        "Can't convert 'generic' to i32"
    );
    assert_eq!(Value::I32(-5).try_into_i64().unwrap(), -5);
    assert_eq!(Value::I32(0).try_into_bool().unwrap(), false);
    assert_eq!(Value::Bool(true).try_into_bool().unwrap(), true);
    assert_eq!(Value::I32(-5).try_into_string().unwrap(), "-5");
    assert_eq!(Value::Bytes(b"abc".to_vec()).try_into_string().unwrap(), "abc");
    assert_eq!(Value::Bytes(vec![b'a', 0xff]).try_into_string().unwrap(), "a\u{fffd}");
    let e = Value::Empty.try_into_string().unwrap_err();
    assert_eq!(e.error_type, ErrorType::ConversionError);
    assert_eq!(e.message, "Can't convert 'generic' to string");
    assert!(Value::new("1").try_into_i64().is_err());
    assert!(Value::new("true").try_into_bool().is_err());
    assert!(matches!(Value::from(()), Value::Empty));
    assert!(matches!(Value::from(vec![1u8]), Value::Bytes(_)));
    assert!(matches!(Value::from(3i32), Value::I32(3)));
    assert!(matches!(Value::from(3i64), Value::I64(3)));
    assert!(matches!(Value::from(true), Value::Bool(true)));
}

#[test]
fn objects() {
    let entries = Value::with_entry(vec![], "a", Value::I32(1));
    let entries = Value::with_entry(entries, "b", Value::I32(2));
    let entries = Value::with_entry(entries, "a", Value::I32(3));
    let v = Value::Object(entries);
    assert_eq!(v.get("a").unwrap().try_into_i32().unwrap(), 3);
    assert_eq!(v.get("b").unwrap().try_into_i32().unwrap(), 2);
    assert!(v.get("c").is_none());
    assert!(Value::I32(1).get("a").is_none());
    assert_eq!(json(&v), "{\"a\":3,\"b\":2}");
}

#[test]
fn legacy_metadata() {
    let legacy = Metadata::LegacyMetadata(Value::Object(vec![
        ("query".to_owned(), Value::Text("a/b".to_owned())),
        ("mimetype".to_owned(), Value::Text("text/csv".to_owned())),
        ("media_type".to_owned(), Value::Text("text/plain".to_owned())),
    ]));
    assert_eq!(legacy.get_media_type(), "text/csv");
    assert_eq!(legacy.query().unwrap().encode(), "a/b");
    assert_eq!(legacy.query_text().unwrap(), "a/b");
    let changed = legacy.with_query(parse_query("c-d").unwrap());
    assert_eq!(changed.query().unwrap().encode(), "c-d");
    assert!(matches!(changed, Metadata::LegacyMetadata(_)));
    let bare = Metadata::LegacyMetadata(Value::Object(vec![]));
    assert_eq!(bare.get_media_type(), "application/octet-stream");
    assert_eq!(bare.query().unwrap_err().message, "Query not found");
    let odd = Metadata::LegacyMetadata(Value::I32(1));
    assert_eq!(odd.query().unwrap_err().message, "Query not found in unsupported legacy metadata");
    let broken = Metadata::LegacyMetadata(Value::Object(vec![(
        "query".to_owned(),
        Value::Text("a b".to_owned()),
    )]));
    assert_eq!(broken.query().unwrap_err().error_type, ErrorType::ParseError);
    let empty = Metadata::LegacyMetadata(Value::Empty).with_query(parse_query("x").unwrap());
    assert!(matches!(empty, Metadata::MetadataRecord(_)));
    assert_eq!(empty.query().unwrap().encode(), "x");
    let m = Metadata::from_decoded(None, Some(Value::Empty)).unwrap();
    assert!(matches!(m, Metadata::LegacyMetadata(_)));
    let m = Metadata::from_decoded(Some(MetadataRecord::new()), Some(Value::Empty)).unwrap();
    assert!(matches!(m, Metadata::MetadataRecord(_)));
    assert!(Metadata::from_decoded(None, None).is_none());
    assert!(matches!(Metadata::from(MetadataRecord::new()), Metadata::MetadataRecord(_)));
}

#[test]
fn states() {
    let s = State::new();
    assert!(s.is_empty());
    assert_eq!(s.cache_key().unwrap(), "");
    let s = State::from_query("a/b-c").unwrap();
    assert_eq!(s.cache_key().unwrap(), "a/b-c");
    assert!(State::from_query("a b").is_err());
    let t = s.with_string("text");
    assert!(!t.is_empty());
    assert_eq!(t.data.try_into_string().unwrap(), "text");
    assert_eq!(t.cache_key().unwrap(), "a/b-c");
    assert!(matches!(&*t.metadata, Metadata::MetadataRecord(m) if m.type_identifier == "text"));
    let u = t.with_data(Value::I32(1)).with_metadata(Metadata::new());
    assert_eq!(u.data.try_into_i32().unwrap(), 1);
    assert_eq!(u.cache_key().unwrap(), "");
    assert_eq!(u.clone().data.try_into_i32().unwrap(), 1);
}

#[test]
fn log_entries() {
    let e = liquers::metadata::LogEntry::new(liquers::metadata::LogLevel::Info, "m".to_string())
        .with_timestamp("2024-01-01T00:00:00Z".to_string());
    assert_eq!(e.message, "m");
    assert_eq!(e.timestamp, "2024-01-01T00:00:00Z");
    assert_eq!(e.level, liquers::metadata::LogLevel::Info);
}

fn serde_text(v: &serde_json::Value) -> String {
    serde_json::to_string(v).unwrap()
}

#[test]
fn json_is_what_serde_json_writes() {
    let numbers = vec![0i64, 1, -1, 123, i64::MAX, i64::MIN, i32::MIN as i64, i32::MAX as i64];
    for n in numbers {
        assert_eq!(json(&Value::I64(n)), serde_text(&serde_json::Value::from(n)));
    }
    assert_eq!(json(&Value::I32(-5)), serde_text(&serde_json::Value::from(-5i32)));
    assert_eq!(json(&Value::Empty), serde_text(&serde_json::Value::Null));
    assert_eq!(json(&Value::Bool(false)), serde_text(&serde_json::Value::Bool(false)));
    let texts = vec!["", "plain", "a\"b\\c", "line\nbreak\ttab", "\u{1}\u{7f}é\u{20ac}\u{1f600}"];
    for t in texts {
        assert_eq!(json(&Value::Text(t.to_owned())), serde_text(&serde_json::Value::from(t)));
    }
    let ours = Value::Array(vec![
        Value::Empty,
        Value::Array(vec![]),
        Value::Object(vec![
            ("a".to_owned(), Value::I32(1)),
            ("b \"quoted\"".to_owned(), Value::Array(vec![Value::Bool(true)])),
        ]),
        Value::Bytes(vec![0, 255]),
    ]);
    let mut members = serde_json::Map::new();
    members.insert("a".to_owned(), serde_json::Value::from(1));
    members.insert(
        "b \"quoted\"".to_owned(),
        serde_json::Value::Array(vec![serde_json::Value::Bool(true)]),
    );
    let theirs = serde_json::Value::Array(vec![
        serde_json::Value::Null,
        serde_json::Value::Array(vec![]),
        serde_json::Value::Object(members),
        serde_json::Value::Array(vec![serde_json::Value::from(0), serde_json::Value::from(255)]),
    ]);
    assert_eq!(json(&ours), serde_text(&theirs));
}

#[test]
fn json_keeps_the_order_of_members() {
    let v = Value::Object(vec![
        ("test".to_owned(), Value::Empty),
        ("a".to_owned(), Value::I32(123)),
    ]);
    assert_eq!(json(&v), "{\"test\":null,\"a\":123}");
}

#[test]
fn json_strings_by_the_table_of_escapes() {
    let text = "\u{8}\t\n\u{c}\r\u{0}\u{1}\u{1f}\"\\/ \u{7f}\u{e9}\u{20ac}";
    assert_eq!(
        json(&Value::Text(text.to_owned())),
        "\"\\b\\t\\n\\f\\r\\u0000\\u0001\\u001f\\\"\\\\/ \u{7f}\u{e9}\u{20ac}\""
    );
}
