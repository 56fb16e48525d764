use cxdb::encode::{
    encode_field_value, encode_http_payload, encode_payload_value, encode_value_for_type,
    json_to_msgpack_value, parse_bytes_value, parse_json_i64_opt, parse_json_u64_opt,
    places_in_key_order, text_not_after,
};
use cxdb::error::StoreError;
use cxdb::json::{Json, JsonNumber};
use cxdb::pack::{PackInt, PackValue};
use cxdb::registry::Registry;
use cxdb::registry_types::{FieldSpec, ItemsSpec};
use cxdb::sse::http_status;
use rmpv::Value;

const MESSAGE_BUNDLE: &str = r#"{
  "registry_version": 1,
  "bundle_id": "test-bundle#1",
  "types": {
    "com.example.Message": { "versions": { "1": { "fields": {
        "1": { "name": "role", "type": "string" },
        "2": { "name": "text", "type": "string" } } } } }
  }
}"#;

const TASK_BUNDLE: &str = r#"{
  "registry_version": 1,
  "bundle_id": "tasks",
  "types": {
    "Task": { "versions": { "1": { "fields": {
        "7": { "name": "state", "type": "u8", "enum": "State" },
        "2": { "name": "title", "type": "string" },
        "5": { "name": "owner", "type": "ref", "ref": "Person", "optional": true },
        "3": { "name": "steps", "type": "array", "items": { "type": "ref", "ref": "Step" }, "optional": true },
        "4": { "name": "blob", "type": "bytes", "optional": true }
    } } } },
    "Person": { "versions": {
        "1": { "fields": { "1": { "name": "name", "type": "string" } } },
        "2": { "fields": { "1": { "name": "name", "type": "string" },
                           "2": { "name": "age", "type": "u32", "optional": true } } } } },
    "Step": { "versions": { "1": { "fields": { "1": { "name": "at", "type": "unix_ms" } } } } }
  },
  "enums": { "State": { "1": "open", "2": "done", "x": "odd" } }
}"#;

fn text(s: &str) -> Json {
    Json::String(s.to_string())
}

fn number(n: u64) -> Json {
    Json::Number(JsonNumber::PosInt(n))
}

fn object(members: Vec<(&str, Json)>) -> Json {
    Json::Object(members.into_iter().map(|(k, v)| (k.to_string(), v)).collect())
}

fn decode(bytes: &[u8]) -> Value {
    rmpv::decode::read_value(&mut std::io::Cursor::new(bytes)).expect("decode msgpack")
}

fn registry_with(id: &str, bundle: &str) -> Registry {
    let mut registry = Registry::new();
    registry.put_bundle(id, bundle.as_bytes()).expect("put bundle");
    registry
}

fn field(name: &str, field_type: &str) -> FieldSpec {
    FieldSpec {
        name: name.to_string(),
        field_type: field_type.to_string(),
        enum_ref: None,
        type_ref: None,
        optional: false,
        items: None,
    }
}

#[test]
fn encode_http_payload_uses_registry_tags_when_descriptor_exists() {
    let registry = registry_with("test-bundle#1", MESSAGE_BUNDLE);
    let payload = object(vec![("role", text("user")), ("text", text("hello"))]);
    let encoded = encode_http_payload(&payload, "com.example.Message", 1, &registry)
        .expect("encode payload");

    let value = decode(&encoded);
    let map = match value {
        Value::Map(m) => m,
        other => panic!("expected map, got {other:?}"),
    };

    assert!(map
        .iter()
        .any(|(k, v)| *k == Value::from(1) && *v == Value::from("user")));
    assert!(map
        .iter()
        .any(|(k, v)| *k == Value::from(2) && *v == Value::from("hello")));
}

#[test]
fn encode_http_payload_falls_back_to_plain_json_shape_without_descriptor() {
    let registry = Registry::new();
    let payload = object(vec![("role", text("user")), ("text", text("hello"))]);

    let encoded =
        encode_http_payload(&payload, "com.example.UnknownType", 1, &registry).expect("encode");

    let value = decode(&encoded);
    let map = match value {
        Value::Map(m) => m,
        other => panic!("expected map, got {other:?}"),
    };

    assert!(map
        .iter()
        .any(|(k, v)| { *k == Value::from("role") && *v == Value::from("user") }));
    assert!(map
        .iter()
        .any(|(k, v)| { *k == Value::from("text") && *v == Value::from("hello") }));
}

#[test]
fn texts_are_ordered_by_their_bytes() {
    assert!(text_not_after("", ""));
    assert!(text_not_after("", "a"));
    assert!(!text_not_after("a", ""));
    assert!(text_not_after("a", "a"));
    assert!(text_not_after("a", "ab"));
    assert!(!text_not_after("ab", "a"));
    assert!(text_not_after("Z", "a"));
    assert!(text_not_after("z", "é"));
    assert!(!text_not_after("é", "z"));

    let list: Vec<(String, u8)> =
        ["b", "a", "a", "ab", ""].iter().map(|k| (k.to_string(), 0)).collect();
    assert_eq!(places_in_key_order(&list), vec![4, 1, 2, 3, 0]);
    assert!(places_in_key_order(&Vec::<(String, u8)>::new()).is_empty());
}

#[test]
fn a_value_without_descriptor_keeps_its_shape() {
    let payload = object(vec![
        ("zeta", Json::Null),
        ("10", Json::Bool(true)),
        ("alpha", Json::Array(vec![number(1), Json::Number(JsonNumber::NegInt(-2)), text("x")])),
        ("half", Json::Number(JsonNumber::Float(1.5f64.to_bits()))),
        ("single", Json::Number(JsonNumber::Float32(0.25f32.to_bits()))),
        ("inner", object(vec![("b", number(u64::MAX)), ("a", Json::Number(JsonNumber::NegInt(3)))])),
    ]);
    let registry = Registry::new();
    let bytes = encode_http_payload(&payload, "T", 1, &registry).expect("encode");
    let expected = Value::Map(vec![
        (Value::from(10), Value::Boolean(true)),
        (
            Value::from("alpha"),
            Value::Array(vec![Value::from(1), Value::from(-2), Value::from("x")]),
        ),
        (Value::from("half"), Value::F64(1.5)),
        (
            Value::from("inner"),
            Value::Map(vec![
                (Value::from("a"), Value::from(3)),
                (Value::from("b"), Value::from(u64::MAX)),
            ]),
        ),
        (Value::from("single"), Value::F32(0.25)),
        (Value::from("zeta"), Value::Nil),
    ]);
    assert_eq!(decode(&bytes), expected);
    let mut written = Vec::new();
    rmpv::encode::write_value(&mut written, &expected).expect("write");
    assert_eq!(bytes, written);

    assert!(matches!(
        json_to_msgpack_value(&Json::Number(JsonNumber::NegInt(0))),
        PackValue::Integer(PackInt::Pos(0))
    ));
    assert_eq!(encode_http_payload(&number(7), "T", 1, &registry).unwrap(), vec![7]);
}

#[test]
fn numbers_are_read_from_numbers_and_texts() {
    assert_eq!(parse_json_u64_opt(&number(5)), Some(5));
    assert_eq!(parse_json_u64_opt(&text("18446744073709551615")), Some(u64::MAX));
    assert_eq!(parse_json_u64_opt(&text("-1")), None);
    assert_eq!(parse_json_u64_opt(&Json::Number(JsonNumber::NegInt(-1))), None);
    assert_eq!(parse_json_u64_opt(&Json::Number(JsonNumber::Float(2f64.to_bits()))), None);
    assert_eq!(parse_json_u64_opt(&Json::Bool(true)), None);
    assert_eq!(parse_json_i64_opt(&text("-9223372036854775808")), Some(i64::MIN));
    assert_eq!(parse_json_i64_opt(&number(i64::MAX as u64)), Some(i64::MAX));
    assert_eq!(parse_json_i64_opt(&number(i64::MAX as u64 + 1)), None);
    assert_eq!(parse_json_i64_opt(&Json::Number(JsonNumber::NegInt(-4))), Some(-4));
    assert_eq!(parse_json_i64_opt(&Json::Null), None);
}

#[test]
fn bytes_are_read_from_texts_arrays_and_objects() {
    assert_eq!(parse_bytes_value(&text("aGVsbG8=")).unwrap(), b"hello".to_vec());
    assert_eq!(parse_bytes_value(&text("0a0B0c")).unwrap(), vec![10, 11, 12]);
    assert_eq!(parse_bytes_value(&text("abc")).unwrap(), b"abc".to_vec());
    assert_eq!(parse_bytes_value(&text("")).unwrap(), Vec::<u8>::new());
    assert_eq!(
        parse_bytes_value(&Json::Array(vec![number(0), text("255"), number(7)])).unwrap(),
        vec![0, 255, 7]
    );
    for bad in [
        Json::Array(vec![number(256)]),
        Json::Array(vec![number(1), Json::Null]),
        object(vec![("base64", text("!!"))]),
        object(vec![("hex", text("abc"))]),
        object(vec![("hex", text("zz"))]),
        object(vec![("other", text("00"))]),
        object(vec![("base64", number(1))]),
        Json::Bool(false),
        number(1),
    ] {
        assert!(matches!(parse_bytes_value(&bad), Err(StoreError::InvalidInput(_))), "{bad:?}");
    }
    assert_eq!(parse_bytes_value(&object(vec![("hex", text("FF00"))])).unwrap(), vec![255, 0]);
    assert_eq!(
        parse_bytes_value(&object(vec![("base64", text("AQI=")), ("hex", text("zz"))])).unwrap(),
        vec![1, 2]
    );
    assert_eq!(
        parse_bytes_value(&object(vec![("base64", Json::Null), ("hex", text("10"))])).unwrap(),
        vec![16]
    );
}

#[test]
fn values_are_encoded_by_their_base_type() {
    assert!(matches!(encode_value_for_type(&text("a"), "string"), Ok(PackValue::String(Some(s))) if s == "a"));
    assert!(matches!(encode_value_for_type(&number(1), "string"), Err(StoreError::InvalidInput(_))));
    assert!(matches!(encode_value_for_type(&Json::Bool(true), "bool"), Ok(PackValue::Boolean(true))));
    assert!(matches!(encode_value_for_type(&text("true"), "bool"), Err(StoreError::InvalidInput(_))));
    for unsigned in ["u64", "uint64", "u32", "uint32", "u8", "uint8"] {
        assert!(matches!(
            encode_value_for_type(&text("300"), unsigned),
            Ok(PackValue::Integer(PackInt::Pos(300)))
        ));
        assert!(matches!(
            encode_value_for_type(&Json::Number(JsonNumber::NegInt(-1)), unsigned),
            Err(StoreError::InvalidInput(_))
        ));
    }
    for signed in ["int64", "int32", "unix_ms", "time_ms", "timestamp_ms"] {
        assert!(matches!(
            encode_value_for_type(&text("-3"), signed),
            Ok(PackValue::Integer(PackInt::Neg(-3)))
        ));
        assert!(matches!(
            encode_value_for_type(&number(3), signed),
            Ok(PackValue::Integer(PackInt::Pos(3)))
        ));
        assert!(matches!(encode_value_for_type(&Json::Null, signed), Err(StoreError::InvalidInput(_))));
    }
    for bytes in ["bytes", "typed_blob"] {
        assert!(matches!(encode_value_for_type(&text("AQI="), bytes), Ok(PackValue::Binary(b)) if b == vec![1, 2]));
        assert!(matches!(encode_value_for_type(&number(1), bytes), Err(StoreError::InvalidInput(_))));
    }
    assert!(matches!(encode_value_for_type(&Json::Null, "other"), Ok(PackValue::Nil)));
    assert!(matches!(encode_value_for_type(&text("5"), "i64"), Ok(PackValue::String(Some(s))) if s == "5"));
}

#[test]
fn an_object_is_encoded_under_its_descriptor() {
    let registry = registry_with("tasks", TASK_BUNDLE);
    let payload = object(vec![
        ("blob", Json::Array(vec![number(1), number(2)])),
        ("extra", object(vec![("k", Json::Bool(false))])),
        ("42", text("numbered")),
        ("owner", object(vec![("name", text("Ada")), ("age", text("36")), ("nick", text("a"))])),
        ("state", text("done")),
        ("steps", Json::Array(vec![object(vec![("at", number(5))]), object(vec![("at", text("-6"))])])),
        ("title", text("write")),
    ]);
    let bytes = encode_http_payload(&payload, "Task", 1, &registry).expect("encode");
    let expected = Value::Map(vec![
        (Value::from(2), Value::from("write")),
        (
            Value::from(3),
            Value::Array(vec![
                Value::Map(vec![(Value::from(1), Value::from(5))]),
                Value::Map(vec![(Value::from(1), Value::from(-6))]),
            ]),
        ),
        (Value::from(4), Value::Binary(vec![1, 2])),
        (
            Value::from(5),
            Value::Map(vec![
                (Value::from(1), Value::from("Ada")),
                (Value::from(2), Value::from(36)),
                (Value::from("nick"), Value::from("a")),
            ]),
        ),
        (Value::from(7), Value::from(2)),
        (Value::from("extra"), Value::Map(vec![(Value::from("k"), Value::Boolean(false))])),
        (Value::from(42), Value::from("numbered")),
    ]);
    assert_eq!(decode(&bytes), expected);

    let small = object(vec![("state", number(9)), ("title", text("t")), ("owner", Json::Null)]);
    assert_eq!(
        decode(&encode_http_payload(&small, "Task", 1, &registry).unwrap()),
        Value::Map(vec![
            (Value::from(2), Value::from("t")),
            (Value::from(5), Value::Nil),
            (Value::from(7), Value::from(9)),
        ])
    );
    let value = encode_payload_value(&small, "Task", 1, &registry).unwrap();
    assert!(matches!(value, PackValue::Dict(pairs) if pairs.len() == 3));

    let other_version = encode_http_payload(&small, "Task", 2, &registry).unwrap();
    assert_eq!(
        decode(&other_version),
        Value::Map(vec![
            (Value::from("owner"), Value::Nil),
            (Value::from("state"), Value::from(9)),
            (Value::from("title"), Value::from("t")),
        ])
    );
    let no_object = encode_http_payload(&text("plain"), "Task", 1, &registry).unwrap();
    assert_eq!(decode(&no_object), Value::from("plain"));
}

#[test]
fn what_does_not_fit_the_descriptor_is_refused() {
    let registry = registry_with("tasks", TASK_BUNDLE);
    let refused = |payload: Json| encode_http_payload(&payload, "Task", 1, &registry).unwrap_err();

    let missing = refused(object(vec![("state", number(1))]));
    assert!(matches!(&missing, StoreError::InvalidInput(m) if m == "missing required field: title"));
    let label = refused(object(vec![("state", text("lost")), ("title", text("t"))]));
    assert!(matches!(&label, StoreError::InvalidInput(m) if m == "unknown enum label for state"));
    let odd = refused(object(vec![("state", text("odd")), ("title", text("t"))]));
    assert!(matches!(odd, StoreError::InvalidInput(_)));
    let wrong = refused(object(vec![("state", number(1)), ("title", number(1))]));
    assert!(matches!(wrong, StoreError::InvalidInput(_)));
    let steps = refused(object(vec![("state", number(1)), ("title", text("t")), ("steps", number(1))]));
    assert!(matches!(&steps, StoreError::InvalidInput(m) if m == "expected array for steps"));
    let step = refused(object(vec![
        ("state", number(1)),
        ("title", text("t")),
        ("steps", Json::Array(vec![number(1)])),
    ]));
    assert!(matches!(&step, StoreError::InvalidInput(m) if m == "expected object for ref Step"));
    let first = refused(object(vec![("state", text("lost")), ("steps", number(1))]));
    assert!(matches!(&first, StoreError::InvalidInput(m) if m == "missing required field: title"));

    let mut pointer = field("p", "ref");
    pointer.type_ref = Some("Nowhere".to_string());
    let err = encode_field_value(&object(vec![]), &pointer, &registry).unwrap_err();
    assert!(matches!(&err, StoreError::NotFound(_)));
    assert_eq!(http_status(&err).0, 424);
    assert!(matches!(
        encode_field_value(&number(1), &pointer, &registry),
        Err(StoreError::InvalidInput(_))
    ));
    pointer.type_ref = None;
    assert!(matches!(encode_field_value(&number(1), &pointer, &registry), Ok(PackValue::Integer(PackInt::Pos(1)))));

    let mut list = field("l", "array");
    list.items = Some(ItemsSpec::Simple("u8".to_string()));
    assert!(matches!(
        encode_field_value(&Json::Array(vec![text("1"), number(2)]), &list, &registry),
        Ok(PackValue::Array(items)) if items.len() == 2
    ));
    assert!(matches!(
        encode_field_value(&Json::Array(vec![number(1), Json::Bool(true)]), &list, &registry),
        Err(StoreError::InvalidInput(_))
    ));
    list.items = None;
    assert!(matches!(
        encode_field_value(&Json::Array(vec![Json::Bool(true)]), &list, &registry),
        Ok(PackValue::Array(items)) if matches!(items[0], PackValue::Boolean(true))
    ));
}
