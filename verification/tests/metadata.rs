use cxdb::metadata::{extract_context_metadata, key_to_tag, metadata_from_value};
use cxdb::pack::{PackInt, PackValue};
use rmpv::Value;

fn str_val(s: &str) -> PackValue {
    PackValue::String(Some(s.to_string()))
}

fn int_val(n: u64) -> PackValue {
    PackValue::Integer(PackInt::Pos(n))
}

fn wire_str(s: &str) -> Value {
    Value::String(s.into())
}

fn wire_int(n: u64) -> Value {
    Value::Integer(rmpv::Integer::from(n))
}

#[test]
fn key_to_tag_accepts_integer_keys() {
    assert_eq!(key_to_tag(&int_val(30)), Some(30));
    assert_eq!(key_to_tag(&int_val(0)), Some(0));
    assert_eq!(key_to_tag(&int_val(80)), Some(80));
}

#[test]
fn key_to_tag_accepts_string_encoded_integers() {
    assert_eq!(key_to_tag(&str_val("30")), Some(30));
    assert_eq!(key_to_tag(&str_val("1")), Some(1));
    assert_eq!(key_to_tag(&str_val("80")), Some(80));
    assert_eq!(key_to_tag(&str_val("0")), Some(0));
}

#[test]
fn key_to_tag_rejects_non_numeric_strings() {
    assert_eq!(key_to_tag(&str_val("hello")), None);
    assert_eq!(key_to_tag(&str_val("")), None);
    assert_eq!(key_to_tag(&str_val("-1")), None);
}

#[test]
fn key_to_tag_rejects_other_types() {
    assert_eq!(key_to_tag(&PackValue::Boolean(true)), None);
    assert_eq!(key_to_tag(&PackValue::Nil), None);
}

#[test]
fn key_to_tag_rejects_negative_integers_and_bad_text() {
    assert_eq!(key_to_tag(&PackValue::Integer(PackInt::Neg(-3))), None);
    assert_eq!(key_to_tag(&PackValue::String(None)), None);
    assert_eq!(key_to_tag(&str_val("18446744073709551615")), Some(u64::MAX));
    assert_eq!(key_to_tag(&str_val("18446744073709551616")), None);
    assert_eq!(key_to_tag(&str_val("+7")), Some(7));
    assert_eq!(key_to_tag(&str_val(" 7")), None);
}

fn encode_context_metadata_with_string_keys(
    client_tag: &str,
    service_name: &str,
    correlation_id: &str,
) -> Vec<u8> {
    let provenance = Value::Map(vec![
        (wire_str("40"), wire_str(service_name)),
        (wire_str("12"), wire_str(correlation_id)),
    ]);
    let context_metadata = Value::Map(vec![
        (wire_str("1"), wire_str(client_tag)),
        (wire_str("10"), provenance),
    ]);
    let payload = Value::Map(vec![(wire_str("30"), context_metadata)]);
    let mut buf = Vec::new();
    rmpv::encode::write_value(&mut buf, &payload).unwrap();
    buf
}

fn encode_context_metadata_with_integer_keys(client_tag: &str, service_name: &str) -> Vec<u8> {
    let provenance = Value::Map(vec![(wire_int(40), wire_str(service_name))]);
    let context_metadata = Value::Map(vec![
        (wire_int(1), wire_str(client_tag)),
        (wire_int(10), provenance),
    ]);
    let payload = Value::Map(vec![(wire_int(30), context_metadata)]);
    let mut buf = Vec::new();
    rmpv::encode::write_value(&mut buf, &payload).unwrap();
    buf
}

#[test]
fn extract_context_metadata_with_string_keys() {
    let payload = encode_context_metadata_with_string_keys("kilroy/run-123", "kilroy", "run-123");
    let meta = extract_context_metadata(&payload).expect("should extract metadata");
    assert_eq!(meta.client_tag.as_deref(), Some("kilroy/run-123"));

    let prov = meta.provenance.expect("should have provenance");
    assert_eq!(prov.service_name.as_deref(), Some("kilroy"));
    assert_eq!(prov.correlation_id.as_deref(), Some("run-123"));
}

#[test]
fn extract_context_metadata_with_integer_keys() {
    let payload = encode_context_metadata_with_integer_keys("test-tag", "my-service");
    let meta = extract_context_metadata(&payload).expect("should extract metadata");
    assert_eq!(meta.client_tag.as_deref(), Some("test-tag"));

    let prov = meta.provenance.expect("should have provenance");
    assert_eq!(prov.service_name.as_deref(), Some("my-service"));
}

#[test]
fn extract_metadata_reads_every_kind_of_field() {
    let env = Value::Map(vec![
        (wire_str("HOME"), wire_str("/root")),
        (wire_int(3), wire_str("skipped")),
        (wire_str("HOME"), wire_str("/home/u")),
        (wire_str("LANG"), wire_str("C")),
    ]);
    let provenance = Value::Map(vec![
        (wire_int(1), wire_int(11)),
        (wire_int(2), wire_str("sub_agent")),
        (wire_int(3), wire_int(5)),
        (wire_int(43), Value::Integer(rmpv::Integer::from(-4i64))),
        (wire_int(51), wire_int(8080)),
        (wire_int(60), env),
        (wire_int(80), wire_int(1700000000000)),
        (wire_int(99), wire_str("ignored")),
    ]);
    let labels = Value::Array(vec![wire_str("a"), wire_int(1), wire_str("b")]);
    let metadata = Value::Map(vec![
        (wire_int(2), wire_str("first title")),
        (wire_int(3), labels),
        (wire_int(10), provenance),
        (wire_int(2), wire_str("second title")),
    ]);
    let payload = Value::Map(vec![
        (wire_int(1), wire_str("body")),
        (wire_int(30), metadata),
        (wire_int(30), Value::Nil),
    ]);
    let mut buf = Vec::new();
    rmpv::encode::write_value(&mut buf, &payload).unwrap();

    let meta = extract_context_metadata(&buf).expect("metadata");
    assert_eq!(meta.client_tag, None);
    assert_eq!(meta.title.as_deref(), Some("second title"));
    assert_eq!(meta.labels, Some(vec!["a".to_string(), "b".to_string()]));
    let prov = meta.provenance.expect("provenance");
    assert_eq!(prov.parent_context_id, Some(11));
    assert_eq!(prov.spawn_reason.as_deref(), Some("sub_agent"));
    assert_eq!(prov.root_context_id, Some(5));
    assert_eq!(prov.process_pid, Some(-4));
    assert_eq!(prov.client_port, Some(8080));
    assert_eq!(prov.captured_at, Some(1700000000000));
    assert_eq!(
        prov.env,
        Some(vec![
            ("HOME".to_string(), "/home/u".to_string()),
            ("LANG".to_string(), "C".to_string()),
        ])
    );
    assert_eq!(prov.trace_id, None);
}

#[test]
fn extract_metadata_gives_none_without_metadata() {
    assert!(extract_context_metadata(b"hello world").is_none());
    assert!(extract_context_metadata(&[]).is_none());

    let no_tag_30 = Value::Map(vec![(wire_int(1), wire_str("x"))]);
    let mut buf = Vec::new();
    rmpv::encode::write_value(&mut buf, &no_tag_30).unwrap();
    assert!(extract_context_metadata(&buf).is_none());

    let empty_labels = PackValue::Dict(vec![(
        int_val(30),
        PackValue::Dict(vec![(int_val(3), PackValue::Array(vec![int_val(1)]))]),
    )]);
    assert!(metadata_from_value(&empty_labels).is_none());

    let not_a_map = PackValue::Dict(vec![(int_val(30), str_val("x"))]);
    assert!(metadata_from_value(&not_a_map).is_none());
}
