use mqtt2db::config;
use mqtt2db::dispatch::{find_mapping, process_message, DispatchError};
use mqtt2db::mapping::Mapping;
use mqtt2db::value::{CoerceError, TypedValue, ValueType};

fn raw_rule(topic: &str, field_name: &str, value_type: ValueType) -> Mapping {
    Mapping::from_config(&config::Mapping {
        topic: topic.to_string(),
        payload: None,
        field_name: field_name.to_string(),
        value_type,
        tags: Vec::new(),
    })
    .unwrap()
}

fn json_rule(
    topic: &str,
    field_name: &str,
    value_type: ValueType,
    value_path: &str,
    timestamp_path: Option<&str>,
) -> Mapping {
    Mapping::from_config(&config::Mapping {
        topic: topic.to_string(),
        payload: Some(config::Payload::Json {
            value_field_path: value_path.to_string(),
            timestamp_field_path: timestamp_path.map(|p| p.to_string()),
        }),
        field_name: field_name.to_string(),
        value_type,
        tags: Vec::new(),
    })
    .unwrap()
}

#[test]
fn raw_float_message_becomes_a_data_point() {
    let rule = raw_rule("sensors/+/temp", "temp_$1", ValueType::Float);
    let mappings = vec![rule];
    let found = find_mapping(&mappings, "sensors/kitchen/temp");
    assert_eq!(found, Some(0));
    let dp = process_message(
        &mappings[0],
        "sensors/kitchen/temp",
        b"21.5".to_vec(),
    )
    .unwrap();
    assert_eq!(dp.field_name, "temp_kitchen".to_string());
    match &dp.value {
        TypedValue::Float(t) => assert_eq!(t.parse::<f64>().unwrap(), 21.5),
        other => panic!("wrong kind: {:?}", other),
    }
    assert_eq!(dp.timestamp, None);
    assert!(dp.tags.is_empty());
}

#[test]
fn unmatched_topic_is_reported_and_later_messages_go_on() {
    let mappings = vec![raw_rule("a/b", "f", ValueType::Text)];
    assert_eq!(find_mapping(&mappings, "x/y"), None);
    // the miss leaves the table untouched: the next message still matches
    assert_eq!(find_mapping(&mappings, "a/b"), Some(0));
}

#[test]
fn first_matching_rule_wins() {
    let mappings = vec![
        raw_rule("a/b", "first", ValueType::Text),
        raw_rule("a/+", "second", ValueType::Text),
    ];
    assert_eq!(find_mapping(&mappings, "a/b"), Some(0));
    assert_eq!(find_mapping(&mappings, "a/c"), Some(1));
}

#[test]
fn tags_are_rendered_with_the_same_captures() {
    let rule = Mapping::from_config(&config::Mapping {
        topic: "sensors/+/temp".to_string(),
        payload: None,
        field_name: "temp_$1".to_string(),
        value_type: ValueType::Text,
        tags: vec![
            (
                "room".to_string(),
                config::TagValue { value_type: ValueType::Text, value: "room_$1".to_string() },
            ),
            (
                "site".to_string(),
                config::TagValue { value_type: ValueType::Text, value: "lab".to_string() },
            ),
        ],
    })
    .unwrap();
    let dp = process_message(&rule, "sensors/kitchen/temp", b"ok".to_vec()).unwrap();
    assert_eq!(dp.tags.len(), 2);
    assert_eq!(dp.tags[0].0, "room".to_string());
    assert_eq!(dp.tags[0].1, TypedValue::Text("room_kitchen".to_string()));
    assert_eq!(dp.tags[1].1, TypedValue::Text("lab".to_string()));
}

#[test]
fn invalid_payload_encoding_is_reported() {
    let rule = raw_rule("a/b", "f", ValueType::Text);
    let r = process_message(&rule, "a/b", vec![0xff, 0xfe, 0x80]);
    assert_eq!(r.unwrap_err(), DispatchError::InvalidPayloadEncoding);
}

#[test]
fn coercion_failure_is_reported() {
    let rule = raw_rule("a/b", "f", ValueType::UnsignedInteger);
    let r = process_message(&rule, "a/b", b"minus one".to_vec());
    assert_eq!(
        r.unwrap_err(),
        DispatchError::Coerce(CoerceError::InvalidNumber(ValueType::UnsignedInteger))
    );
}

#[test]
fn json_value_and_timestamp_are_extracted() {
    let rule = json_rule(
        "dev/+",
        "v_$1",
        ValueType::UnsignedInteger,
        "$.data.value",
        Some("$.ts"),
    );
    let payload = br#"{"data":{"value":42},"ts":1700000000}"#.to_vec();
    let dp = process_message(&rule, "dev/alpha", payload).unwrap();
    assert_eq!(dp.field_name, "v_alpha".to_string());
    assert_eq!(dp.value, TypedValue::UnsignedInteger(42));
    assert_eq!(dp.timestamp, Some(1700000000));
}

#[test]
fn json_without_timestamp_path_leaves_timestamp_empty() {
    let rule = json_rule("dev/+", "v", ValueType::SignedInteger, "$.n", None);
    let dp = process_message(&rule, "dev/a", br#"{"n":-3}"#.to_vec()).unwrap();
    assert_eq!(dp.value, TypedValue::SignedInteger(-3));
    assert_eq!(dp.timestamp, None);
}

#[test]
fn malformed_payload_is_reported() {
    let rule = json_rule("dev/+", "v", ValueType::Text, "$.n", None);
    let r = process_message(&rule, "dev/a", b"not json".to_vec());
    assert_eq!(r.unwrap_err(), DispatchError::MalformedPayload);

    // bytes that are no text at all cannot be a document either
    let r2 = process_message(&rule, "dev/a", vec![0xff, 0xfe, 0x80]);
    assert_eq!(r2.unwrap_err(), DispatchError::MalformedPayload);
}

#[test]
fn missing_value_node_is_reported() {
    let rule = json_rule("dev/+", "v", ValueType::Text, "$.missing", None);
    let r = process_message(&rule, "dev/a", br#"{"n":1}"#.to_vec());
    assert_eq!(r.unwrap_err(), DispatchError::ValueNotFound);
}

#[test]
fn missing_timestamp_node_is_reported() {
    let rule = json_rule("dev/+", "v", ValueType::UnsignedInteger, "$.n", Some("$.ts"));
    let r = process_message(&rule, "dev/a", br#"{"n":1}"#.to_vec());
    assert_eq!(r.unwrap_err(), DispatchError::TimestampNotFound);
}

#[test]
fn non_numeric_timestamp_is_reported() {
    let rule = json_rule("dev/+", "v", ValueType::UnsignedInteger, "$.n", Some("$.ts"));
    let r = process_message(&rule, "dev/a", br#"{"n":1,"ts":"late"}"#.to_vec());
    assert_eq!(r.unwrap_err(), DispatchError::TimestampNotNumeric);

    let negative = process_message(&rule, "dev/a", br#"{"n":1,"ts":-5}"#.to_vec());
    assert_eq!(negative.unwrap_err(), DispatchError::TimestampNotNumeric);
}

#[test]
fn json_boolean_and_text_values_coerce() {
    let rule = json_rule("dev/+", "v", ValueType::Boolean, "$.on", None);
    let dp = process_message(&rule, "dev/a", br#"{"on":true}"#.to_vec()).unwrap();
    assert_eq!(dp.value, TypedValue::Boolean(true));

    let rule_t = json_rule("dev/+", "v", ValueType::Text, "$.on", None);
    let dp_t = process_message(&rule_t, "dev/a", br#"{"on":true}"#.to_vec()).unwrap();
    assert_eq!(dp_t.value, TypedValue::Text("true".to_string()));

    let rule_f = json_rule("dev/+", "v", ValueType::Float, "$.x", None);
    let dp_f = process_message(&rule_f, "dev/a", br#"{"x":2.5}"#.to_vec()).unwrap();
    match &dp_f.value {
        TypedValue::Float(t) => assert_eq!(t.parse::<f64>().unwrap(), 2.5),
        other => panic!("wrong kind: {:?}", other),
    }
}

#[test]
fn repeated_processing_is_identical() {
    let rule = raw_rule("a/+", "f_$1", ValueType::Text);
    let first = process_message(&rule, "a/b", b"v".to_vec()).unwrap();
    let second = process_message(&rule, "a/b", b"v".to_vec()).unwrap();
    assert_eq!(first, second);
}
