use mqtt2db::value::{
    coerce_node, coerce_text, is_float_text, parse_i64, parse_u64, CoerceError, JsonNode,
    TypedValue, ValueType,
};

#[test]
fn boolean_coercion_is_exact() {
    assert_eq!(
        coerce_text("true", ValueType::Boolean).unwrap(),
        TypedValue::Boolean(true)
    );
    assert_eq!(
        coerce_text("false", ValueType::Boolean).unwrap(),
        TypedValue::Boolean(false)
    );
    assert_eq!(
        coerce_text("yes", ValueType::Boolean).unwrap_err(),
        CoerceError::InvalidBoolean
    );
    assert_eq!(
        coerce_text("True", ValueType::Boolean).unwrap_err(),
        CoerceError::InvalidBoolean
    );
}

#[test]
fn float_coercion_checks_shape_and_keeps_text() {
    match coerce_text("3.14", ValueType::Float).unwrap() {
        TypedValue::Float(t) => assert_eq!(t.parse::<f64>().unwrap(), 3.14),
        other => panic!("wrong kind: {:?}", other),
    }
    assert_eq!(
        coerce_text("abc", ValueType::Float).unwrap_err(),
        CoerceError::InvalidNumber(ValueType::Float)
    );
}

#[test]
fn float_shape_agrees_with_the_platform_reader() {
    let samples = [
        "3.14", "-0.5", "+1", "1.", ".5", "1e5", "1E5", "1e+5", "1e-5", "2.5e10", "inf", "-inf",
        "Infinity", "NaN", "nan", "0", "007", "", ".", "e5", "1.2.3", "1e", "1e+", "--1", "1x",
        "infx", "1 ", " 1", "+", "-", "1_000", "0x10",
    ];
    for s in samples {
        assert_eq!(
            is_float_text(s),
            s.parse::<f64>().is_ok(),
            "disagreement on {:?}",
            s
        );
    }
}

#[test]
fn integer_coercion_matches_the_platform_reader() {
    assert_eq!(
        coerce_text("-1", ValueType::UnsignedInteger).unwrap_err(),
        CoerceError::InvalidNumber(ValueType::UnsignedInteger)
    );
    assert_eq!(
        coerce_text("42", ValueType::UnsignedInteger).unwrap(),
        TypedValue::UnsignedInteger(42)
    );
    assert_eq!(
        coerce_text("-5", ValueType::SignedInteger).unwrap(),
        TypedValue::SignedInteger(-5)
    );

    let samples = [
        "0", "+7", "-7", "007", "", "+", "-", "9223372036854775807", "9223372036854775808",
        "-9223372036854775808", "-9223372036854775809", "18446744073709551615",
        "18446744073709551616", "1 ", "x", "--4", "1.0",
    ];
    for s in samples {
        assert_eq!(parse_u64(s), s.parse::<u64>().ok(), "u64 disagreement on {:?}", s);
        assert_eq!(parse_i64(s), s.parse::<i64>().ok(), "i64 disagreement on {:?}", s);
    }
}

#[test]
fn text_coercion_is_identity() {
    assert_eq!(
        coerce_text("anything at all", ValueType::Text).unwrap(),
        TypedValue::Text("anything at all".to_string())
    );
}

#[test]
fn node_coercion_reads_scalars() {
    let b = JsonNode::Bool(true);
    assert_eq!(
        coerce_node(&b, ValueType::Boolean).unwrap(),
        TypedValue::Boolean(true)
    );
    assert_eq!(
        coerce_node(&b, ValueType::UnsignedInteger).unwrap_err(),
        CoerceError::InvalidNumber(ValueType::UnsignedInteger)
    );

    let n = JsonNode::Number {
        repr: "-1".to_string(),
        as_signed: Some(-1),
        as_unsigned: None,
    };
    assert_eq!(
        coerce_node(&n, ValueType::SignedInteger).unwrap(),
        TypedValue::SignedInteger(-1)
    );
    assert_eq!(
        coerce_node(&n, ValueType::UnsignedInteger).unwrap_err(),
        CoerceError::InvalidNumber(ValueType::UnsignedInteger)
    );
    match coerce_node(&n, ValueType::Float).unwrap() {
        TypedValue::Float(t) => assert_eq!(t.parse::<f64>().unwrap(), -1.0),
        other => panic!("wrong kind: {:?}", other),
    }
}

#[test]
fn node_text_coercion_stringifies_scalars() {
    assert_eq!(
        coerce_node(&JsonNode::Text("hi".to_string()), ValueType::Text).unwrap(),
        TypedValue::Text("hi".to_string())
    );
    assert_eq!(
        coerce_node(&JsonNode::Bool(false), ValueType::Text).unwrap(),
        TypedValue::Text("false".to_string())
    );
    let n = JsonNode::Number {
        repr: "2.5".to_string(),
        as_signed: None,
        as_unsigned: None,
    };
    assert_eq!(
        coerce_node(&n, ValueType::Text).unwrap(),
        TypedValue::Text("2.5".to_string())
    );
    assert_eq!(
        coerce_node(&JsonNode::Other, ValueType::Text).unwrap_err(),
        CoerceError::UnsupportedTextSource
    );
}

#[test]
fn repeated_coercion_is_identical() {
    let first = coerce_text("3.14", ValueType::Float);
    let second = coerce_text("3.14", ValueType::Float);
    assert_eq!(first, second);
    let third = coerce_text("yes", ValueType::Boolean);
    let fourth = coerce_text("yes", ValueType::Boolean);
    assert_eq!(third, fourth);
}

#[test]
fn value_type_describes_itself() {
    assert_eq!(ValueType::Boolean.describe(), "boolean");
    assert_eq!(ValueType::Float.describe(), "float");
    assert_eq!(ValueType::SignedInteger.describe(), "signed integer");
    assert_eq!(ValueType::UnsignedInteger.describe(), "unsigned integer");
    assert_eq!(ValueType::Text.describe(), "text");
}
