use mqtt2db::config;
use mqtt2db::json::{CheckedSelector, PathError};
use mqtt2db::mapping::{Mapping, MappingError, TagValue};
use mqtt2db::topic::PatternError;
use mqtt2db::topic::TopicLevel::{Literal, MultiWildcard, SingleWildcard};
use mqtt2db::value::{CoerceError, TypedValue, ValueType};

fn expect_err(r: Result<Mapping, MappingError>) -> MappingError {
    match r {
        Ok(_) => panic!("expected the rule to be refused"),
        Err(e) => e,
    }
}

fn mk_cfg_mapping(topic: &str) -> config::Mapping {
    config::Mapping {
        topic: topic.to_string(),
        payload: None,
        field_name: "".to_string(),
        value_type: ValueType::Text,
        tags: Vec::new(),
    }
}

#[test]
fn mapping_parsing() {
    assert_eq!(
        vec![Literal("foo".to_string()), Literal("bar".to_string())],
        Mapping::from_config(&mk_cfg_mapping("foo/bar")).unwrap().topic
    );

    assert_eq!(
        vec![
            Literal("".to_string()),
            Literal("foo".to_string()),
            Literal("bar".to_string())
        ],
        Mapping::from_config(&mk_cfg_mapping("/foo/bar")).unwrap().topic
    );

    assert_eq!(
        vec![
            Literal("foo".to_string()),
            Literal("bar".to_string()),
            Literal("".to_string())
        ],
        Mapping::from_config(&mk_cfg_mapping("foo/bar/")).unwrap().topic
    );

    assert_eq!(
        vec![
            Literal("foo".to_string()),
            Literal("bar".to_string()),
            MultiWildcard
        ],
        Mapping::from_config(&mk_cfg_mapping("foo/bar/#")).unwrap().topic
    );

    assert_eq!(
        vec![
            Literal("foo".to_string()),
            SingleWildcard,
            Literal("bar".to_string())
        ],
        Mapping::from_config(&mk_cfg_mapping("foo/+/bar")).unwrap().topic
    );

    assert_eq!(
        vec![
            Literal("foo".to_string()),
            SingleWildcard,
            Literal("bar".to_string()),
            MultiWildcard
        ],
        Mapping::from_config(&mk_cfg_mapping("foo/+/bar/#")).unwrap().topic
    );

    assert!(Mapping::from_config(&mk_cfg_mapping("foo/#/bar")).is_err());
    assert!(Mapping::from_config(&mk_cfg_mapping("foo/bar#")).is_err());
    assert!(Mapping::from_config(&mk_cfg_mapping("foo/bar+baz/quux")).is_err());
    assert!(Mapping::from_config(&mk_cfg_mapping("foo/bar#baz/quux")).is_err());
}

#[test]
fn pattern_error_kinds() {
    assert_eq!(
        expect_err(Mapping::from_config(&mk_cfg_mapping("foo/#/bar"))),
        MappingError::Pattern(PatternError::MisplacedMultiWildcard)
    );
    assert_eq!(
        expect_err(Mapping::from_config(&mk_cfg_mapping("foo/bar#"))),
        MappingError::Pattern(PatternError::InvalidPatternLevel)
    );
}

#[test]
fn field_name_references_checked_against_pattern() {
    let mut cfg = mk_cfg_mapping("sensors/+/temp");
    cfg.field_name = "temp_$1".to_string();
    assert!(Mapping::from_config(&cfg).is_ok());

    cfg.field_name = "temp_$2".to_string();
    assert_eq!(
        expect_err(Mapping::from_config(&cfg)),
        MappingError::ReferenceExceedsCaptures
    );
}

#[test]
fn tag_values_compile() {
    let mut cfg = mk_cfg_mapping("a/+/c");
    cfg.tags = vec![
        (
            "fixed".to_string(),
            config::TagValue { value_type: ValueType::Text, value: "room".to_string() },
        ),
        (
            "templated".to_string(),
            config::TagValue { value_type: ValueType::Text, value: "room_$1".to_string() },
        ),
        (
            "count".to_string(),
            config::TagValue { value_type: ValueType::UnsignedInteger, value: "5".to_string() },
        ),
    ];
    let mapping = Mapping::from_config(&cfg).unwrap();
    assert!(matches!(
        &mapping.tags[0].1,
        TagValue::Literal(TypedValue::Text(t)) if t == "room"
    ));
    assert!(matches!(&mapping.tags[1].1, TagValue::InterpolatedStr(_)));
    assert!(matches!(
        &mapping.tags[2].1,
        TagValue::Literal(TypedValue::UnsignedInteger(5))
    ));
}

#[test]
fn tag_reference_exceeding_captures_is_refused() {
    let mut cfg = mk_cfg_mapping("a/+/c");
    cfg.tags = vec![(
        "bad".to_string(),
        config::TagValue { value_type: ValueType::Text, value: "x$3".to_string() },
    )];
    assert_eq!(
        expect_err(Mapping::from_config(&cfg)),
        MappingError::ReferenceExceedsCaptures
    );
}

#[test]
fn tag_literal_coercion_failure_is_refused() {
    let mut cfg = mk_cfg_mapping("a/b");
    cfg.tags = vec![(
        "bad".to_string(),
        config::TagValue { value_type: ValueType::UnsignedInteger, value: "x".to_string() },
    )];
    assert_eq!(
        expect_err(Mapping::from_config(&cfg)),
        MappingError::TagLiteral(CoerceError::InvalidNumber(ValueType::UnsignedInteger))
    );
}

#[test]
fn bad_path_expression_is_refused() {
    let mut cfg = mk_cfg_mapping("a/b");
    cfg.payload = Some(config::Payload::Json {
        value_field_path: "no dollar".to_string(),
        timestamp_field_path: None,
    });
    assert_eq!(
        expect_err(Mapping::from_config(&cfg)),
        MappingError::InvalidPathExpression
    );

    let mut cfg2 = mk_cfg_mapping("a/b");
    cfg2.payload = Some(config::Payload::Json {
        value_field_path: "$.value".to_string(),
        timestamp_field_path: Some("also bad".to_string()),
    });
    assert_eq!(
        expect_err(Mapping::from_config(&cfg2)),
        MappingError::InvalidPathExpression
    );
}

#[test]
fn zero_reference_in_field_name_is_refused() {
    let mut cfg = mk_cfg_mapping("a/+");
    cfg.field_name = "v$0".to_string();
    assert!(matches!(
        expect_err(Mapping::from_config(&cfg)),
        MappingError::Template(_)
    ));
}

#[test]
fn filter_path_expression_is_refused() {
    // a filter whose order comparison the path crate leaves unimplemented
    let mut cfg = mk_cfg_mapping("a/b");
    cfg.payload = Some(config::Payload::Json {
        value_field_path: "$[?($ > 5)]".to_string(),
        timestamp_field_path: None,
    });
    assert_eq!(
        expect_err(Mapping::from_config(&cfg)),
        MappingError::UnsupportedPathExpression
    );

    // a filter whose numeral would abort the path crate's parser
    let mut cfg2 = mk_cfg_mapping("a/b");
    cfg2.payload = Some(config::Payload::Json {
        value_field_path: "$[?($ == 99999999999999999999)]".to_string(),
        timestamp_field_path: None,
    });
    assert_eq!(
        expect_err(Mapping::from_config(&cfg2)),
        MappingError::UnsupportedPathExpression
    );

    // the same stand for a timestamp path
    let mut cfg3 = mk_cfg_mapping("a/b");
    cfg3.payload = Some(config::Payload::Json {
        value_field_path: "$.value".to_string(),
        timestamp_field_path: Some("$[?($ > 5)]".to_string()),
    });
    assert_eq!(
        expect_err(Mapping::from_config(&cfg3)),
        MappingError::UnsupportedPathExpression
    );
}

#[test]
fn checked_selector_refuses_filters() {
    assert!(CheckedSelector::new("$.data.value").is_ok());
    assert!(matches!(
        CheckedSelector::new("$[?($ > 5)]"),
        Err(PathError::UnsupportedFilter)
    ));
    assert!(matches!(
        CheckedSelector::new("no dollar"),
        Err(PathError::Invalid)
    ));
}
