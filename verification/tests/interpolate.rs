use mqtt2db::interpolate::{InterpolatedName, TemplateError};
use mqtt2db::interpolate::InterpolatedNamePart::{Literal, Reference};

#[test]
fn interpolated_name_parsing() {
    assert_eq!(
        vec![Literal("foo".to_string())],
        InterpolatedName::parse("foo").unwrap().parts
    );

    assert_eq!(vec![Reference(1)], InterpolatedName::parse("$1").unwrap().parts);

    assert_eq!(
        vec![
            Literal("foo".to_string()),
            Reference(1),
            Literal("bar".to_string()),
            Reference(2),
            Literal(" baz".to_string())
        ],
        InterpolatedName::parse("foo$1bar$2 baz").unwrap().parts
    );

    assert_eq!(
        vec![
            Literal("$1foo".to_string()),
            Reference(1),
            Literal("$2".to_string())
        ],
        InterpolatedName::parse("\\$1foo$1\\$2").unwrap().parts
    );

    assert!(InterpolatedName::parse("$0").is_err());
}

#[test]
fn interpolation() {
    let interp = InterpolatedName::parse("foo$1bar$2 baz $1").unwrap();
    assert_eq!(
        "foofirstbarsecond baz first".to_string(),
        interp
            .interpolate(&vec!["first".to_string(), "second".to_string()])
            .unwrap()
    );

    let empty: Vec<String> = vec![];
    assert!(interp.interpolate(&empty).is_err());
}

#[test]
fn zero_reference_is_rejected() {
    assert_eq!(
        InterpolatedName::parse("$0").unwrap_err(),
        TemplateError::InvalidReferenceIndex
    );
    assert_eq!(
        InterpolatedName::parse("a$00b").unwrap_err(),
        TemplateError::InvalidReferenceIndex
    );
}

#[test]
fn render_concatenates_left_to_right() {
    let interp = InterpolatedName::parse("foo$1bar$2 baz").unwrap();
    assert_eq!(
        "foofirstbarsecond baz".to_string(),
        interp
            .interpolate(&vec!["first".to_string(), "second".to_string()])
            .unwrap()
    );
}

#[test]
fn unresolved_reference_fails_and_enough_captures_succeed() {
    let interp = InterpolatedName::parse("x$2").unwrap();
    let one = vec!["a".to_string()];
    assert_eq!(
        interp.interpolate(&one).unwrap_err(),
        TemplateError::UnresolvedReference
    );
    let two = vec!["a".to_string(), "b".to_string()];
    assert_eq!(interp.interpolate(&two).unwrap(), "xb".to_string());
}

#[test]
fn dollar_without_digits_is_literal() {
    assert_eq!(
        vec![Literal("price$ low".to_string())],
        InterpolatedName::parse("price$ low").unwrap().parts
    );
    assert_eq!(
        vec![Literal("end$".to_string())],
        InterpolatedName::parse("end$").unwrap().parts
    );
}

#[test]
fn backslash_kept_except_before_dollar() {
    assert_eq!(
        vec![Literal("a\\b".to_string())],
        InterpolatedName::parse("a\\b").unwrap().parts
    );
    assert_eq!(
        vec![Literal("a$1b".to_string())],
        InterpolatedName::parse("a\\$1b").unwrap().parts
    );
}

#[test]
fn multi_digit_references() {
    assert_eq!(
        vec![Reference(12)],
        InterpolatedName::parse("$12").unwrap().parts
    );
    let interp = InterpolatedName::parse("$10").unwrap();
    let caps: Vec<String> = (1..=10).map(|i| i.to_string()).collect();
    assert_eq!(interp.interpolate(&caps).unwrap(), "10".to_string());
}

#[test]
fn oversized_reference_is_rejected() {
    let raw = format!("${}00", u64::MAX);
    assert_eq!(
        InterpolatedName::parse(&raw).unwrap_err(),
        TemplateError::ReferenceTooLarge
    );
}

#[test]
fn find_max_ref_reports_largest() {
    let interp = InterpolatedName::parse("a$3b$1").unwrap();
    assert_eq!(mqtt2db::interpolate::find_max_ref(&interp), 3);
    let plain = InterpolatedName::parse("abc").unwrap();
    assert_eq!(mqtt2db::interpolate::find_max_ref(&plain), 0);
}

#[test]
fn repeated_interpolation_is_identical() {
    let interp = InterpolatedName::parse("v$1").unwrap();
    let caps = vec!["x".to_string()];
    let first = interp.interpolate(&caps).unwrap();
    let second = interp.interpolate(&caps).unwrap();
    assert_eq!(first, second);
}
