use mqtt2db::topic::{compile_pattern, split_levels, topic_captures, topic_matches};

fn matches(pattern: &str, topic: &str) -> bool {
    let compiled = compile_pattern(pattern).unwrap();
    let levels = split_levels(topic);
    topic_matches(&compiled, &levels)
}

fn captures(pattern: &str, topic: &str) -> Vec<String> {
    let compiled = compile_pattern(pattern).unwrap();
    let levels = split_levels(topic);
    topic_captures(&compiled, &levels)
}

#[test]
fn literal_patterns_match_exactly() {
    assert!(matches("foo/bar", "foo/bar"));
    assert!(!matches("foo/bar", "foo/baz"));
    assert!(!matches("foo/bar", "foo"));
    assert!(!matches("foo/bar", "foo/bar/baz"));
    assert!(matches("/foo/bar", "/foo/bar"));
    assert!(!matches("/foo/bar", "foo/bar"));
    assert!(matches("", ""));
}

#[test]
fn single_wildcard_consumes_one_level() {
    assert!(matches("foo/+/bar", "foo/X/bar"));
    assert!(matches("foo/+/bar", "foo//bar"));
    assert!(!matches("foo/+/bar", "foo/bar"));
    assert!(!matches("foo/+/bar", "foo/X/Y/bar"));
}

#[test]
fn multi_wildcard_accepts_any_remainder() {
    assert!(matches("foo/bar/#", "foo/bar"));
    assert!(matches("foo/bar/#", "foo/bar/anything/deep"));
    assert!(!matches("foo/bar/#", "foo/baz"));
    assert!(matches("#", "anything/at/all"));
}

#[test]
fn captures_are_in_pattern_order() {
    assert_eq!(captures("foo/+/bar", "foo/X/bar"), vec!["X".to_string()]);
    assert_eq!(
        captures("foo/+/bar/#", "foo/X/bar/a/b"),
        vec!["X".to_string()]
    );
    assert_eq!(
        captures("+/+", "a/b"),
        vec!["a".to_string(), "b".to_string()]
    );
    let none: Vec<String> = vec![];
    assert_eq!(captures("foo/bar/#", "foo/bar/deep"), none);
}

#[test]
fn splitting_preserves_empty_segments() {
    assert_eq!(
        split_levels("/foo/bar"),
        vec!["".to_string(), "foo".to_string(), "bar".to_string()]
    );
    assert_eq!(
        split_levels("foo//bar"),
        vec!["foo".to_string(), "".to_string(), "bar".to_string()]
    );
    assert_eq!(split_levels(""), vec!["".to_string()]);
}

#[test]
fn compile_rejects_mixed_levels() {
    assert!(compile_pattern("foo/#/bar").is_err());
    assert!(compile_pattern("foo/bar#").is_err());
    assert!(compile_pattern("foo/bar+baz/quux").is_err());
    assert!(compile_pattern("foo/+/bar").is_ok());
    assert!(compile_pattern("foo/bar/#").is_ok());
}

#[test]
fn repeated_matching_is_identical() {
    let first = matches("foo/+/bar", "foo/X/bar");
    let second = matches("foo/+/bar", "foo/X/bar");
    assert_eq!(first, second);
}
