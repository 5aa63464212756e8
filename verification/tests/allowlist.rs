use webf_check::allowlist::{
    allowlist_from_captures, is_supported_css_property, load_supported_properties,
    AllowedPropertySet, ConfigError,
};
use webf_check::pattern::{find_captures, group, start_of};

fn list(names: &[&str]) -> AllowedPropertySet {
    AllowedPropertySet::from_names(names.iter().map(|s| s.to_string()).collect()).unwrap()
}

#[test]
fn prefixed_entry_supports_the_bare_property() {
    assert!(is_supported_css_property(&list(&["-webkit-foo"]), "foo", "foo"));
    assert!(is_supported_css_property(&list(&["-moz-foo"]), "foo", "foo"));
    assert!(is_supported_css_property(&list(&["-ms-foo"]), "foo", "foo"));
    assert!(is_supported_css_property(&list(&["-o-foo"]), "foo", "foo"));
}

#[test]
fn only_the_four_vendor_prefixes_widen_a_match() {
    assert!(!is_supported_css_property(&list(&["-khtml-foo"]), "foo", "foo"));
    assert!(!is_supported_css_property(&list(&["foo-bar"]), "foo", "foo"));
    assert!(!is_supported_css_property(&list(&["xfoo"]), "foo", "foo"));
}

#[test]
fn raw_or_normalized_entry_supports() {
    assert!(is_supported_css_property(&list(&["-webkit-filter"]), "-webkit-filter", "filter"));
    assert!(is_supported_css_property(&list(&["filter"]), "-webkit-filter", "filter"));
    assert!(is_supported_css_property(&list(&["-moz-filter"]), "-webkit-filter", "filter"));
    assert!(!is_supported_css_property(&list(&["color"]), "-webkit-filter", "filter"));
}

#[test]
fn empty_list_is_a_config_error() {
    assert!(matches!(
        AllowedPropertySet::from_names(Vec::new()),
        Err(ConfigError::EmptyAllowlist)
    ));
    assert!(matches!(load_supported_properties(""), Err(ConfigError::EmptyAllowlist)));
    assert!(matches!(
        load_supported_properties("{\n  properties: []\n}\n"),
        Err(ConfigError::EmptyAllowlist)
    ));
}

#[test]
fn entries_are_read_line_by_line() {
    let text = "[\n  {\n    name: \"background-color\",\n  },\n  { other: 1 },\n    name: '-webkit-font-smoothing'\n  name: \"x\" trailing\nname:\"color\" ,  \n]";
    let list = load_supported_properties(text).unwrap();
    assert_eq!(list.len(), 3);
    assert!(list.contains("background-color"));
    assert!(list.contains("-webkit-font-smoothing"));
    assert!(list.contains("color"));
    assert!(!list.contains("x"));
}

#[test]
fn list_holds_each_name_once() {
    let l = list(&["b", "a", "b"]);
    assert_eq!(l.len(), 2);
    assert!(l.contains("a") && l.contains("b") && !l.contains("c"));
}

#[test]
fn pattern_that_is_no_regular_expression_is_an_error() {
    assert!(matches!(find_captures("(", "abc"), Err(ConfigError::InvalidPattern)));
    assert!(matches!(find_captures("[a-", ""), Err(ConfigError::InvalidPattern)));
}

#[test]
fn matches_come_with_their_groups_and_offsets() {
    let matches = find_captures("(b)(x)?(c+)", "abc é bccc").unwrap();
    assert_eq!(
        matches,
        vec![
            vec![
                Some((1, "bc".to_string())),
                Some((1, "b".to_string())),
                None,
                Some((2, "c".to_string()))
            ],
            vec![
                Some((7, "bccc".to_string())),
                Some((7, "b".to_string())),
                None,
                Some((8, "ccc".to_string()))
            ],
        ]
    );
    assert_eq!(start_of(&matches[1]), 7);
    assert_eq!(group(&matches[1], 0), Some("bccc"));
    assert_eq!(group(&matches[1], 2), None);
    assert_eq!(group(&matches[1], 3), Some("ccc"));
    assert_eq!(group(&matches[1], 4), None);
    assert_eq!(find_captures("x", "abc").unwrap().len(), 0);
    assert_eq!(start_of(&Vec::new()), 0);
}

#[test]
fn list_is_made_from_the_first_or_the_second_group() {
    let entry = |a: Option<&str>, b: Option<&str>| {
        vec![
            Some((0, "whole".to_string())),
            a.map(|s| (1, s.to_string())),
            b.map(|s| (1, s.to_string())),
        ]
    };
    let list = allowlist_from_captures(&vec![
        entry(Some("a"), None),
        entry(None, Some("b")),
        entry(None, None),
        entry(Some("c"), Some("d")),
    ])
    .unwrap();
    assert_eq!(list.len(), 3);
    assert!(list.contains("a") && list.contains("b") && list.contains("c"));
    assert!(!list.contains("d") && !list.contains("whole"));
    assert!(matches!(
        allowlist_from_captures(&vec![entry(None, None)]),
        Err(ConfigError::EmptyAllowlist)
    ));
    assert!(matches!(allowlist_from_captures(&Vec::new()), Err(ConfigError::EmptyAllowlist)));
}
