use webf_check::normalize::{camel_to_kebab, css_prop_from_js_key, normalize_property};

#[test]
fn custom_property_passes_through() {
    assert_eq!(normalize_property("--my-var"), "--my-var");
}

#[test]
fn vendor_prefix_is_stripped_once() {
    assert_eq!(normalize_property("-webkit-filter"), "filter");
    assert_eq!(normalize_property("-moz-appearance"), "appearance");
    assert_eq!(normalize_property("-ms-overflow-style"), "overflow-style");
    assert_eq!(normalize_property("-o-transition"), "transition");
    assert_eq!(normalize_property("color"), "color");
    assert_eq!(normalize_property("-webkit--moz-appearance"), "-moz-appearance");
}

#[test]
fn webkit_key_maps_to_prefixed_property() {
    assert_eq!(
        css_prop_from_js_key("WebkitTapHighlightColor"),
        ("-webkit-tap-highlight-color".to_string(), "tap-highlight-color".to_string())
    );
}

#[test]
fn ms_key_keeps_lowercase_prefix() {
    assert_eq!(
        css_prop_from_js_key("msOverflowStyle"),
        ("-ms-overflow-style".to_string(), "overflow-style".to_string())
    );
}

#[test]
fn camel_case_becomes_kebab_case() {
    assert_eq!(camel_to_kebab("backgroundColor"), "background-color");
    assert_eq!(camel_to_kebab("Color"), "color");
    assert_eq!(camel_to_kebab(""), "");
}

#[test]
fn normalizing_twice_changes_nothing_without_stacked_prefixes() {
    for p in ["color", "-webkit-filter", "--x", "-moz-", "", "-", "-o-x", "-ms-a-b", "-webkit---x"] {
        let once = normalize_property(p);
        assert_eq!(normalize_property(&once), once, "{p}");
    }
    let once = normalize_property("-webkit--moz-appearance");
    assert_eq!(once, "-moz-appearance");
    assert_eq!(normalize_property(&once), "appearance");
}

#[test]
fn vendor_keys_are_recognised_in_their_order() {
    let css = |k: &str| css_prop_from_js_key(k);
    assert_eq!(css("MozOsxFontSmoothing"), ("-moz-osx-font-smoothing".into(), "osx-font-smoothing".into()));
    assert_eq!(css("OTransition"), ("-o-transition".into(), "transition".into()));
    assert_eq!(css("ms"), ("ms".into(), "ms".into()));
    assert_eq!(css("msx"), ("-ms-x".into(), "x".into()));
    assert_eq!(css("Ms"), ("ms".into(), "ms".into()));
    assert_eq!(css("Webkit"), ("-webkit-".into(), "".into()));
    assert_eq!(css("backgroundColor"), ("background-color".into(), "background-color".into()));
    assert_eq!(css("O"), ("-o-".into(), "".into()));
    assert_eq!(css(""), ("".into(), "".into()));
    assert_eq!(css("aÉB"), ("aÉ-b".into(), "aÉ-b".into()));
}
