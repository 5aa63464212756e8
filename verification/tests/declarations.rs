use webf_check::declarations::{
    extract_decl_properties, extract_declarations, extract_properties_from_block,
};
use webf_check::property_set::PropertySet;

fn names(set: &PropertySet) -> Vec<String> {
    let mut out = Vec::new();
    for i in 0..set.len() {
        out.push(set.name(i).to_string());
    }
    out
}

#[test]
fn colon_inside_url_starts_no_declaration() {
    let props = extract_decl_properties("a{color:red;background:url(http://x/y:z)}");
    assert_eq!(names(&props), vec!["background", "color"]);
    assert!(props.contains("color"));
    assert!(props.contains("background"));
    assert!(!props.contains("http"));
    assert_eq!(props.len(), 2);
}

#[test]
fn media_wrapper_contributes_nothing() {
    let props = extract_decl_properties("@media(min-width:1px){.a{color:red}}");
    assert_eq!(names(&props), vec!["color"]);
}

#[test]
fn only_innermost_blocks_are_read() {
    let props = extract_decl_properties(".a{margin:0;.b{padding:1px}}");
    assert_eq!(names(&props), vec!["padding"]);
}

#[test]
fn last_declaration_needs_no_semicolon() {
    let props = extract_decl_properties("a{color:red;top:0}");
    assert_eq!(names(&props), vec!["color", "top"]);
}

#[test]
fn names_come_out_once_and_in_ascending_order() {
    let props = extract_decl_properties("a{z-index:1;color:red}b{color:blue;-webkit-x:1;_y:2}");
    assert_eq!(names(&props), vec!["-webkit-x", "_y", "color", "z-index"]);
}

#[test]
fn braces_in_strings_and_escaped_braces_do_not_count() {
    let props = extract_decl_properties("a{content:\"}\";color:red}");
    assert_eq!(names(&props), vec!["color", "content"]);
    let props = extract_decl_properties("a\\{b{top:0}");
    assert_eq!(names(&props), vec!["top"]);
}

#[test]
fn semicolon_in_string_or_parentheses_does_not_end_a_value() {
    let mut props = PropertySet::new();
    extract_properties_from_block("a:'x;b:1';c:f(1;d:2);e:3", &mut props);
    assert_eq!(names(&props), vec!["a", "c", "e"]);
}

#[test]
fn stray_colon_and_name_without_colon_are_skipped() {
    let mut props = PropertySet::new();
    extract_properties_from_block(" : x y : 1; foo bar:2", &mut props);
    assert_eq!(names(&props), vec!["bar", "y"]);
}

#[test]
fn white_space_before_colon_is_allowed() {
    let mut props = PropertySet::new();
    extract_properties_from_block("\n  color \t: red;\n", &mut props);
    assert_eq!(names(&props), vec!["color"]);
}

#[test]
fn block_scan_adds_to_what_is_there() {
    let mut props = PropertySet::new();
    assert!(props.insert("top".to_string()));
    assert!(!props.insert("top".to_string()));
    extract_properties_from_block("left:0", &mut props);
    assert_eq!(names(&props), vec!["left", "top"]);
}

#[test]
fn declarations_carry_their_offsets() {
    let decls = extract_declarations("a{color:red}\nb{ top : 0;color:blue}");
    let got: Vec<(String, usize)> =
        decls.iter().map(|d| (d.property.clone(), d.source_offset)).collect();
    assert_eq!(
        got,
        vec![("color".to_string(), 2), ("top".to_string(), 16), ("color".to_string(), 24)]
    );
}

#[test]
fn unbalanced_braces_are_tolerated() {
    assert_eq!(names(&extract_decl_properties("}a{color:red")).len(), 0);
    assert_eq!(names(&extract_decl_properties("a{color:red}}")), vec!["color"]);
    assert_eq!(names(&extract_decl_properties("")).len(), 0);
}

#[test]
fn non_ascii_text_is_scanned_by_bytes() {
    let props = extract_decl_properties("a{content:'é';color:red}");
    assert_eq!(names(&props), vec!["color", "content"]);
}

#[test]
fn unterminated_string_swallows_the_rest() {
    assert_eq!(names(&extract_decl_properties("a{content:\"x;color:red}")).len(), 0);
    assert_eq!(names(&extract_decl_properties("a{color:red}b{top:'0}")), vec!["color"]);
    let mut props = PropertySet::new();
    extract_properties_from_block("a:'x;b:1;c:2", &mut props);
    assert_eq!(names(&props), vec!["a"]);
}
