use webf_check::property_set::{bytes_less, PropertySet};
use webf_check::scan::{Dialect, Quote, ScanState};
use webf_check::strings::{chars_of, has_prefix, str_equal, string_of, string_of_bytes};
use webf_check::text::slice_str;

fn state_after(text: &str, dialect: Dialect) -> ScanState {
    let mut state = ScanState::start();
    for b in text.bytes() {
        state = state.advance(b, dialect);
    }
    state
}

#[test]
fn scanner_starts_in_code() {
    let s = ScanState::start();
    assert_eq!(s, ScanState { quote: Quote::Outside, escaped: false });
    assert!(s.is_code());
}

#[test]
fn quotes_open_and_close_strings() {
    assert_eq!(state_after("a 'b", Dialect::Script).quote, Quote::Single);
    assert_eq!(state_after("a 'b'", Dialect::Script).quote, Quote::Outside);
    assert_eq!(state_after("a \"b", Dialect::Script).quote, Quote::Double);
    assert_eq!(state_after("a \"b'c", Dialect::Script).quote, Quote::Double);
    assert_eq!(state_after("a 'b\"c`", Dialect::Script).quote, Quote::Single);
    assert_eq!(state_after("`a'\"", Dialect::Script).quote, Quote::Template);
    assert_eq!(state_after("`a'\"`", Dialect::Script).quote, Quote::Outside);
    assert!(!state_after("'x", Dialect::Script).is_code());
}

#[test]
fn stylesheets_have_no_template_literals() {
    assert_eq!(state_after("`a", Dialect::Stylesheet).quote, Quote::Outside);
    assert_eq!(state_after("`a'", Dialect::Stylesheet).quote, Quote::Single);
}

#[test]
fn backslash_escapes_the_next_byte_only() {
    let s = state_after("'a\\", Dialect::Script);
    assert_eq!(s, ScanState { quote: Quote::Single, escaped: true });
    assert!(!s.is_code());
    assert_eq!(state_after("'a\\'", Dialect::Script).quote, Quote::Single);
    assert_eq!(state_after("'a\\\\'", Dialect::Script).quote, Quote::Outside);
    let s = state_after("\\", Dialect::Script);
    assert!(s.escaped && !s.is_code());
    assert!(state_after("\\{", Dialect::Script).is_code());
}

#[test]
fn property_set_is_ordered_by_bytes() {
    let mut set = PropertySet::new();
    assert!(set.is_empty());
    for name in ["b", "a", "ab", "", "B", "é", "a"] {
        set.insert(name.to_string());
    }
    let got: Vec<&str> = (0..set.len()).map(|i| set.name(i)).collect();
    assert_eq!(got, vec!["", "B", "a", "ab", "b", "é"]);
    assert!(set.contains("") && set.contains("é") && !set.contains("c"));
    assert!(!set.is_empty());
}

#[test]
fn byte_order_is_that_of_str() {
    let words = ["", "a", "ab", "b", "B", "é", "a\u{0}", "😀"];
    for x in words {
        for y in words {
            assert_eq!(bytes_less(x.as_bytes(), y.as_bytes()), x < y, "{x:?} {y:?}");
            assert_eq!(str_equal(x, y), x == y);
        }
    }
}

#[test]
fn strings_and_characters_convert() {
    let chars = chars_of("aé😀b");
    assert_eq!(chars, vec!['a', 'é', '😀', 'b']);
    assert_eq!(string_of(&chars, 0), "aé😀b");
    assert_eq!(string_of(&chars, 2), "😀b");
    assert_eq!(string_of(&chars, 4), "");
    assert!(has_prefix(&chars, "aé") && has_prefix(&chars, "") && !has_prefix(&chars, "aé😀bc"));
    assert!(!has_prefix(&chars, "é"));
    assert_eq!(string_of_bytes(b"color:red", 0, 5), "color");
    assert_eq!(string_of_bytes(b"color:red", 6, 6), "");
}

#[test]
fn text_is_cut_at_byte_offsets() {
    let text = "{é}x";
    assert_eq!(slice_str(text, 1, 3), "é");
    assert_eq!(slice_str(text, 0, 5), text);
    assert_eq!(slice_str(text, 4, 4), "");
}
