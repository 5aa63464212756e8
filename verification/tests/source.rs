use webf_check::allowlist::AllowedPropertySet;
use webf_check::source::{
    check_css_properties_in_source, extract_keys, source_file_violations, SourceFile,
};
use webf_check::violation::ViolationKind;

fn list(names: &[&str]) -> AllowedPropertySet {
    AllowedPropertySet::from_names(names.iter().map(|s| s.to_string()).collect()).unwrap()
}

#[test]
fn unsupported_vendor_key_is_the_only_violation() {
    let text = "style={{ backgroundColor: 'red', WebkitFilter: x }}";
    let found = source_file_violations("a.tsx", text, &list(&["background-color"])).unwrap();
    assert_eq!(found.len(), 1);
    let v = &found[0];
    assert_eq!(v.property, "-webkit-filter");
    assert_eq!(v.normalized, "filter");
    assert_eq!(v.kind, ViolationKind::InlineStyle);
    assert_eq!(v.file, "a.tsx");
    assert_eq!((v.line, v.column), (1, 32));
}

#[test]
fn keys_are_found_quoted_first() {
    let keys =
        extract_keys("color: 1, 'background-color': 2,\n  '--x': 3, WebkitFilter : 4 ").unwrap();
    let got: Vec<(String, bool, usize)> =
        keys.iter().map(|k| (k.key.clone(), k.is_quoted, k.offset)).collect();
    assert_eq!(
        got,
        vec![
            ("background-color".to_string(), true, 8),
            ("--x".to_string(), true, 31),
            ("color".to_string(), false, 0),
            ("WebkitFilter".to_string(), false, 43),
        ]
    );
}

#[test]
fn quoted_custom_property_is_exempt() {
    let text = "x\n<p style={{ '--gap': 1, 'mask-type': 2 }} />";
    let found = source_file_violations("b.jsx", text, &list(&["color"])).unwrap();
    assert_eq!(found.len(), 1);
    assert_eq!(found[0].property, "mask-type");
    assert_eq!(found[0].normalized, "mask-type");
    assert_eq!((found[0].line, found[0].column), (2, 23));
}

#[test]
fn tailwind_arbitrary_property_is_checked() {
    let text = "<div className=\"[mask-type:luminance] [--x:1] [color:red] [-webkit-a:1]\" />";
    let found = source_file_violations("c.tsx", text, &list(&["color"])).unwrap();
    assert_eq!(found.len(), 2);
    assert_eq!(found[0].property, "mask-type");
    assert_eq!(found[0].kind, ViolationKind::TailwindArbitrary);
    assert_eq!((found[0].line, found[0].column), (1, 17));
    assert_eq!(found[1].property, "-webkit-a");
    assert_eq!(found[1].normalized, "a");
}

#[test]
fn classes_come_before_style_objects_and_files_in_their_order() {
    let files = vec![
        SourceFile {
            path: "z.tsx".to_string(),
            text: "style={{top: 1}} [left:0]".to_string(),
        },
        SourceFile { path: "a.tsx".to_string(), text: "style={{msFoo: 1}}".to_string() },
    ];
    let found = check_css_properties_in_source(&files, &list(&["color"])).unwrap();
    let got: Vec<(String, String, String)> = found
        .iter()
        .map(|v| (v.file.clone(), v.property.clone(), v.normalized.clone()))
        .collect();
    assert_eq!(
        got,
        vec![
            ("z.tsx".to_string(), "left".to_string(), "left".to_string()),
            ("z.tsx".to_string(), "top".to_string(), "top".to_string()),
            ("a.tsx".to_string(), "-ms-foo".to_string(), "foo".to_string()),
        ]
    );
}

#[test]
fn same_scan_twice_gives_the_same_list() {
    let files = vec![SourceFile {
        path: "a.tsx".to_string(),
        text: "style={{a: 1, b: 2, 'c': 3}} [d:1] style={{e: 1}}".to_string(),
    }];
    let l = list(&["color"]);
    let one = check_css_properties_in_source(&files, &l).unwrap();
    let two = check_css_properties_in_source(&files, &l).unwrap();
    let show = |v: &Vec<webf_check::violation::Violation>| {
        v.iter()
            .map(|x| format!("{}:{}:{} {} {}", x.file, x.line, x.column, x.property, x.normalized))
            .collect::<Vec<String>>()
    };
    assert_eq!(show(&one), show(&two));
    assert_eq!(
        show(&one),
        vec![
            "a.tsx:1:30 d d",
            "a.tsx:1:19 c c",
            "a.tsx:1:9 a a",
            "a.tsx:1:13 b b",
            "a.tsx:1:44 e e"
        ]
    );
}

#[test]
fn key_behind_white_space_at_the_start_of_the_object_is_not_found() {
    let keys = extract_keys(" color: 1 ").unwrap();
    assert_eq!(keys.len(), 0);
    let keys = extract_keys("\ncolor: 1 ").unwrap();
    assert_eq!(keys.len(), 1);
    assert_eq!(keys[0].offset, 1);
}

#[test]
fn identifier_followed_by_colon_in_a_value_is_reported_too() {
    let text = "style={{color: cond ? a : b, ...rest, nested: {inner: 2}, f(x,y: 1)}}";
    let found = source_file_violations("d.tsx", text, &list(&["color"])).unwrap();
    let props: Vec<String> = found.iter().map(|v| v.property.clone()).collect();
    assert_eq!(props, vec!["nested", "inner", "y"]);
}
