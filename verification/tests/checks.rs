use webf_check::allowlist::{AllowedPropertySet, ConfigError};
use webf_check::check::{
    check_css_properties_with_source_flag, checked_report_lines, is_script_extension,
    locate_frontend_root, CheckReport, CssCheckOutcome, DirProbe, OnlyMode, RootChoice,
};
use webf_check::dist::{check_dist_css, files_by_path};
use webf_check::report::{
    decimal_string, dist_report_lines, source_report_lines, tailwind_report_lines,
};
use webf_check::source::SourceFile;
use webf_check::tailwind::{check_tailwind_blacklist, tailwind_file_hits, TailwindHit};
use webf_check::violation::{Violation, ViolationKind};

fn list(names: &[&str]) -> AllowedPropertySet {
    AllowedPropertySet::from_names(names.iter().map(|s| s.to_string()).collect()).unwrap()
}

fn file(path: &str, text: &str) -> SourceFile {
    SourceFile { path: path.to_string(), text: text.to_string() }
}

fn violation(n: usize) -> Violation {
    Violation {
        file: "src/a.tsx".to_string(),
        line: n,
        column: 7,
        property: "-webkit-foo".to_string(),
        normalized: "foo".to_string(),
        kind: ViolationKind::InlineStyle,
    }
}

#[test]
fn forbidden_utilities_are_found_rule_by_rule() {
    let text = "a transition-all b\n<p class=\"hover:scale-105 group-hover:x hover:-translate-y-1\">";
    let hits = tailwind_file_hits("src/x.tsx", text).unwrap();
    let got: Vec<(String, usize, usize, String)> =
        hits.iter().map(|h| (h.rule.clone(), h.line, h.column, h.snippet.clone())).collect();
    assert_eq!(
        got,
        vec![
            ("group-hover variant".to_string(), 2, 27, "group-hover:".to_string()),
            ("hover transform (scale)".to_string(), 2, 11, "hover:scale-105".to_string()),
            (
                "hover transform (translate)".to_string(),
                2,
                41,
                "hover:-translate-y-1".to_string()
            ),
            ("transition-all utility".to_string(), 1, 3, "transition-all".to_string()),
        ]
    );
    assert_eq!(hits[0].file, "src/x.tsx");
}

#[test]
fn file_with_the_marker_is_not_checked() {
    let text = "// webf-tailwind-blacklist:disable\nhover:rotate-1 hover:skew-x-2";
    assert_eq!(tailwind_file_hits("a.ts", text).unwrap().len(), 0);
    let files = vec![file("a.ts", text), file("b.ts", "hover:rotate-1 hover:skew-x-2")];
    let hits = check_tailwind_blacklist(&files).unwrap();
    assert_eq!(hits.len(), 2);
    assert_eq!(hits[0].rule, "hover transform (rotate)");
    assert_eq!(hits[1].rule, "hover transform (skew)");
    assert_eq!(hits[1].file, "b.ts");
}

#[test]
fn every_hit_is_counted() {
    let text = "transition-all ".repeat(300);
    let hits = tailwind_file_hits("a.ts", &text).unwrap();
    assert_eq!(hits.len(), 300);
    let lines = tailwind_report_lines(&hits);
    assert_eq!(lines.len(), 1 + 50 + 1 + 3);
    assert_eq!(lines[51], "...and 250 more");
}

#[test]
fn tailwind_report_shows_how_to_exempt_a_file() {
    let hits = vec![TailwindHit {
        file: "src/a.tsx".to_string(),
        line: 3,
        column: 14,
        rule: "transition-all utility".to_string(),
        snippet: "transition-all".to_string(),
    }];
    assert_eq!(
        tailwind_report_lines(&hits),
        vec![
            "[webf-tailwind-blacklist] Found forbidden Tailwind patterns:",
            "- src/a.tsx:3:14  transition-all utility  (transition-all)",
            "",
            "If you really need to bypass for a file, add:",
            "  // webf-tailwind-blacklist:disable",
        ]
    );
}

#[test]
fn numbers_are_written_in_decimal() {
    assert_eq!(decimal_string(0), "0");
    assert_eq!(decimal_string(7), "7");
    assert_eq!(decimal_string(10), "10");
    assert_eq!(decimal_string(1234567890), "1234567890");
    assert_eq!(decimal_string(usize::MAX), usize::MAX.to_string());
}

#[test]
fn source_report_shows_thirty_and_counts_all() {
    let few: Vec<Violation> = (1..=2).map(violation).collect();
    assert_eq!(
        source_report_lines(&few),
        vec![
            "[check:webf-css-props] Found 2 unsupported CSS properties in source:",
            "- src/a.tsx:1:7  inline-style  -webkit-foo (normalized: foo)",
            "- src/a.tsx:2:7  inline-style  -webkit-foo (normalized: foo)",
        ]
    );
    let many: Vec<Violation> = (1..=31).map(violation).collect();
    let lines = source_report_lines(&many);
    assert_eq!(lines.len(), 32);
    assert_eq!(lines[0], "[check:webf-css-props] Found 31 unsupported CSS properties in source:");
    assert_eq!(lines[30], "- src/a.tsx:30:7  inline-style  -webkit-foo (normalized: foo)");
    assert_eq!(lines[31], "...and 1 more");
    let thirty: Vec<Violation> = (1..=30).map(violation).collect();
    assert_eq!(source_report_lines(&thirty).len(), 31);
}

#[test]
fn dist_report_shows_thirty() {
    let mut v = violation(1);
    v.kind = ViolationKind::DistCss;
    v.file = "dist/a.css".to_string();
    assert_eq!(
        dist_report_lines(&vec![v]),
        vec![
            "[check:webf-css-props] Found 1 unsupported CSS properties in dist CSS (grouped by file):",
            "- dist/a.css -> -webkit-foo (normalized: foo)",
        ]
    );
    let many: Vec<Violation> = (1..=40).map(violation).collect();
    assert_eq!(dist_report_lines(&many).len(), 31);
}

#[test]
fn stylesheets_are_checked_by_ascending_path() {
    let files = vec![
        file("dist/b.css", "a{zoom:1;color:red;-webkit-mask:x;--v:1}"),
        file("dist/a.css", "a{color:red}\nb{\n  filter:x;\n  filter:y}"),
    ];
    assert_eq!(files_by_path(&files), vec![1, 0]);
    let found = check_dist_css(&files, &list(&["color", "mask"]));
    let got: Vec<(String, String, String, usize, usize)> = found
        .iter()
        .map(|v| (v.file.clone(), v.property.clone(), v.normalized.clone(), v.line, v.column))
        .collect();
    assert_eq!(
        got,
        vec![
            ("dist/a.css".to_string(), "filter".to_string(), "filter".to_string(), 3, 3),
            ("dist/b.css".to_string(), "zoom".to_string(), "zoom".to_string(), 1, 3),
        ]
    );
    assert!(found.iter().all(|v| v.kind == ViolationKind::DistCss));
}

#[test]
fn order_of_paths_is_stable() {
    let files = vec![file("b", ""), file("a", ""), file("b", ""), file("", ""), file("ab", "")];
    assert_eq!(files_by_path(&files), vec![3, 1, 4, 0, 2]);
    assert_eq!(files_by_path(&Vec::new()), Vec::<usize>::new());
}

#[test]
fn css_check_goes_through_its_steps_in_order() {
    let none: Vec<SourceFile> = Vec::new();
    let css = vec![file("dist/a.css", "a{color:red;zoom:1}")];
    let src = vec![file("src/a.tsx", "style={{top: 1}}")];
    let allow = "name: \"color\",\n";
    assert!(matches!(
        check_css_properties_with_source_flag(None, None, &none, false),
        Err(ConfigError::MissingAllowlist)
    ));
    assert!(matches!(
        check_css_properties_with_source_flag(Some(""), None, &none, false),
        Err(ConfigError::EmptyAllowlist)
    ));
    assert!(matches!(
        check_css_properties_with_source_flag(Some(""), None, &src, true),
        Err(ConfigError::EmptyAllowlist)
    ));
    assert!(matches!(
        check_css_properties_with_source_flag(Some(allow), None, &src, true),
        Ok(CssCheckOutcome::MissingBuildOutput)
    ));
    assert!(matches!(
        check_css_properties_with_source_flag(Some(""), Some(&css), &none, false),
        Err(ConfigError::EmptyAllowlist)
    ));
    assert!(matches!(
        check_css_properties_with_source_flag(Some(allow), Some(&none), &src, true),
        Ok(CssCheckOutcome::NoStylesheets)
    ));
    match check_css_properties_with_source_flag(Some(allow), Some(&css), &src, false).unwrap() {
        CssCheckOutcome::Checked { source, dist } => {
            assert_eq!(source.len(), 0);
            assert_eq!(dist.len(), 1);
            assert_eq!(dist[0].property, "zoom");
        }
        _ => panic!("not checked"),
    }
    let outcome =
        check_css_properties_with_source_flag(Some(allow), Some(&css), &src, true).unwrap();
    assert!(!outcome.passed());
    match outcome {
        CssCheckOutcome::Checked { source, dist } => {
            assert_eq!(source.len(), 1);
            assert_eq!(source[0].property, "top");
            assert_eq!(dist.len(), 1);
        }
        _ => panic!("not checked"),
    }
    let fine = vec![file("dist/a.css", "a{color:red;--x:1}")];
    let outcome =
        check_css_properties_with_source_flag(Some(allow), Some(&fine), &src, false).unwrap();
    assert!(outcome.passed());
    assert!(!CssCheckOutcome::MissingBuildOutput.passed());
    assert!(!CssCheckOutcome::NoStylesheets.passed());
}

#[test]
fn report_of_a_check_names_sources_and_stylesheets() {
    let ok = "[check:webf-css-props] OK: All CSS declarations use supported properties (plus custom properties).";
    assert_eq!(checked_report_lines(&Vec::new(), &Vec::new()), vec![ok]);
    let one = vec![violation(1)];
    let lines = checked_report_lines(&one, &Vec::new());
    assert_eq!(lines.len(), 3);
    assert_eq!(lines[0], ok);
    assert_eq!(lines[1], "[check:webf-css-props] Found 1 unsupported CSS properties in source:");
    let lines = checked_report_lines(&one, &one);
    assert_eq!(lines.len(), 4);
    assert_eq!(lines[0], "[check:webf-css-props] Found 1 unsupported CSS properties in source:");
    assert_eq!(
        lines[2],
        "[check:webf-css-props] Found 1 unsupported CSS properties in dist CSS (grouped by file):"
    );
    let lines = checked_report_lines(&Vec::new(), &one);
    assert_eq!(lines.len(), 2);
}

#[test]
fn front_end_root_is_searched_upwards() {
    let no = DirProbe {
        package_json: false,
        scripts: false,
        frontend_package_json: false,
        frontend_scripts: false,
    };
    let own = DirProbe { package_json: true, scripts: true, ..no };
    let sub = DirProbe { frontend_package_json: true, frontend_scripts: true, ..no };
    let sub_without_scripts = DirProbe { frontend_package_json: true, ..no };
    let only_package = DirProbe { package_json: true, ..no };
    assert_eq!(locate_frontend_root(&vec![]), None);
    assert_eq!(locate_frontend_root(&vec![no]), None);
    assert_eq!(
        locate_frontend_root(&vec![own, sub]),
        Some(RootChoice { levels: 0, in_frontend: false })
    );
    assert_eq!(
        locate_frontend_root(&vec![sub]),
        Some(RootChoice { levels: 0, in_frontend: true })
    );
    assert_eq!(
        locate_frontend_root(&vec![sub_without_scripts]),
        Some(RootChoice { levels: 0, in_frontend: true })
    );
    assert_eq!(
        locate_frontend_root(&vec![only_package, no, own]),
        Some(RootChoice { levels: 2, in_frontend: false })
    );
    assert_eq!(
        locate_frontend_root(&vec![no, no, no, no, sub_without_scripts, own]),
        Some(RootChoice { levels: 4, in_frontend: true })
    );
    assert_eq!(locate_frontend_root(&vec![no, no, no, no, no, own]), None);
}

#[test]
fn modes_and_file_filters() {
    assert!(OnlyMode::All.runs_tailwind() && OnlyMode::All.runs_css_props());
    assert!(OnlyMode::Tailwind.runs_tailwind() && !OnlyMode::Tailwind.runs_css_props());
    assert!(!OnlyMode::CssProps.runs_tailwind() && OnlyMode::CssProps.runs_css_props());
    for ext in ["ts", "tsx", "js", "jsx"] {
        assert!(is_script_extension(ext));
    }
    assert!(!is_script_extension("css") && !is_script_extension("") && !is_script_extension("TS"));
}

#[test]
fn any_finding_lets_the_run_fail() {
    let nothing = CheckReport { tailwind: None, css: None };
    assert!(nothing.passed() && nothing.tailwind_passed());
    assert!(nothing.source_passed() && nothing.dist_passed());
    let clean = CheckReport {
        tailwind: Some(Vec::new()),
        css: Some(CssCheckOutcome::Checked { source: Vec::new(), dist: Vec::new() }),
    };
    assert!(clean.passed());
    let hit = TailwindHit {
        file: "a".to_string(),
        line: 1,
        column: 1,
        rule: "r".to_string(),
        snippet: "s".to_string(),
    };
    let report = CheckReport { tailwind: Some(vec![hit]), css: None };
    assert!(!report.passed() && !report.tailwind_passed() && report.dist_passed());
    let report = CheckReport {
        tailwind: None,
        css: Some(CssCheckOutcome::Checked { source: vec![violation(1)], dist: Vec::new() }),
    };
    assert!(!report.passed() && !report.source_passed() && report.dist_passed());
    let report = CheckReport {
        tailwind: Some(Vec::new()),
        css: Some(CssCheckOutcome::Checked { source: Vec::new(), dist: vec![violation(1)] }),
    };
    assert!(!report.passed() && report.source_passed() && !report.dist_passed());
    let report = CheckReport { tailwind: None, css: Some(CssCheckOutcome::NoStylesheets) };
    assert!(!report.passed());
}

#[test]
fn order_of_the_stylesheets_given_does_not_matter() {
    let a = || file("dist/a.css", "x{zoom:1;float:left}");
    let b = || file("dist/assets/b.css", "y{resize:both}");
    let c = || file("dist/b.css", "z{zoom:2}");
    let allow = list(&["color"]);
    let show = |files: Vec<SourceFile>| {
        check_dist_css(&files, &allow)
            .iter()
            .map(|v| format!("{}:{}:{} {}", v.file, v.line, v.column, v.property))
            .collect::<Vec<String>>()
    };
    let want = vec![
        "dist/a.css:1:10 float",
        "dist/a.css:1:3 zoom",
        "dist/assets/b.css:1:3 resize",
        "dist/b.css:1:3 zoom",
    ];
    assert_eq!(show(vec![a(), b(), c()]), want);
    assert_eq!(show(vec![c(), b(), a()]), want);
    assert_eq!(show(vec![b(), a(), c()]), want);
}
