use webf_check::command::{
    flutter_create_args, forward_slashes, invert_logo_colors, join, locking_processes_info,
    names_a_path, parse_run_args,
};
use webf_check::config::{AndroidManifestConfig, AndroidUsesPermission, FlutterCreateConfig};
use webf_check::gradle::{apply_app_gradle, apply_plugin_repositories, apply_repositories};
use webf_check::handles::{parse_handle_line, parse_handle_output};
use webf_check::strings::find_chars;
use webf_check::lines::{lines_of_text, render_lines, trim};
use webf_check::manifest::{android_attribute_name, manifest_label, permissions_to_add};
use webf_check::properties::{apply_gradle_wrapper_properties, Properties};

fn strings(items: &[&str]) -> Vec<String> {
    items.iter().map(|s| s.to_string()).collect()
}

fn text_lines(text: &str) -> Vec<String> {
    lines_of_text(text).iter().map(|l| l.iter().collect()).collect()
}

#[test]
fn lines_are_split_as_std_does() {
    for text in ["", "a", "a\n", "a\nb", "a\r\nb\r\n", "\n", "\n\n", "a\r", "a\rb\n", "\r\n", "x\n\ny"] {
        let want: Vec<String> = text.lines().map(|l| l.to_string()).collect();
        assert_eq!(text_lines(text), want, "{:?}", text);
    }
}

#[test]
fn rendered_lines_end_with_a_line_feed() {
    assert_eq!(render_lines(&Vec::new()), "\n");
    assert_eq!(render_lines(&lines_of_text("a\nb")), "a\nb\n");
    assert_eq!(render_lines(&lines_of_text("")), "\n");
}

#[test]
fn trim_removes_unicode_white_space() {
    for text in ["", "  a b \t\n", "\u{a0}x\u{3000}", "\u{2003}", "a", " \u{85}\u{1680}y\u{2028}\u{2029}\u{202f}\u{205f} ", "\u{200b}z"] {
        let got: String = trim(text).iter().collect();
        assert_eq!(got, text.trim(), "{:?}", text);
    }
}

#[test]
fn repositories_go_behind_the_first_block_opener() {
    let content = "allprojects {\n    repositories {\n        google()\n    }\n}\nx {\n  repositories {\n}\n}";
    let out = apply_repositories(content, &strings(&["https://a", "https://b"]));
    assert_eq!(
        out,
        "allprojects {\n    repositories {\n        maven { url = uri(\"https://a\") }\n        maven { url = uri(\"https://b\") }\n        google()\n    }\n}\nx {\n  repositories {\n}\n}\n"
    );
    assert_eq!(apply_plugin_repositories(content, &strings(&["https://a", "https://b"])), out);
    assert_eq!(apply_repositories("a\nb", &strings(&["u"])), "a\nb\n");
    assert_eq!(apply_repositories("", &strings(&["u"])), "\n");
    assert_eq!(apply_repositories("repositories {", &Vec::new()), "repositories {\n");
}

#[test]
fn app_gradle_gets_namespace_and_application_id() {
    let content = "android {\n  namespace = \"old\"\n    defaultConfig {\n      applicationId = \"old\"\n    }\n}";
    let out = apply_app_gradle(content, "com.x", "com.x.app", None, None, None);
    assert_eq!(
        out,
        "android {\n    namespace = \"com.x\"\n    defaultConfig {\n        applicationId = \"com.x.app\"\n    }\n}\n"
    );
}

#[test]
fn app_gradle_gets_the_configured_blocks() {
    let content = "android {\n    kotlinOptions {\n        jvmTarget = \"1.8\"\n    }\n    defaultConfig {\n        minSdk = 21\n    }\n    buildTypes {\n    }\n}\n";
    let abis = strings(&["arm64-v8a", "x86_64"]);
    let out = apply_app_gradle(content, "n", "i", Some("app-${v}.apk"), Some(&abis), Some(false));
    let want = "android {\n    kotlinOptions {\n        jvmTarget = \"1.8\"\n    }\n\n    // 禁用 Kotlin 增量编译以避免跨盘符路径问题\n    tasks.withType<org.jetbrains.kotlin.gradle.tasks.KotlinCompile> {\n        incremental = false\n    }\n    defaultConfig {\n        minSdk = 21\n        ndk {\n            abiFilters.add(\"arm64-v8a\")\n            abiFilters.add(\"x86_64\")\n        }\n    }\n    buildTypes {\n    }\n\n    applicationVariants.all {\n        outputs.all {\n            val output = this as com.android.build.gradle.internal.api.BaseVariantOutputImpl\n            output.outputFileName = \"app-${v}.apk\"\n        }\n    }\n}\n";
    assert_eq!(out, want);
    let same = apply_app_gradle(content, "n", "i", None, Some(&Vec::new()), Some(true));
    assert_eq!(same, content);
}

#[test]
fn handle_report_gives_processes_by_id() {
    let report = "\nNthandle v5.0 - Handle viewer\nCopyright (C) 1997-2022 Mark Russinovich\nSysinternals - www.sysinternals.com\n\ncode.exe           pid: 1234   type: File   1A4: C:\\x\n  java.exe pid:77 x\npid: 5 y\nnone here\nbad.exe pid: 99999999999 z\nbad.exe pid: x\ncode2.exe pid: 1234\n";
    let map = parse_handle_output(report).unwrap();
    let mut got: Vec<(u32, String)> = map.into_iter().collect();
    got.sort();
    assert_eq!(
        got,
        vec![(5, "Unknown".to_string()), (77, "java.exe".to_string()), (1234, "code2.exe".to_string())]
    );
    let line: Vec<char> = "a.exe pid: 4294967295".chars().collect();
    assert_eq!(parse_handle_line(&line), Some((4294967295, "a.exe".to_string())));
    let line: Vec<char> = "a.exe pid: 4294967296".chars().collect();
    assert_eq!(parse_handle_line(&line), None);
    let line: Vec<char> = "a.exe pid: 007".chars().collect();
    assert_eq!(parse_handle_line(&line), Some((7, "a.exe".to_string())));
    let hay: Vec<char> = "abcabc".chars().collect();
    assert_eq!(find_chars(&hay, "ca"), Some(2));
    assert_eq!(find_chars(&hay, "cb"), None);
}

#[test]
fn android_attributes_get_their_namespace() {
    assert_eq!(android_attribute_name("label"), Some("android:label".to_string()));
    assert_eq!(
        android_attribute_name("enableOnBackInvokedCallback"),
        Some("android:enableOnBackInvokedCallback".to_string())
    );
    assert_eq!(android_attribute_name("android:label"), None);
    assert_eq!(android_attribute_name("package"), None);
    assert_eq!(android_attribute_name("tools:name"), None);
}

#[test]
fn only_missing_permissions_are_added() {
    let perm = |name: &str, sdk: Option<u32>| AndroidUsesPermission {
        name: name.to_string(),
        max_sdk_version: sdk,
        uses_permission_flags: None,
        target_api: None,
    };
    let configured = vec![perm("a", None), perm("b", Some(30)), perm("c", None), perm("b", None)];
    let add = permissions_to_add(&strings(&["a", "x"]), &configured);
    let got: Vec<(String, Option<u32>)> =
        add.iter().map(|p| (p.name.clone(), p.max_sdk_version)).collect();
    assert_eq!(
        got,
        vec![("b".to_string(), Some(30)), ("c".to_string(), None), ("b".to_string(), None)]
    );
}

#[test]
fn blank_label_is_not_written() {
    let mut cfg = AndroidManifestConfig::default();
    assert_eq!(manifest_label(&cfg), None);
    cfg.application_label = Some("  \t".to_string());
    assert_eq!(manifest_label(&cfg), None);
    cfg.application_label = Some(" My App ".to_string());
    assert_eq!(manifest_label(&cfg), Some(" My App "));
}

#[test]
fn flutter_create_gets_its_arguments_in_order() {
    let create = FlutterCreateConfig {
        platforms: Some(strings(&["android", "web"])),
        android_language: Some("kotlin".to_string()),
    };
    assert_eq!(
        flutter_create_args("proj", "app", Some("com.x"), Some("An app"), &create),
        strings(&[
            "create",
            "--project-name",
            "app",
            "--platforms",
            "android,web",
            "--android-language",
            "kotlin",
            "--org",
            "com.x",
            "--description",
            "An app",
            "proj"
        ])
    );
    let bare = FlutterCreateConfig { platforms: Some(Vec::new()), android_language: None };
    assert_eq!(
        flutter_create_args("p", "app", None, None, &bare),
        strings(&["create", "--project-name", "app", "p"])
    );
    assert_eq!(join(&strings(&["a"]), ","), "a");
    assert_eq!(join(&Vec::new(), ","), "");
    assert_eq!(join(&strings(&["a", "", "b"]), ", "), "a, , b");
}

#[test]
fn locking_processes_are_named_with_their_ids() {
    assert_eq!(locking_processes_info(&Vec::new()), None);
    assert_eq!(
        locking_processes_info(&vec![(12, "a.exe".to_string()), (4294967295, "b".to_string())]),
        Some("a.exe (PID 12), b (PID 4294967295)".to_string())
    );
}

#[test]
fn paths_are_written_with_forward_slashes() {
    assert_eq!(forward_slashes("src\\a\\b.tsx"), "src/a/b.tsx");
    assert_eq!(forward_slashes("src/a"), "src/a");
    assert!(names_a_path("./flutter") && names_a_path("C:\\x") && !names_a_path("flutter"));
}

#[test]
fn runner_reads_its_command_line() {
    let parsed = parse_run_args(&strings(&[
        "cmd-run", "--log=build.log", "--cwd", "flutter", "flutter", "build", "--log", "x.log",
        "apk", "--cwd=y", "--cwd",
    ]));
    assert_eq!(parsed.log, Some("x.log".to_string()));
    assert_eq!(parsed.cwd, Some("y".to_string()));
    assert_eq!(parsed.command, Some("flutter".to_string()));
    assert_eq!(parsed.args, strings(&["build", "apk", "--cwd"]));
    let none = parse_run_args(&strings(&["cmd-run"]));
    assert!(none.command.is_none() && none.log.is_none() && none.args.is_empty());
    let none = parse_run_args(&Vec::new());
    assert!(none.command.is_none());
    let only = parse_run_args(&strings(&["cmd-run", "--log"]));
    assert_eq!(only.command, Some("--log".to_string()));
}

#[test]
fn colours_are_inverted_and_alpha_is_kept() {
    let mut pixels = vec![0, 10, 255, 128, 1, 2, 3, 0, 9];
    invert_logo_colors(&mut pixels);
    assert_eq!(pixels, vec![255, 245, 0, 128, 254, 253, 252, 0, 246]);
}

#[test]
fn wrapper_properties_get_the_distribution_url() {
    let mut props = Properties::new();
    props.insert("a".to_string(), "1".to_string());
    props.insert("distributionUrl".to_string(), "old".to_string());
    apply_gradle_wrapper_properties(&mut props, "https://x/gradle.zip");
    assert_eq!(props.get("distributionUrl"), Some("https://x/gradle.zip"));
    assert_eq!(props.get("a"), Some("1"));
    assert_eq!(props.get("b"), None);
}
