use webf_check::config::{
    AndroidAppBuildConfig, AndroidAppConfig, AndroidAppManifestConfig, AndroidBuildConfig,
    AndroidConfig, AndroidGradleWrapperConfig, AndroidManifestConfig, AndroidSettingsConfig,
    AndroidUsesPermission, Config, FlutterCreateConfig, RepositoryList, ToolsConfig,
};
use webf_check::env::{expand_env_vars, Environment, ExpandError};
use webf_check::expand::{
    android_app_build_gradle_expand, expand_android_config, expand_config,
    expand_flutter_create_config, expand_manifest_override,
};

fn env(pairs: &[(&str, &str)]) -> Environment {
    let mut e = Environment::new();
    for (k, v) in pairs {
        e.push(k.to_string(), v.to_string());
    }
    e
}

fn config() -> Config {
    Config {
        project_name: "app".to_string(),
        org: None,
        description: None,
        version: None,
        output_file_name_pattern: None,
        pubspec: None,
        tools: ToolsConfig::default(),
        create: FlutterCreateConfig::default(),
        android: AndroidConfig {
            gradle_wrapper: AndroidGradleWrapperConfig::default(),
            app: AndroidAppConfig {
                build: AndroidAppBuildConfig::default(),
                manifest: AndroidAppManifestConfig::default(),
            },
            build: AndroidBuildConfig { allprojects: RepositoryList::default() },
            settings: AndroidSettingsConfig { plugin_management: RepositoryList::default() },
        },
        ios: None,
        windows: None,
    }
}

#[test]
fn variables_are_replaced_in_both_forms() {
    let e = env(&[("HOME", "/root"), ("A_1", "x"), ("HOME", "second")]);
    assert_eq!(expand_env_vars("${HOME}/a", &e).unwrap(), "/root/a");
    assert_eq!(expand_env_vars("$HOME/a$A_1-", &e).unwrap(), "/root/ax-");
    assert_eq!(expand_env_vars("a$", &e).unwrap(), "a$");
    assert_eq!(expand_env_vars("$ $-", &e).unwrap(), "$ $-");
    assert_eq!(expand_env_vars("", &e).unwrap(), "");
    assert_eq!(expand_env_vars("é${A_1}ü", &e).unwrap(), "éxü");
    assert_eq!(e.get("HOME"), Some("/root"));
    assert_eq!(e.get("none"), None);
}

#[test]
fn missing_variable_and_open_brace_are_errors() {
    let e = env(&[("A", "x")]);
    assert!(matches!(expand_env_vars("$B", &e), Err(ExpandError::Missing(n)) if n == "B"));
    assert!(matches!(expand_env_vars("${}", &e), Err(ExpandError::Missing(n)) if n == ""));
    assert!(matches!(expand_env_vars("$A${B C}", &e), Err(ExpandError::Missing(n)) if n == "B C"));
    assert!(matches!(expand_env_vars("a${A", &e), Err(ExpandError::Unclosed(v)) if v == "a${A"));
    assert!(matches!(expand_env_vars("${B ${", &e), Err(ExpandError::Unclosed(_))));
    assert!(matches!(expand_env_vars("$B ${", &e), Err(ExpandError::Missing(_))));
}

#[test]
fn config_is_expanded_and_defaults_are_filled_in() {
    let e = env(&[("NAME", "demo"), ("ORG", " com.x.. "), ("URL", "https://r"), ("L", "$NAME")]);
    let mut cfg = config();
    cfg.project_name = "$NAME".to_string();
    cfg.org = Some("${ORG}".to_string());
    cfg.description = Some("About $NAME".to_string());
    cfg.create.platforms = Some(vec!["android".to_string(), "$NAME".to_string()]);
    cfg.create.android_language = Some("kotlin".to_string());
    cfg.android.build.allprojects.repositories = vec!["$URL/a".to_string()];
    cfg.android.settings.plugin_management.repositories = vec!["${URL}/b".to_string()];
    cfg.android.gradle_wrapper.distribution_url = Some("$URL/g.zip".to_string());
    cfg.android.app.manifest.debug = Some(AndroidManifestConfig {
        application_label: Some("$L".to_string()),
        uses_cleartext_traffic: Some(true),
        enable_on_back_invoked_callback: None,
        permissions: Some(vec![AndroidUsesPermission {
            name: "p.$NAME".to_string(),
            max_sdk_version: Some(3),
            uses_permission_flags: None,
            target_api: None,
        }]),
    });
    expand_config(&mut cfg, &e).unwrap();
    assert_eq!(cfg.project_name, "demo");
    assert_eq!(cfg.org, Some(" com.x.. ".to_string()));
    assert_eq!(cfg.description, Some("About demo".to_string()));
    assert_eq!(cfg.create.platforms, Some(vec!["android".to_string(), "demo".to_string()]));
    assert_eq!(cfg.android.app.build.application_id, "com.x.demo");
    assert_eq!(cfg.android.app.build.namespace, "com.x.demo");
    assert_eq!(cfg.android.app.manifest.main.application_label, Some("demo".to_string()));
    assert_eq!(cfg.android.build.allprojects.repositories, vec!["https://r/a".to_string()]);
    assert_eq!(
        cfg.android.settings.plugin_management.repositories,
        vec!["https://r/b".to_string()]
    );
    assert_eq!(cfg.android.gradle_wrapper.distribution_url, Some("https://r/g.zip".to_string()));
    let debug = cfg.android.app.manifest.debug.unwrap();
    assert_eq!(debug.application_label, Some("demo".to_string()));
    assert_eq!(debug.uses_cleartext_traffic, Some(true));
    let perms = debug.permissions.unwrap();
    assert_eq!(perms[0].name, "p.demo");
    assert_eq!(perms[0].max_sdk_version, Some(3));
}

#[test]
fn configured_ids_and_label_are_kept() {
    let mut cfg = config();
    cfg.android.app.build.application_id = "a.b".to_string();
    cfg.android.app.build.namespace = "n.s".to_string();
    cfg.android.app.manifest.main.application_label = Some("L".to_string());
    expand_config(&mut cfg, &Environment::new()).unwrap();
    assert_eq!(cfg.android.app.build.application_id, "a.b");
    assert_eq!(cfg.android.app.build.namespace, "n.s");
    assert_eq!(cfg.android.app.manifest.main.application_label, Some("L".to_string()));
}

#[test]
fn application_id_needs_an_organisation() {
    let mut cfg = config();
    assert!(matches!(
        expand_config(&mut cfg, &Environment::new()),
        Err(ExpandError::ApplicationIdRequired)
    ));
    let mut cfg = config();
    cfg.org = Some("  ".to_string());
    cfg.android.app.build.application_id = " \t".to_string();
    assert!(matches!(
        expand_config(&mut cfg, &Environment::new()),
        Err(ExpandError::ApplicationIdRequired)
    ));
}

#[test]
fn first_failing_value_is_the_error() {
    let mut cfg = config();
    cfg.org = Some("$ORG".to_string());
    cfg.description = Some("${".to_string());
    assert!(matches!(
        expand_config(&mut cfg, &Environment::new()),
        Err(ExpandError::Missing(n)) if n == "ORG"
    ));
    let mut create = FlutterCreateConfig {
        platforms: Some(vec!["a".to_string(), "$P".to_string(), "$Q".to_string()]),
        android_language: None,
    };
    assert!(matches!(
        expand_flutter_create_config(&mut create, &Environment::new()),
        Err(ExpandError::Missing(n)) if n == "P"
    ));
}

#[test]
fn main_label_is_expanded_twice_and_permissions_once() {
    let e = env(&[("A", "$B"), ("B", "c")]);
    let mut cfg = config();
    cfg.android.app.manifest.main.application_label = Some("$A".to_string());
    cfg.android.app.manifest.main.permissions = Some(vec![AndroidUsesPermission {
        name: "$A".to_string(),
        max_sdk_version: None,
        uses_permission_flags: Some("f".to_string()),
        target_api: None,
    }]);
    cfg.android.app.manifest.profile = Some(AndroidManifestConfig {
        application_label: None,
        uses_cleartext_traffic: None,
        enable_on_back_invoked_callback: None,
        permissions: Some(vec![AndroidUsesPermission {
            name: "$A".to_string(),
            max_sdk_version: None,
            uses_permission_flags: None,
            target_api: None,
        }]),
    });
    expand_android_config(&mut cfg.android, &e).unwrap();
    assert_eq!(cfg.android.app.manifest.main.application_label, Some("c".to_string()));
    let perms = cfg.android.app.manifest.main.permissions.as_ref().unwrap();
    assert_eq!(perms[0].name, "$B");
    assert_eq!(perms[0].uses_permission_flags, Some("f".to_string()));
    let perms = cfg.android.app.manifest.profile.as_ref().unwrap().permissions.as_ref().unwrap();
    assert_eq!(perms[0].name, "c");
}

#[test]
fn manifest_override_may_be_absent() {
    assert!(expand_manifest_override(None, &Environment::new()).is_ok());
    let mut m = AndroidManifestConfig {
        application_label: Some("$X".to_string()),
        ..AndroidManifestConfig::default()
    };
    assert!(expand_manifest_override(Some(&mut m), &env(&[("X", "y")])).is_ok());
    assert_eq!(m.application_label, Some("y".to_string()));
    let mut cfg = config();
    cfg.android.app.build.namespace = "$X".to_string();
    cfg.android.app.build.application_id = "$X.id".to_string();
    android_app_build_gradle_expand(&mut cfg.android, &env(&[("X", "y")])).unwrap();
    assert_eq!(cfg.android.app.build.namespace, "y");
    assert_eq!(cfg.android.app.build.application_id, "y.id");
}
