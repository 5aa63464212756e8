//! The configuration from which the platform directories of an app are
//! generated.
use vstd::prelude::*;

verus! {

/// The whole configuration of one app.
#[derive(Debug)]
pub struct Config {
    pub project_name: String,
    pub org: Option<String>,
    pub description: Option<String>,
    pub version: Option<String>,
    pub output_file_name_pattern: Option<String>,
    pub pubspec: Option<PubspecConfig>,
    pub tools: ToolsConfig,
    pub create: FlutterCreateConfig,
    pub android: AndroidConfig,
    pub ios: Option<IosConfig>,
    pub windows: Option<WindowsConfig>,
}

/// What is written into `pubspec.yaml`.
#[derive(Debug, Default)]
pub struct PubspecConfig {
    pub name: Option<String>,
    pub description: Option<String>,
    pub version: Option<String>,
    pub homepage: Option<String>,
    pub repository: Option<String>,
}

/// The scripts that the generator runs.
#[derive(Debug, Default)]
pub struct ToolsConfig {
    pub gen_logo_script: Option<String>,
}

/// What `flutter create` is asked for.
#[derive(Debug, Default)]
pub struct FlutterCreateConfig {
    pub platforms: Option<Vec<String>>,
    pub android_language: Option<String>,
}

/// The Android part of the configuration.
#[derive(Debug)]
pub struct AndroidConfig {
    pub gradle_wrapper: AndroidGradleWrapperConfig,
    pub app: AndroidAppConfig,
    pub build: AndroidBuildConfig,
    pub settings: AndroidSettingsConfig,
}

/// The build file of the Android project.
#[derive(Debug, Default)]
pub struct AndroidBuildConfig {
    pub allprojects: RepositoryList,
}

/// The settings file of the Android project.
#[derive(Debug, Default)]
pub struct AndroidSettingsConfig {
    pub plugin_management: RepositoryList,
}

/// The Gradle wrapper of the Android project.
#[derive(Debug, Default)]
pub struct AndroidGradleWrapperConfig {
    pub distribution_url: Option<String>,
}

/// The app module of the Android project.
#[derive(Debug, Default)]
pub struct AndroidAppConfig {
    pub build: AndroidAppBuildConfig,
    pub manifest: AndroidAppManifestConfig,
}

/// The build file of the app module.
#[derive(Debug, Default)]
pub struct AndroidAppBuildConfig {
    pub namespace: String,
    pub application_id: String,
    pub output_file_name: Option<String>,
    pub abi_filters: Option<Vec<String>>,
    pub kotlin_incremental: Option<bool>,
}

/// What one `AndroidManifest.xml` is to hold.
#[derive(Debug, Default)]
pub struct AndroidManifestConfig {
    pub application_label: Option<String>,
    pub uses_cleartext_traffic: Option<bool>,
    pub enable_on_back_invoked_callback: Option<bool>,
    pub permissions: Option<Vec<AndroidUsesPermission>>,
}

/// A permission that the app asks for.
#[derive(Debug, Clone)]
pub struct AndroidUsesPermission {
    pub name: String,
    pub max_sdk_version: Option<u32>,
    pub uses_permission_flags: Option<String>,
    pub target_api: Option<String>,
}

/// The manifest of the main source set, and what the debug and profile
/// source sets add to it.
#[derive(Debug, Default)]
pub struct AndroidAppManifestConfig {
    pub main: AndroidManifestConfig,
    pub debug: Option<AndroidManifestConfig>,
    pub profile: Option<AndroidManifestConfig>,
}

/// The iOS part of the configuration.
#[derive(Debug)]
pub struct IosConfig {
}

/// The Windows part of the configuration.
#[derive(Debug, Default)]
pub struct WindowsConfig {
    pub enabled: bool,
}

/// Maven repositories, by URL.
#[derive(Debug, Default)]
pub struct RepositoryList {
    pub repositories: Vec<String>,
}

/// The characters of an optional string.
pub open spec fn opt_chars(v: Option<String>) -> Option<Seq<char>> {
    match v {
        Some(s) => Some(s@),
        None => None,
    }
}

/// The characters of each string of a list.
pub open spec fn list_chars(v: Seq<String>) -> Seq<Seq<char>> {
    v.map_values(|s: String| s@)
}

/// The characters of each string of an optional list.
pub open spec fn opt_list_chars(v: Option<Vec<String>>) -> Option<Seq<Seq<char>>> {
    match v {
        Some(list) => Some(list_chars(list@)),
        None => None,
    }
}

/// `AndroidUsesPermission`, with its name as characters.
pub struct PermissionView {
    pub name: Seq<char>,
    pub max_sdk_version: Option<u32>,
    pub uses_permission_flags: Option<String>,
    pub target_api: Option<String>,
}

impl View for AndroidUsesPermission {
    type V = PermissionView;

    open spec fn view(&self) -> PermissionView {
        PermissionView {
            name: self.name@,
            max_sdk_version: self.max_sdk_version,
            uses_permission_flags: self.uses_permission_flags,
            target_api: self.target_api,
        }
    }
}

/// The permissions of a list, each with its name as characters.
pub open spec fn permission_views(perms: Seq<AndroidUsesPermission>) -> Seq<PermissionView> {
    perms.map_values(|p: AndroidUsesPermission| p@)
}

/// `AndroidManifestConfig`, with its strings as characters.
pub struct ManifestView {
    pub application_label: Option<Seq<char>>,
    pub uses_cleartext_traffic: Option<bool>,
    pub enable_on_back_invoked_callback: Option<bool>,
    pub permissions: Option<Seq<PermissionView>>,
}

impl View for AndroidManifestConfig {
    type V = ManifestView;

    open spec fn view(&self) -> ManifestView {
        ManifestView {
            application_label: opt_chars(self.application_label),
            uses_cleartext_traffic: self.uses_cleartext_traffic,
            enable_on_back_invoked_callback: self.enable_on_back_invoked_callback,
            permissions: match self.permissions {
                Some(list) => Some(permission_views(list@)),
                None => None,
            },
        }
    }
}

/// The manifest of an optional source set.
pub open spec fn opt_manifest(v: Option<AndroidManifestConfig>) -> Option<ManifestView> {
    match v {
        Some(m) => Some(m@),
        None => None,
    }
}

/// `AndroidConfig`, with the strings that may name environment variables as
/// characters.
pub struct AndroidView {
    pub distribution_url: Option<Seq<char>>,
    pub namespace: Seq<char>,
    pub application_id: Seq<char>,
    pub output_file_name: Option<String>,
    pub abi_filters: Option<Vec<String>>,
    pub kotlin_incremental: Option<bool>,
    pub main: ManifestView,
    pub debug: Option<ManifestView>,
    pub profile: Option<ManifestView>,
    pub allprojects: Seq<Seq<char>>,
    pub plugin_management: Seq<Seq<char>>,
}

impl View for AndroidConfig {
    type V = AndroidView;

    open spec fn view(&self) -> AndroidView {
        AndroidView {
            distribution_url: opt_chars(self.gradle_wrapper.distribution_url),
            namespace: self.app.build.namespace@,
            application_id: self.app.build.application_id@,
            output_file_name: self.app.build.output_file_name,
            abi_filters: self.app.build.abi_filters,
            kotlin_incremental: self.app.build.kotlin_incremental,
            main: self.app.manifest.main@,
            debug: opt_manifest(self.app.manifest.debug),
            profile: opt_manifest(self.app.manifest.profile),
            allprojects: list_chars(self.build.allprojects.repositories@),
            plugin_management: list_chars(self.settings.plugin_management.repositories@),
        }
    }
}

/// `FlutterCreateConfig`, with its strings as characters.
pub struct CreateView {
    pub platforms: Option<Seq<Seq<char>>>,
    pub android_language: Option<Seq<char>>,
}

impl View for FlutterCreateConfig {
    type V = CreateView;

    open spec fn view(&self) -> CreateView {
        CreateView {
            platforms: opt_list_chars(self.platforms),
            android_language: opt_chars(self.android_language),
        }
    }
}

/// `Config`, with the strings that may name environment variables as
/// characters.
pub struct ConfigView {
    pub project_name: Seq<char>,
    pub org: Option<Seq<char>>,
    pub description: Option<Seq<char>>,
    pub version: Option<String>,
    pub output_file_name_pattern: Option<String>,
    pub pubspec: Option<PubspecConfig>,
    pub tools: ToolsConfig,
    pub create: CreateView,
    pub android: AndroidView,
    pub ios: Option<IosConfig>,
    pub windows: Option<WindowsConfig>,
}

impl View for Config {
    type V = ConfigView;

    open spec fn view(&self) -> ConfigView {
        ConfigView {
            project_name: self.project_name@,
            org: opt_chars(self.org),
            description: opt_chars(self.description),
            version: self.version,
            output_file_name_pattern: self.output_file_name_pattern,
            pubspec: self.pubspec,
            tools: self.tools,
            create: self.create@,
            android: self.android@,
            ios: self.ios,
            windows: self.windows,
        }
    }
}

} // verus!
