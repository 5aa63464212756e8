//! Filling in a configuration: environment variables in its values, and the
//! values that default to others.
use vstd::prelude::*;
use crate::config::{
    list_chars, opt_chars, permission_views, AndroidConfig, AndroidManifestConfig,
    AndroidUsesPermission, AndroidView, Config, ConfigView, CreateView, FlutterCreateConfig,
    ManifestView, PermissionView,
};
use crate::env::{expand_env_vars, expanded, Environment, ExpandError, ExpandFault};
use crate::lines::{trim, trim_end_len, trimmed};
use crate::strings::chars_of;

verus! {

/// The variables of an environment, as names and values.
pub type Vars = Seq<(Seq<char>, Seq<char>)>;

/// An optional value, expanded where it is there.
pub open spec fn expand_opt(v: Option<Seq<char>>, vars: Vars) -> Result<
    Option<Seq<char>>,
    ExpandFault,
> {
    match v {
        None => Ok(None),
        Some(s) => match expanded(s, vars) {
            Ok(t) => Ok(Some(t)),
            Err(e) => Err(e),
        },
    }
}

/// Each value of a list expanded, from the first on; the first that fails
/// is the error.
pub open spec fn expand_all(values: Seq<Seq<char>>, vars: Vars) -> Result<
    Seq<Seq<char>>,
    ExpandFault,
>
    decreases values.len(),
{
    if values.len() == 0 {
        Ok(Seq::empty())
    } else {
        match expand_all(values.drop_last(), vars) {
            Err(e) => Err(e),
            Ok(done) => match expanded(values.last(), vars) {
                Ok(t) => Ok(done.push(t)),
                Err(e) => Err(e),
            },
        }
    }
}

/// The name of each permission expanded, from the first on.
pub open spec fn expand_permissions(perms: Seq<PermissionView>, vars: Vars) -> Result<
    Seq<PermissionView>,
    ExpandFault,
>
    decreases perms.len(),
{
    if perms.len() == 0 {
        Ok(Seq::empty())
    } else {
        match expand_permissions(perms.drop_last(), vars) {
            Err(e) => Err(e),
            Ok(done) => match expanded(perms.last().name, vars) {
                Ok(t) => Ok(done.push(PermissionView { name: t, ..perms.last() })),
                Err(e) => Err(e),
            },
        }
    }
}

/// A manifest with its label and then its permission names expanded.
pub open spec fn expand_manifest(m: ManifestView, vars: Vars) -> Result<ManifestView, ExpandFault> {
    match expand_opt(m.application_label, vars) {
        Err(e) => Err(e),
        Ok(label) => match m.permissions {
            None => Ok(ManifestView { application_label: label, ..m }),
            Some(perms) => match expand_permissions(perms, vars) {
                Err(e) => Err(e),
                Ok(list) => Ok(
                    ManifestView { application_label: label, permissions: Some(list), ..m },
                ),
            },
        },
    }
}

/// The manifest of an optional source set, expanded where it is there.
pub open spec fn expand_opt_manifest(m: Option<ManifestView>, vars: Vars) -> Result<
    Option<ManifestView>,
    ExpandFault,
> {
    match m {
        None => Ok(None),
        Some(v) => match expand_manifest(v, vars) {
            Ok(t) => Ok(Some(t)),
            Err(e) => Err(e),
        },
    }
}

/// What `flutter create` is asked for, with the language and then the
/// platforms expanded.
pub open spec fn expand_create(c: CreateView, vars: Vars) -> Result<CreateView, ExpandFault> {
    match expand_opt(c.android_language, vars) {
        Err(e) => Err(e),
        Ok(language) => match c.platforms {
            None => Ok(CreateView { android_language: language, ..c }),
            Some(list) => match expand_all(list, vars) {
                Err(e) => Err(e),
                Ok(platforms) => Ok(
                    CreateView { android_language: language, platforms: Some(platforms) },
                ),
            },
        },
    }
}

/// `step` applied to the outcome so far, if that is no error.
pub open spec fn then<T>(
    so_far: Result<T, ExpandFault>,
    step: spec_fn(T) -> Result<T, ExpandFault>,
) -> Result<T, ExpandFault> {
    match so_far {
        Ok(v) => step(v),
        Err(e) => Err(e),
    }
}

/// The namespace and then the application id expanded.
pub open spec fn step_build_ids(a: AndroidView, vars: Vars) -> Result<AndroidView, ExpandFault> {
    match expanded(a.namespace, vars) {
        Err(e) => Err(e),
        Ok(namespace) => match expanded(a.application_id, vars) {
            Err(e) => Err(e),
            Ok(application_id) => Ok(AndroidView { namespace, application_id, ..a }),
        },
    }
}

/// The label of the main manifest expanded.
pub open spec fn step_main_label(a: AndroidView, vars: Vars) -> Result<AndroidView, ExpandFault> {
    match expand_opt(a.main.application_label, vars) {
        Err(e) => Err(e),
        Ok(label) => Ok(AndroidView { main: ManifestView { application_label: label, ..a.main }, ..a }),
    }
}

/// The main manifest expanded.
pub open spec fn step_main(a: AndroidView, vars: Vars) -> Result<AndroidView, ExpandFault> {
    match expand_manifest(a.main, vars) {
        Err(e) => Err(e),
        Ok(main) => Ok(AndroidView { main, ..a }),
    }
}

/// The debug manifest expanded, where there is one.
pub open spec fn step_debug(a: AndroidView, vars: Vars) -> Result<AndroidView, ExpandFault> {
    match expand_opt_manifest(a.debug, vars) {
        Err(e) => Err(e),
        Ok(debug) => Ok(AndroidView { debug, ..a }),
    }
}

/// The profile manifest expanded, where there is one.
pub open spec fn step_profile(a: AndroidView, vars: Vars) -> Result<AndroidView, ExpandFault> {
    match expand_opt_manifest(a.profile, vars) {
        Err(e) => Err(e),
        Ok(profile) => Ok(AndroidView { profile, ..a }),
    }
}

/// The Gradle distribution URL expanded, where there is one.
pub open spec fn step_wrapper(a: AndroidView, vars: Vars) -> Result<AndroidView, ExpandFault> {
    match expand_opt(a.distribution_url, vars) {
        Err(e) => Err(e),
        Ok(distribution_url) => Ok(AndroidView { distribution_url, ..a }),
    }
}

/// The repositories of all projects expanded.
pub open spec fn step_allprojects(a: AndroidView, vars: Vars) -> Result<AndroidView, ExpandFault> {
    match expand_all(a.allprojects, vars) {
        Err(e) => Err(e),
        Ok(allprojects) => Ok(AndroidView { allprojects, ..a }),
    }
}

/// The repositories for plugins expanded.
pub open spec fn step_plugins(a: AndroidView, vars: Vars) -> Result<AndroidView, ExpandFault> {
    match expand_all(a.plugin_management, vars) {
        Err(e) => Err(e),
        Ok(plugin_management) => Ok(AndroidView { plugin_management, ..a }),
    }
}

/// The Android part of a configuration, expanded. The steps run in this
/// order, each on what the one before left: namespace and application id;
/// the label of the main manifest; the debug and the profile manifest; the
/// Gradle distribution URL; the main manifest, and the debug and the profile
/// manifest once more; the two repository lists. So the label of the main
/// manifest and the strings of the debug and profile manifests are expanded
/// twice.
pub open spec fn expand_android(a: AndroidView, vars: Vars) -> Result<AndroidView, ExpandFault> {
    let r1 = step_build_ids(a, vars);
    let r2 = then(r1, |v: AndroidView| step_main_label(v, vars));
    let r3 = then(r2, |v: AndroidView| step_debug(v, vars));
    let r4 = then(r3, |v: AndroidView| step_profile(v, vars));
    let r5 = then(r4, |v: AndroidView| step_wrapper(v, vars));
    let r6 = then(r5, |v: AndroidView| step_main(v, vars));
    let r7 = then(r6, |v: AndroidView| step_debug(v, vars));
    let r8 = then(r7, |v: AndroidView| step_profile(v, vars));
    let r9 = then(r8, |v: AndroidView| step_allprojects(v, vars));
    then(r9, |v: AndroidView| step_plugins(v, vars))
}

fn expand_optional(value: &mut Option<String>, env: &Environment) -> (res: Result<
    (),
    ExpandError,
>)
    ensures
        match res {
            Ok(()) => expand_opt(opt_chars(*old(value)), env@) == Ok::<
                Option<Seq<char>>,
                ExpandFault,
            >(opt_chars(*final(value))),
            Err(e) => expand_opt(opt_chars(*old(value)), env@) == Err::<
                Option<Seq<char>>,
                ExpandFault,
            >(e@),
        },
{
    if let Some(text) = value.as_ref() {
        match expand_env_vars(text.as_str(), env) {
            Ok(out) => {
                *value = Some(out);
            },
            Err(e) => {
                return Err(e);
            },
        }
    }
    Ok(())
}

fn expand_list(values: &mut Vec<String>, env: &Environment) -> (res: Result<(), ExpandError>)
    ensures
        match res {
            Ok(()) => expand_all(list_chars(old(values)@), env@) == Ok::<
                Seq<Seq<char>>,
                ExpandFault,
            >(list_chars(final(values)@)),
            Err(e) => expand_all(list_chars(old(values)@), env@) == Err::<
                Seq<Seq<char>>,
                ExpandFault,
            >(e@),
        },
{
    let ghost before = list_chars(values@);
    let mut i: usize = 0;
    proof {
        assert(before.take(0) =~= Seq::<Seq<char>>::empty());
        assert(list_chars(values@).take(0) =~= Seq::<Seq<char>>::empty());
    }
    while i < values.len()
        invariant
            i <= values.len(),
            before == list_chars(old(values)@),
            values.len() == before.len(),
            forall|k: int| i <= k < values.len() ==> (#[trigger] values@[k])@ == before[k],
            expand_all(before.take(i as int), env@) == Ok::<Seq<Seq<char>>, ExpandFault>(
                list_chars(values@).take(i as int),
            ),
        decreases values.len() - i,
    {
        proof {
            assert(before.take(i + 1).drop_last() =~= before.take(i as int));
            assert(before.take(i + 1).last() == before[i as int]);
        }
        match expand_env_vars(values[i].as_str(), env) {
            Ok(out) => {
                let ghost prev = list_chars(values@);
                values[i] = out;
                proof {
                    assert(list_chars(values@).take(i + 1) =~= prev.take(i as int).push(out@));
                }
            },
            Err(e) => {
                proof {
                    assert(expand_all(before.take(i + 1), env@) == Err::<
                        Seq<Seq<char>>,
                        ExpandFault,
                    >(e@));
                    lemma_expand_all_prefix_error(before, i + 1, env@);
                }
                return Err(e);
            },
        }
        i += 1;
    }
    proof {
        assert(before.take(before.len() as int) =~= before);
        assert(list_chars(values@).take(values.len() as int) =~= list_chars(values@));
    }
    Ok(())
}

/// Where the expansion of a prefix of a list fails, that of the list fails
/// in the same way.
pub proof fn lemma_expand_all_prefix_error(values: Seq<Seq<char>>, n: int, vars: Vars)
    requires
        0 <= n <= values.len(),
        expand_all(values.take(n), vars) is Err,
    ensures
        expand_all(values, vars) == expand_all(values.take(n), vars),
    decreases values.len() - n,
{
    if n < values.len() {
        assert(values.take(n + 1).drop_last() =~= values.take(n));
        lemma_expand_all_prefix_error(values, n + 1, vars);
    } else {
        assert(values.take(n) =~= values);
    }
}

fn expand_string(value: &mut String, env: &Environment) -> (res: Result<(), ExpandError>)
    ensures
        match res {
            Ok(()) => expanded(old(value)@, env@) == Ok::<Seq<char>, ExpandFault>(final(value)@),
            Err(e) => expanded(old(value)@, env@) == Err::<Seq<char>, ExpandFault>(e@),
        },
{
    match expand_env_vars(value.as_str(), env) {
        Ok(out) => {
            *value = out;
            Ok(())
        },
        Err(e) => Err(e),
    }
}

/// Where the expansion of the first permissions fails, that of all of them
/// fails in the same way.
pub proof fn lemma_expand_permissions_prefix_error(perms: Seq<PermissionView>, n: int, vars: Vars)
    requires
        0 <= n <= perms.len(),
        expand_permissions(perms.take(n), vars) is Err,
    ensures
        expand_permissions(perms, vars) == expand_permissions(perms.take(n), vars),
    decreases perms.len() - n,
{
    if n < perms.len() {
        assert(perms.take(n + 1).drop_last() =~= perms.take(n));
        lemma_expand_permissions_prefix_error(perms, n + 1, vars);
    } else {
        assert(perms.take(n) =~= perms);
    }
}

fn expand_permission_names(perms: &mut Vec<AndroidUsesPermission>, env: &Environment) -> (res:
    Result<(), ExpandError>)
    ensures
        match res {
            Ok(()) => expand_permissions(permission_views(old(perms)@), env@) == Ok::<
                Seq<PermissionView>,
                ExpandFault,
            >(permission_views(final(perms)@)),
            Err(e) => expand_permissions(permission_views(old(perms)@), env@) == Err::<
                Seq<PermissionView>,
                ExpandFault,
            >(e@),
        },
{
    let ghost before = permission_views(perms@);
    let mut i: usize = 0;
    proof {
        assert(before.take(0) =~= Seq::<PermissionView>::empty());
        assert(permission_views(perms@).take(0) =~= Seq::<PermissionView>::empty());
    }
    while i < perms.len()
        invariant
            i <= perms.len(),
            before == permission_views(old(perms)@),
            perms.len() == before.len(),
            forall|k: int| i <= k < perms.len() ==> (#[trigger] perms@[k])@ == before[k],
            expand_permissions(before.take(i as int), env@) == Ok::<
                Seq<PermissionView>,
                ExpandFault,
            >(permission_views(perms@).take(i as int)),
        decreases perms.len() - i,
    {
        proof {
            assert(before.take(i + 1).drop_last() =~= before.take(i as int));
            assert(before.take(i + 1).last() == before[i as int]);
        }
        match expand_env_vars(perms[i].name.as_str(), env) {
            Ok(out) => {
                let ghost prev = permission_views(perms@);
                perms[i].name = out;
                proof {
                    assert(permission_views(perms@).take(i + 1) =~= prev.take(i as int).push(
                        PermissionView { name: out@, ..before[i as int] },
                    ));
                }
            },
            Err(e) => {
                proof {
                    assert(expand_permissions(before.take(i + 1), env@) == Err::<
                        Seq<PermissionView>,
                        ExpandFault,
                    >(e@));
                    lemma_expand_permissions_prefix_error(before, i + 1, env@);
                }
                return Err(e);
            },
        }
        i += 1;
    }
    proof {
        assert(before.take(before.len() as int) =~= before);
        assert(permission_views(perms@).take(perms.len() as int) =~= permission_views(perms@));
    }
    Ok(())
}

/// Expands the label and the permission names of a manifest, where there is
/// one. On an error the manifest is left expanded up to the value that
/// failed.
pub fn expand_manifest_override(
    override_cfg: Option<&mut AndroidManifestConfig>,
    env: &Environment,
) -> (res: Result<(), ExpandError>)
    ensures
        match override_cfg {
            Some(m) => match res {
                Ok(()) => expand_manifest((*m)@, env@) == Ok::<ManifestView, ExpandFault>(
                    (*final(m))@,
                ),
                Err(e) => expand_manifest((*m)@, env@) == Err::<ManifestView, ExpandFault>(e@),
            },
            None => res is Ok,
        },
{
    let Some(cfg) = override_cfg else {
        return Ok(());
    };
    expand_optional(&mut cfg.application_label, env)?;
    if let Some(perms) = cfg.permissions.as_mut() {
        expand_permission_names(perms, env)?;
    }
    Ok(())
}

/// Expands the language and then the platforms that `flutter create` is
/// asked for.
pub fn expand_flutter_create_config(cfg: &mut FlutterCreateConfig, env: &Environment) -> (res:
    Result<(), ExpandError>)
    ensures
        match res {
            Ok(()) => expand_create(old(cfg)@, env@) == Ok::<CreateView, ExpandFault>(final(cfg)@),
            Err(e) => expand_create(old(cfg)@, env@) == Err::<CreateView, ExpandFault>(e@),
        },
{
    expand_optional(&mut cfg.android_language, env)?;
    if let Some(platforms) = cfg.platforms.as_mut() {
        expand_list(platforms, env)?;
    }
    Ok(())
}

/// Expands the namespace and then the application id of the app.
pub fn android_app_build_gradle_expand(cfg: &mut AndroidConfig, env: &Environment) -> (res: Result<
    (),
    ExpandError,
>)
    ensures
        match res {
            Ok(()) => step_build_ids(old(cfg)@, env@) == Ok::<AndroidView, ExpandFault>(
                final(cfg)@,
            ),
            Err(e) => step_build_ids(old(cfg)@, env@) == Err::<AndroidView, ExpandFault>(e@),
        },
{
    expand_string(&mut cfg.app.build.namespace, env)?;
    expand_string(&mut cfg.app.build.application_id, env)?;
    Ok(())
}

/// Expands the Android part of a configuration, value by value in the order
/// that `expand_android` gives. On an error the configuration is left
/// expanded up to the value that failed.
pub fn expand_android_config(cfg: &mut AndroidConfig, env: &Environment) -> (res: Result<
    (),
    ExpandError,
>)
    ensures
        match res {
            Ok(()) => expand_android(old(cfg)@, env@) == Ok::<AndroidView, ExpandFault>(
                final(cfg)@,
            ),
            Err(e) => expand_android(old(cfg)@, env@) == Err::<AndroidView, ExpandFault>(e@),
        },
{
    android_app_build_gradle_expand(cfg, env)?;
    expand_optional(&mut cfg.app.manifest.main.application_label, env)?;
    expand_manifest_override(cfg.app.manifest.debug.as_mut(), env)?;
    expand_manifest_override(cfg.app.manifest.profile.as_mut(), env)?;
    expand_optional(&mut cfg.gradle_wrapper.distribution_url, env)?;
    expand_manifest_override(Some(&mut cfg.app.manifest.main), env)?;
    expand_manifest_override(cfg.app.manifest.debug.as_mut(), env)?;
    expand_manifest_override(cfg.app.manifest.profile.as_mut(), env)?;
    expand_list(&mut cfg.build.allprojects.repositories, env)?;
    expand_list(&mut cfg.settings.plugin_management.repositories, env)?;
    Ok(())
}

/// `s` without the dots at its end.
pub open spec fn without_trailing_dots(s: Seq<char>) -> Seq<char> {
    s.take(trim_end_len(s, |c: char| c == '.'))
}

/// The application id to use: the configured one, unless it is blank; then
/// the organisation, trimmed and without trailing dots, a dot, and the
/// project name. `None` where both are blank.
pub open spec fn application_id_or_default(c: ConfigView) -> Option<Seq<char>> {
    if trimmed(c.android.application_id).len() > 0 {
        Some(c.android.application_id)
    } else {
        match c.org {
            Some(org) => if trimmed(org).len() > 0 {
                Some(without_trailing_dots(trimmed(org)) + seq!['.'] + c.project_name)
            } else {
                None
            },
            None => None,
        }
    }
}

/// The configuration with the values that default to others filled in: the
/// application id, the label of the main manifest (the project name) and
/// the namespace (the application id).
pub open spec fn with_defaults(c: ConfigView) -> Result<ConfigView, ExpandFault> {
    match application_id_or_default(c) {
        None => Err(ExpandFault::ApplicationIdRequired),
        Some(application_id) => Ok(
            ConfigView {
                android: AndroidView {
                    application_id,
                    namespace: if trimmed(c.android.namespace).len() > 0 {
                        c.android.namespace
                    } else {
                        application_id
                    },
                    main: ManifestView {
                        application_label: match c.android.main.application_label {
                            Some(label) => Some(label),
                            None => Some(c.project_name),
                        },
                        ..c.android.main
                    },
                    ..c.android
                },
                ..c
            },
        ),
    }
}

/// The project name expanded.
pub open spec fn step_project_name(c: ConfigView, vars: Vars) -> Result<ConfigView, ExpandFault> {
    match expanded(c.project_name, vars) {
        Err(e) => Err(e),
        Ok(project_name) => Ok(ConfigView { project_name, ..c }),
    }
}

/// The organisation expanded, where there is one.
pub open spec fn step_org(c: ConfigView, vars: Vars) -> Result<ConfigView, ExpandFault> {
    match expand_opt(c.org, vars) {
        Err(e) => Err(e),
        Ok(org) => Ok(ConfigView { org, ..c }),
    }
}

/// The description expanded, where there is one.
pub open spec fn step_description(c: ConfigView, vars: Vars) -> Result<ConfigView, ExpandFault> {
    match expand_opt(c.description, vars) {
        Err(e) => Err(e),
        Ok(description) => Ok(ConfigView { description, ..c }),
    }
}

/// What `flutter create` is asked for expanded.
pub open spec fn step_create(c: ConfigView, vars: Vars) -> Result<ConfigView, ExpandFault> {
    match expand_create(c.create, vars) {
        Err(e) => Err(e),
        Ok(create) => Ok(ConfigView { create, ..c }),
    }
}

/// The Android part expanded.
pub open spec fn step_android(c: ConfigView, vars: Vars) -> Result<ConfigView, ExpandFault> {
    match expand_android(c.android, vars) {
        Err(e) => Err(e),
        Ok(android) => Ok(ConfigView { android, ..c }),
    }
}

/// A configuration ready for use: project name, organisation, description,
/// what `flutter create` is asked for and the Android part expanded, in
/// this order, and then the defaults filled in.
pub open spec fn expand_config_view(c: ConfigView, vars: Vars) -> Result<ConfigView, ExpandFault> {
    let r1 = step_project_name(c, vars);
    let r2 = then(r1, |v: ConfigView| step_org(v, vars));
    let r3 = then(r2, |v: ConfigView| step_description(v, vars));
    let r4 = then(r3, |v: ConfigView| step_create(v, vars));
    let r5 = then(r4, |v: ConfigView| step_android(v, vars));
    then(r5, |v: ConfigView| with_defaults(v))
}

fn default_application_id(org: &Vec<char>, project_name: &str) -> (id: String)
    ensures
        id@ == without_trailing_dots(org@) + seq!['.'] + project_name@,
{
    let mut end: usize = org.len();
    proof {
        assert(org@.take(end as int) =~= org@);
    }
    while end > 0 && org[end - 1] == '.'
        invariant
            end <= org.len(),
            trim_end_len(org@.take(end as int), |c: char| c == '.') == trim_end_len(
                org@,
                |c: char| c == '.',
            ),
        decreases end,
    {
        proof {
            assert(org@.take(end as int).drop_last() =~= org@.take(end - 1));
        }
        end -= 1;
    }
    let mut id = String::new();
    let mut k: usize = 0;
    while k < end
        invariant
            k <= end <= org.len(),
            id@ == org@.take(k as int),
        decreases end - k,
    {
        id.push(org[k]);
        assert(org@.take(k + 1) =~= org@.take(k as int).push(org@[k as int]));
        k += 1;
    }
    id.push('.');
    let name = chars_of(project_name);
    let ghost head = id@;
    let mut n: usize = 0;
    while n < name.len()
        invariant
            n <= name.len(),
            name@ == project_name@,
            id@ == head + name@.take(n as int),
        decreases name.len() - n,
    {
        id.push(name[n]);
        assert(name@.take(n + 1) =~= name@.take(n as int).push(name@[n as int]));
        assert(id@ =~= head + name@.take(n + 1));
        n += 1;
    }
    proof {
        assert(name@.take(name@.len() as int) =~= name@);
        assert(id@ =~= without_trailing_dots(org@) + seq!['.'] + project_name@);
    }
    id
}

fn fill_defaults(cfg: &mut Config) -> (res: Result<(), ExpandError>)
    ensures
        match res {
            Ok(()) => with_defaults(old(cfg)@) == Ok::<ConfigView, ExpandFault>(final(cfg)@),
            Err(e) => with_defaults(old(cfg)@) == Err::<ConfigView, ExpandFault>(e@),
        },
{
    if trim(cfg.android.app.build.application_id.as_str()).len() == 0 {
        let org = match cfg.org.as_ref() {
            Some(value) => trim(value.as_str()),
            None => Vec::new(),
        };
        if org.len() == 0 {
            return Err(ExpandError::ApplicationIdRequired);
        }
        cfg.android.app.build.application_id = default_application_id(
            &org,
            cfg.project_name.as_str(),
        );
    }
    if cfg.android.app.manifest.main.application_label.is_none() {
        cfg.android.app.manifest.main.application_label = Some(cfg.project_name.clone());
    }
    if trim(cfg.android.app.build.namespace.as_str()).len() == 0 {
        cfg.android.app.build.namespace = cfg.android.app.build.application_id.clone();
    }
    Ok(())
}

/// Makes a configuration ready for use: replaces the environment variables
/// that its values name by what `env` gives for them, and fills in the
/// values that default to others.
///
/// Fails on the first value, in the order that `expand_config_view` gives,
/// that names a missing variable or leaves `${` open, and where neither an
/// application id nor an organisation is configured. On an error the
/// configuration is left expanded up to the value that failed.
pub fn expand_config(cfg: &mut Config, env: &Environment) -> (res: Result<(), ExpandError>)
    ensures
        match res {
            Ok(()) => expand_config_view(old(cfg)@, env@) == Ok::<ConfigView, ExpandFault>(
                final(cfg)@,
            ),
            Err(e) => expand_config_view(old(cfg)@, env@) == Err::<ConfigView, ExpandFault>(e@),
        },
{
    expand_string(&mut cfg.project_name, env)?;
    expand_optional(&mut cfg.org, env)?;
    expand_optional(&mut cfg.description, env)?;
    expand_flutter_create_config(&mut cfg.create, env)?;
    expand_android_config(&mut cfg.android, env)?;
    fill_defaults(cfg)?;
    Ok(())
}

} // verus!
