//! The rules by which an Android manifest is brought in line with the
//! configuration.
use vstd::prelude::*;
use vstd::string::*;
use crate::config::{
    permission_views, AndroidManifestConfig, AndroidUsesPermission, PermissionView,
};
use crate::lines::{trim, trimmed};
use crate::strings::{chars_of, find_chars, first_occurrence, str_equal};

verus! {

/// The attributes that belong to the `android:` namespace.
pub open spec fn android_attributes() -> Seq<Seq<char>> {
    seq![
        "name"@,
        "label"@,
        "value"@,
        "resource"@,
        "icon"@,
        "theme"@,
        "exported"@,
        "launchMode"@,
        "taskAffinity"@,
        "configChanges"@,
        "hardwareAccelerated"@,
        "windowSoftInputMode"@,
        "mimeType"@,
        "maxSdkVersion"@,
        "usesCleartextTraffic"@,
        "enableOnBackInvokedCallback"@,
    ]
}

/// The name under which an attribute is written: one of the `android:`
/// namespace that lacks its prefix gets it; `None` for every other, which
/// stays as it is.
pub open spec fn qualified_attribute(key: Seq<char>) -> Option<Seq<char>> {
    if first_occurrence(key, ":"@, 0) is None && android_attributes().contains(key) {
        Some("android:"@ + key)
    } else {
        None
    }
}

fn attribute_names() -> (names: Vec<&'static str>)
    ensures
        names@.map_values(|n: &'static str| n@) == android_attributes(),
{
    let names = vec![
        "name",
        "label",
        "value",
        "resource",
        "icon",
        "theme",
        "exported",
        "launchMode",
        "taskAffinity",
        "configChanges",
        "hardwareAccelerated",
        "windowSoftInputMode",
        "mimeType",
        "maxSdkVersion",
        "usesCleartextTraffic",
        "enableOnBackInvokedCallback",
    ];
    assert(names@.map_values(|n: &'static str| n@) =~= android_attributes());
    names
}

/// The name under which the attribute `key` is to be written, where that
/// is another than `key`.
pub fn android_attribute_name(key: &str) -> (r: Option<String>)
    ensures
        match r {
            Some(name) => qualified_attribute(key@) == Some(name@),
            None => qualified_attribute(key@) is None,
        },
{
    let chars = chars_of(key);
    if find_chars(&chars, ":").is_some() {
        return None;
    }
    let names = attribute_names();
    let ghost all = android_attributes();
    let mut i: usize = 0;
    while i < names.len()
        invariant
            i <= names.len(),
            all == android_attributes(),
            first_occurrence(key@, ":"@, 0) is None,
            names@.map_values(|n: &'static str| n@) == all,
            forall|k: int| 0 <= k < i ==> all[k] != key@,
        decreases names.len() - i,
    {
        proof {
            assert(all[i as int] == names@[i as int]@);
        }
        if str_equal(names[i], key) {
            let mut name = "android:".to_owned();
            name.append(key);
            proof {
                assert(all[i as int] == key@);
                assert(all.contains(key@));
            }
            return Some(name);
        }
        i += 1;
    }
    None
}

/// Whether `name` is among the names.
pub open spec fn names_contain(names: Seq<String>, name: Seq<char>) -> bool {
    exists|k: int| 0 <= k < names.len() && (#[trigger] names[k])@ == name
}

/// The configured permissions that a manifest lacks: those whose name is
/// not among the names of the permissions that it holds, in the order of
/// the configuration.
pub open spec fn missing_permissions(existing: Seq<String>, configured: Seq<PermissionView>) -> Seq<
    PermissionView,
>
    decreases configured.len(),
{
    if configured.len() == 0 {
        Seq::empty()
    } else {
        let before = missing_permissions(existing, configured.drop_last());
        if names_contain(existing, configured.last().name) {
            before
        } else {
            before.push(configured.last())
        }
    }
}

fn contains_name(names: &Vec<String>, name: &str) -> (r: bool)
    ensures
        r == names_contain(names@, name@),
{
    let mut i: usize = 0;
    while i < names.len()
        invariant
            i <= names.len(),
            forall|k: int| 0 <= k < i ==> (#[trigger] names@[k])@ != name@,
        decreases names.len() - i,
    {
        if str_equal(names[i].as_str(), name) {
            return true;
        }
        i += 1;
    }
    false
}

fn copy_optional(v: &Option<String>) -> (r: Option<String>)
    ensures
        r == *v,
{
    match v {
        Some(s) => Some(s.clone()),
        None => None,
    }
}

/// The permissions to add to a manifest that holds permissions of the
/// names `existing`.
pub fn permissions_to_add(existing: &Vec<String>, configured: &Vec<AndroidUsesPermission>) -> (add:
    Vec<AndroidUsesPermission>)
    ensures
        permission_views(add@) == missing_permissions(existing@, permission_views(configured@)),
{
    let ghost all = permission_views(configured@);
    let mut add: Vec<AndroidUsesPermission> = Vec::new();
    let mut i: usize = 0;
    proof {
        assert(all.take(0) =~= Seq::<PermissionView>::empty());
        assert(permission_views(add@) =~= Seq::<PermissionView>::empty());
    }
    while i < configured.len()
        invariant
            i <= configured.len(),
            all == permission_views(configured@),
            permission_views(add@) == missing_permissions(existing@, all.take(i as int)),
        decreases configured.len() - i,
    {
        let p = &configured[i];
        proof {
            assert(all.take(i + 1).drop_last() =~= all.take(i as int));
            assert(all.take(i + 1).last() == all[i as int]);
        }
        if !contains_name(existing, p.name.as_str()) {
            let ghost before = permission_views(add@);
            let copy = AndroidUsesPermission {
                name: p.name.clone(),
                max_sdk_version: p.max_sdk_version,
                uses_permission_flags: copy_optional(&p.uses_permission_flags),
                target_api: copy_optional(&p.target_api),
            };
            add.push(copy);
            proof {
                assert(permission_views(add@) =~= before.push(all[i as int]));
            }
        }
        i += 1;
    }
    proof {
        assert(all.take(configured.len() as int) =~= all);
    }
    add
}

/// The label to write into a manifest: the configured one, unless it is
/// missing or blank.
pub open spec fn label_to_write(label: Option<Seq<char>>) -> Option<Seq<char>> {
    match label {
        Some(text) => if trimmed(text).len() > 0 {
            Some(text)
        } else {
            None
        },
        None => None,
    }
}

/// The label that the manifest of the application is to carry, if the
/// configuration gives one.
pub fn manifest_label(cfg: &AndroidManifestConfig) -> (r: Option<&str>)
    ensures
        match r {
            Some(text) => label_to_write(cfg@.application_label) == Some(text@),
            None => label_to_write(cfg@.application_label) is None,
        },
{
    match &cfg.application_label {
        Some(label) => {
            if trim(label.as_str()).len() > 0 {
                Some(label.as_str())
            } else {
                None
            }
        },
        None => None,
    }
}

} // verus!
