use droidianos::apk::{
    classify_permission, metadata_from_elements, metadata_summary, push_optional, ApkMetadata,
    Permission,
};
use droidianos::manifest::{Attribute, Element};

fn element(name: &str, attrs: &[(&str, Option<&str>)]) -> Element {
    Element {
        name: name.to_string(),
        attributes: attrs
            .iter()
            .map(|(n, v)| Attribute { name: n.to_string(), value: v.map(|s| s.to_string()) })
            .collect(),
    }
}

fn permission(id: &str, class: &str) -> Permission {
    Permission { id: id.to_string(), class_name: class.to_string() }
}

#[test]
fn classify_permission_by_class() {
    assert_eq!(classify_permission("android.permission.CAMERA"), "sensitive");
    assert_eq!(classify_permission("android.permission.POST_NOTIFICATIONS"), "sensitive");
    assert_eq!(classify_permission("android.permission.READ_MEDIA_AUDIO"), "sensitive");
    assert_eq!(classify_permission("android.permission.RECEIVE_BOOT_COMPLETED"), "background");
    assert_eq!(classify_permission("android.permission.FOREGROUND_SERVICE"), "background");
    assert_eq!(classify_permission("android.permission.INTERNET"), "normal");
    assert_eq!(classify_permission("android.permission.SOMETHING_NEW"), "normal");
    assert_eq!(classify_permission("com.example.permission.C2D"), "unknown");
    assert_eq!(classify_permission(""), "unknown");
}

#[test]
fn metadata_from_elements_collects_declarations() {
    let elements = vec![
        element("manifest", &[("package", Some("org.example")), ("versionName", Some("2.0")), ("versionCode", Some("7"))]),
        element("application", &[("label", Some("First"))]),
        element("application", &[("label", Some("Second"))]),
        element("uses-permission", &[("name", Some("android.permission.INTERNET"))]),
        element("uses-permission-sdk-23", &[("name", Some("android.permission.CAMERA"))]),
        element("uses-permission", &[("name", Some("android.permission.INTERNET"))]),
        element("uses-permission", &[("other", Some("x"))]),
        element("activity", &[("name", Some("Main"))]),
    ];
    let m = metadata_from_elements(elements, 99);
    assert_eq!(m.package_name.as_deref(), Some("org.example"));
    assert_eq!(m.version_name.as_deref(), Some("2.0"));
    assert_eq!(m.version_code.as_deref(), Some("7"));
    assert_eq!(m.app_label.as_deref(), Some("First"));
    assert_eq!(m.apk_size_bytes, 99);
    let ids: Vec<&str> = m.permissions.iter().map(|p| p.id.as_str()).collect();
    assert_eq!(ids, vec!["android.permission.CAMERA", "android.permission.INTERNET"]);
    assert_eq!(m.permissions[0].class_name, "sensitive");
    assert_eq!(m.permissions[1].class_name, "normal");
}

#[test]
fn metadata_without_manifest_element_has_no_names() {
    let m = metadata_from_elements(vec![element("application", &[])], 0);
    assert_eq!(m.package_name, None);
    assert_eq!(m.app_label, None);
    assert!(m.permissions.is_empty());
}

#[test]
fn to_json_writes_all_fields() {
    let m = ApkMetadata {
        package_name: Some("org.example".to_string()),
        version_name: None,
        version_code: Some("3".to_string()),
        app_label: Some("Say \"hi\"".to_string()),
        permissions: vec![
            permission("android.permission.CAMERA", "sensitive"),
            permission("android.permission.INTERNET", "normal"),
        ],
        apk_size_bytes: 1234567,
    };
    assert_eq!(
        m.to_json(),
        "{\"package\":\"org.example\",\"version_name\":null,\"version_code\":\"3\",\"app_label\":\"Say \\\"hi\\\"\",\"apk_size_bytes\":1234567,\"permissions\":[{\"id\":\"android.permission.CAMERA\",\"class\":\"sensitive\"},{\"id\":\"android.permission.INTERNET\",\"class\":\"normal\"}]}"
    );
}

#[test]
fn to_json_of_empty_metadata() {
    let m = ApkMetadata {
        package_name: None,
        version_name: None,
        version_code: None,
        app_label: None,
        permissions: vec![],
        apk_size_bytes: 0,
    };
    assert_eq!(
        m.to_json(),
        "{\"package\":null,\"version_name\":null,\"version_code\":null,\"app_label\":null,\"apk_size_bytes\":0,\"permissions\":[]}"
    );
}

#[test]
fn push_optional_writes_only_present_values() {
    let mut s = String::from(">");
    push_optional(&mut s, "Name", Some("App"));
    push_optional(&mut s, "Version", None);
    assert_eq!(s, ">Name: App\n");
}

#[test]
fn metadata_summary_lists_details() {
    let m = ApkMetadata {
        package_name: Some("org.example".to_string()),
        version_name: Some("1.0".to_string()),
        version_code: None,
        app_label: Some("Example".to_string()),
        permissions: vec![permission("android.permission.CAMERA", "sensitive")],
        apk_size_bytes: 1048576,
    };
    assert_eq!(
        metadata_summary("/tmp/a.apk", &m, "1.0 MiB"),
        "Install this application?\n\nFile: /tmp/a.apk\nName: Example\nPackage: org.example\nVersion: 1.0\nSize: 1.0 MiB\n\nPermissions:\n- android.permission.CAMERA (sensitive)\n"
    );
}

#[test]
fn metadata_summary_without_permissions() {
    let m = ApkMetadata {
        package_name: None,
        version_name: None,
        version_code: None,
        app_label: None,
        permissions: vec![],
        apk_size_bytes: 0,
    };
    assert_eq!(
        metadata_summary("x.apk", &m, "0.0 MiB"),
        "Install this application?\n\nFile: x.apk\nSize: 0.0 MiB\n\nPermissions: none declared\n"
    );
}

#[test]
fn metadata_summary_shows_at_most_twenty_permissions() {
    let permissions: Vec<Permission> = (0..25).map(|i| permission(&format!("p{:02}", i), "unknown")).collect();
    let m = ApkMetadata {
        package_name: None,
        version_name: None,
        version_code: None,
        app_label: None,
        permissions,
        apk_size_bytes: 0,
    };
    let summary = metadata_summary("f", &m, "0.0 MiB");
    assert!(summary.contains("- p19 (unknown)\n- ...\n"));
    assert!(!summary.contains("p20"));
    assert_eq!(summary.matches("(unknown)").count(), 20);
}
