use droidianos::integration::{
    app_for, app_initials, apps_from_package_list, desktop_entry_contents, desktop_id, empty_registry,
    escape_desktop_value, escape_xml, fallback_icon_svg, fallback_name, is_stale_file, registry_json,
    stale_files, App,
};
use droidianos::settings::packages_from_registry;
use droidianos::software::android_apps_from_registry;

#[test]
fn fallback_name_takes_the_last_component() {
    assert_eq!(fallback_name("org.example.my_app"), "my app");
    assert_eq!(fallback_name("single"), "single");
    assert_eq!(fallback_name("org.example."), "org.example.");
    assert_eq!(fallback_name(""), "");
}

#[test]
fn desktop_id_replaces_unusual_characters() {
    assert_eq!(desktop_id("org.example.App_2-x"), "droidianos-org-example-App_2-x");
    assert_eq!(desktop_id("a b/é"), "droidianos-a-b--");
}

#[test]
fn app_initials_of_the_first_two_words() {
    assert_eq!(app_initials("my cool app"), "MC");
    assert_eq!(app_initials("  solo "), "S");
    assert_eq!(app_initials(""), "A");
    assert_eq!(app_initials("élan vital"), "éV");
}

#[test]
fn escape_desktop_value_exact() {
    assert_eq!(escape_desktop_value("a\\b\nc\rd"), "a\\\\b c d");
}

#[test]
fn escape_xml_exact() {
    assert_eq!(escape_xml("<a href=\"x\">'&'</a>"), "&lt;a href=&quot;x&quot;&gt;&apos;&amp;&apos;&lt;/a&gt;");
}

#[test]
fn app_for_derives_names() {
    let app = app_for("org.example.notes");
    assert_eq!(app.package, "org.example.notes");
    assert_eq!(app.name, "notes");
    assert_eq!(app.desktop_id, "droidianos-org-example-notes");
    assert_eq!(app.icon_name, "droidianos-org-example-notes");
}

#[test]
fn desktop_entry_contents_exact() {
    let app = app_for("org.example.notes");
    assert_eq!(
        desktop_entry_contents(&app),
        "[Desktop Entry]\nType=Application\nName=notes\nExec=droidianos-launch org.example.notes\nIcon=droidianos-org-example-notes\nCategories=Network;Utility;\nStartupNotify=true\nX-DroidianOS-Package=org.example.notes\n"
    );
}

#[test]
fn fallback_icon_svg_exact() {
    assert_eq!(
        fallback_icon_svg("my <app>"),
        "<svg xmlns=\"http://www.w3.org/2000/svg\" width=\"128\" height=\"128\" viewBox=\"0 0 128 128\"><rect width=\"128\" height=\"128\" rx=\"24\" fill=\"#3b4252\"/><text x=\"64\" y=\"76\" text-anchor=\"middle\" font-family=\"sans-serif\" font-size=\"42\" font-weight=\"700\" fill=\"#ffffff\">M&lt;</text></svg>\n"
    );
}

#[test]
fn registry_json_exact() {
    let apps = vec![app_for("a.b"), app_for("c")];
    assert_eq!(
        registry_json(&apps),
        "{\"apps\":[{\"package\":\"a.b\",\"name\":\"b\",\"version\":null,\"activities\":[],\"icon\":\"droidianos-a-b\",\"source\":\"apk\",\"permissions\":[]},{\"package\":\"c\",\"name\":\"c\",\"version\":null,\"activities\":[],\"icon\":\"droidianos-c\",\"source\":\"apk\",\"permissions\":[]}]}\n"
    );
    assert_eq!(empty_registry(), "{\"apps\":[]}\n");
}

#[test]
fn apps_from_package_list_sorts_and_dedups() {
    let output = "package:org.z\n  package: org.a  \ngarbage\npackage:\npackage:org.z\r\n";
    let apps = apps_from_package_list(output);
    let packages: Vec<&str> = apps.iter().map(|a| a.package.as_str()).collect();
    assert_eq!(packages, vec!["org.a", "org.z"]);
    assert_eq!(apps[0].name, "a");
    assert!(apps_from_package_list("").is_empty());
}

#[test]
fn stale_files_are_generated_files_of_removed_apps() {
    let current = vec!["droidianos-org-a".to_string()];
    assert!(!is_stale_file("droidianos-org-a.desktop", ".desktop", &current));
    assert!(is_stale_file("droidianos-org-b.desktop", ".desktop", &current));
    assert!(!is_stale_file("firefox.desktop", ".desktop", &current));
    assert!(!is_stale_file("droidianos-org-b.svg", ".desktop", &current));
    assert!(!is_stale_file("droidianos-org-a.desktop.desktop", ".desktop", &current));
    assert!(is_stale_file("droidianos-org-b.svg", ".svg", &current));
}

#[test]
fn refresh_keeps_files_of_listed_apps() {
    let apps = vec![app_for("org.a"), app_for("org.b")];
    let names = vec![
        "droidianos-org-a.desktop".to_string(),
        "droidianos-org-c.desktop".to_string(),
        "droidianos-org-b.desktop".to_string(),
        "other.desktop".to_string(),
    ];
    assert_eq!(stale_files(&names, ".desktop", &apps), vec!["droidianos-org-c.desktop".to_string()]);
    let icons = vec!["droidianos-org-b.svg".to_string(), "droidianos-old.svg".to_string()];
    assert_eq!(stale_files(&icons, ".svg", &apps), vec!["droidianos-old.svg".to_string()]);
}

#[test]
fn registry_reads_back_in_software_center_and_settings() {
    let mut apps = vec![app_for("org.b"), app_for("org.a")];
    apps[0].name = "Say \"B\" \\ now".to_string();
    let registry = registry_json(&apps);
    let listed = android_apps_from_registry(&registry);
    assert_eq!(listed.len(), 2);
    assert_eq!(listed[0].source, "apk");
    assert_eq!(listed[0].id, "org.b");
    assert_eq!(listed[0].name, "Say \"B\" \\ now");
    assert_eq!(listed[1].id, "org.a");
    assert_eq!(listed[1].name, "a");
    assert_eq!(packages_from_registry(&registry), vec!["org.a".to_string(), "org.b".to_string()]);
    assert!(android_apps_from_registry(&empty_registry()).is_empty());
}

#[test]
fn app_struct_is_plain_data() {
    let app = App {
        package: "p".to_string(),
        name: "n".to_string(),
        desktop_id: "d".to_string(),
        icon_name: "i".to_string(),
    };
    assert_eq!(desktop_entry_contents(&app), "[Desktop Entry]\nType=Application\nName=n\nExec=droidianos-launch p\nIcon=i\nCategories=Network;Utility;\nStartupNotify=true\nX-DroidianOS-Package=p\n");
}
