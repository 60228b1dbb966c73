use droidianos::dialog::{dialog_choice, search_term};
use droidianos::json::json_array_strings;
use droidianos::settings::{
    add_shared_folder, diagnostics_report, packages_from_registry, settings_page,
    shared_folders_json, SettingsPage,
};

#[test]
fn packages_from_registry_sorted_without_repeats() {
    let registry = "{\"apps\":[{\"package\":\"org.b\"},{\"name\":\"x\"},{\"package\":\"org.a\"},{\"package\":\"org.b\"}]}";
    assert_eq!(packages_from_registry(registry), vec!["org.a".to_string(), "org.b".to_string()]);
    assert!(packages_from_registry("").is_empty());
}

#[test]
fn add_shared_folder_skips_known_folders() {
    let mut folders = vec!["/home/a".to_string()];
    add_shared_folder(&mut folders, "/home/b".to_string());
    add_shared_folder(&mut folders, "/home/a".to_string());
    assert_eq!(folders, vec!["/home/a".to_string(), "/home/b".to_string()]);
}

#[test]
fn shared_folders_json_exact() {
    let folders = vec!["/a".to_string(), "/b \"q\"".to_string()];
    assert_eq!(shared_folders_json(&folders), "{\"folders\":[\"/a\",\"/b \\\"q\\\"\"]}\n");
    assert_eq!(shared_folders_json(&vec![]), "{\"folders\":[]}\n");
}

#[test]
fn shared_folders_read_back() {
    let folders = vec!["/media/sd card".to_string(), "C:\\data".to_string(), "q\"uote".to_string()];
    assert_eq!(json_array_strings(&shared_folders_json(&folders), "folders"), folders);
    assert!(json_array_strings(&shared_folders_json(&vec![]), "folders").is_empty());
}

#[test]
fn folder_with_bracket_does_not_read_back() {
    let folders = vec!["/a]b".to_string()];
    assert!(json_array_strings(&shared_folders_json(&folders), "folders").is_empty());
}

#[test]
fn settings_page_by_choice() {
    assert_eq!(settings_page(Some("Application permissions")), SettingsPage::Permissions);
    assert_eq!(settings_page(Some("Storage and shared folders")), SettingsPage::Storage);
    assert_eq!(settings_page(Some("Diagnostics")), SettingsPage::Diagnostics);
    assert_eq!(settings_page(Some("Quit")), SettingsPage::Quit);
    assert_eq!(settings_page(None), SettingsPage::Quit);
    assert_eq!(settings_page(Some("Other")), SettingsPage::Stay);
}

#[test]
fn diagnostics_report_exact() {
    let runs = vec![
        ("waydroid status".to_string(), Ok(("Session: RUNNING\n".to_string(), "".to_string()))),
        ("missing".to_string(), Err("No such file or directory (os error 2)".to_string())),
    ];
    assert_eq!(
        diagnostics_report(&runs),
        "droidianOS diagnostics\n\n## waydroid status\nSession: RUNNING\n\n## missing\nNo such file or directory (os error 2)\n\n"
    );
    assert_eq!(diagnostics_report(&vec![]), "droidianOS diagnostics\n\n");
}

#[test]
fn dialog_choice_trims_and_ignores_blank_or_cancelled() {
    assert_eq!(dialog_choice(true, "  Quit\n").as_deref(), Some("Quit"));
    assert_eq!(dialog_choice(true, " \n\t"), None);
    assert_eq!(dialog_choice(false, "Quit"), None);
}

#[test]
fn search_term_ignores_blank_entries() {
    assert_eq!(search_term(Some(" vim ".to_string())).as_deref(), Some(" vim "));
    assert_eq!(search_term(Some("   ".to_string())), None);
    assert_eq!(search_term(None), None);
}
