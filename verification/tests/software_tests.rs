use droidianos::software::{
    apt_search_from_output, installed_apps, listing_apps, refresh_after_removal, removal_command,
    selected_app, software_action, sort_by_name, App, Listing, SoftwareAction,
};

fn app(source: &str, name: &str, id: &str) -> App {
    App { source: source.to_string(), name: name.to_string(), id: id.to_string() }
}

fn triple(a: &App) -> (String, String, String) {
    (a.source.clone(), a.name.clone(), a.id.clone())
}

#[test]
fn dpkg_listing_reads_package_names() {
    let apps = listing_apps(Listing::Dpkg, "vim\t2:9.0\n\tno-name\nbash\t5.2\n");
    let got: Vec<_> = apps.iter().map(triple).collect();
    assert_eq!(
        got,
        vec![
            ("deb".to_string(), "vim".to_string(), "vim".to_string()),
            ("deb".to_string(), "bash".to_string(), "bash".to_string()),
        ]
    );
}

#[test]
fn dpkg_listing_reads_at_most_500_lines() {
    let output: String = (0..600).map(|i| format!("pkg{}\t1\n", i)).collect();
    let apps = listing_apps(Listing::Dpkg, &output);
    assert_eq!(apps.len(), 500);
    assert_eq!(apps[499].id, "pkg499");
}

#[test]
fn flatpak_listing_uses_id_when_name_missing() {
    let apps = listing_apps(Listing::FlatpakInstalled, "org.gimp.GIMP\tGNU Image\norg.x.Y\t\norg.z.Z\n");
    let got: Vec<_> = apps.iter().map(triple).collect();
    assert_eq!(
        got,
        vec![
            ("flatpak".to_string(), "GNU Image".to_string(), "org.gimp.GIMP".to_string()),
            ("flatpak".to_string(), "org.x.Y".to_string(), "org.x.Y".to_string()),
            ("flatpak".to_string(), "org.z.Z".to_string(), "org.z.Z".to_string()),
        ]
    );
}

#[test]
fn flatpak_search_keeps_description_and_limit() {
    let apps = listing_apps(Listing::FlatpakSearch, "org.a.A\tA app\tDoes things\norg.b.B\n");
    let got: Vec<_> = apps.iter().map(triple).collect();
    assert_eq!(
        got,
        vec![
            ("Does things".to_string(), "A app".to_string(), "org.a.A".to_string()),
            ("".to_string(), "org.b.B".to_string(), "org.b.B".to_string()),
        ]
    );
    let output: String = (0..150).map(|i| format!("id{}\n", i)).collect();
    assert_eq!(listing_apps(Listing::FlatpakSearch, &output).len(), 100);
}

#[test]
fn apt_search_splits_at_first_separator() {
    let results = apt_search_from_output("vim - Vi IMproved - enhanced\n - orphan\nbare\n");
    assert_eq!(
        results,
        vec![
            ("vim".to_string(), "Vi IMproved - enhanced".to_string()),
            ("bare".to_string(), "".to_string()),
        ]
    );
    let output: String = (0..250).map(|i| format!("p{} - d\n", i)).collect();
    assert_eq!(apt_search_from_output(&output).len(), 200);
}

#[test]
fn selected_app_matches_source_and_id() {
    let apps = vec![app("deb", "Vim", "vim"), app("flatpak", "Vim", "vim")];
    let a = selected_app(&apps, "flatpak\tVim\tvim").unwrap();
    assert_eq!(triple(&a), ("flatpak".to_string(), "Vim".to_string(), "vim".to_string()));
    assert!(selected_app(&apps, "flatpak\tVim").is_none());
    assert!(selected_app(&apps, "apk\tVim\tvim").is_none());
}

#[test]
fn removal_command_by_source() {
    assert_eq!(removal_command(&app("apk", "n", "org.x")), vec!["waydroid", "app", "remove", "org.x"]);
    assert_eq!(removal_command(&app("flatpak", "n", "org.y")), vec!["flatpak", "uninstall", "-y", "org.y"]);
    assert_eq!(removal_command(&app("deb", "n", "vim")), vec!["pkexec", "apt-get", "remove", "-y", "vim"]);
    assert!(refresh_after_removal(&app("apk", "n", "org.x")));
    assert!(!refresh_after_removal(&app("deb", "n", "vim")));
}

#[test]
fn installed_apps_sorted_by_name_without_case() {
    let apt = vec![app("deb", "zeta", "zeta"), app("deb", "Beta", "beta")];
    let flatpak = vec![app("flatpak", "alpha", "org.alpha")];
    let android = vec![app("apk", "BETA", "org.beta"), app("apk", "Zeta", "org.zeta")];
    let all = installed_apps(apt, flatpak, android);
    let got: Vec<_> = all.iter().map(|a| a.id.as_str()).collect();
    assert_eq!(got, vec!["org.alpha", "beta", "org.beta", "zeta", "org.zeta"]);
}

#[test]
fn sort_by_name_is_stable() {
    let apps = vec![app("a", "Same", "1"), app("b", "same", "2"), app("c", "SAME", "3"), app("d", "a", "4")];
    let sorted = sort_by_name(&apps);
    let got: Vec<_> = sorted.iter().map(|a| a.id.as_str()).collect();
    assert_eq!(got, vec!["4", "1", "2", "3"]);
}

#[test]
fn software_action_by_choice() {
    assert_eq!(software_action(Some("Installed applications")), SoftwareAction::InstalledApps);
    assert_eq!(software_action(Some("Search system packages")), SoftwareAction::SearchPackages);
    assert_eq!(software_action(Some("Search Flatpak applications")), SoftwareAction::SearchFlatpak);
    assert_eq!(software_action(Some("Update Flatpak applications")), SoftwareAction::UpdateFlatpak);
    assert_eq!(software_action(Some("Install APK file")), SoftwareAction::InstallApk);
    assert_eq!(software_action(Some("Quit")), SoftwareAction::Quit);
    assert_eq!(software_action(None), SoftwareAction::Quit);
    assert_eq!(software_action(Some("x")), SoftwareAction::Stay);
}
