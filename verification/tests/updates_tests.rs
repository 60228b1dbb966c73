use droidianos::updates::{
    android_image_updates, apt_updates_from_list, collect_updates, flatpak_updates_from_list,
    update_step, updates_json, UpdateAction, UpdateEvent, UpdateItem,
};

fn view(u: &UpdateItem) -> (String, String, String, String, String) {
    (u.id.clone(), u.name.clone(), u.source.clone(), u.current_version.clone(), u.new_version.clone())
}

#[test]
fn apt_list_lines_become_updates() {
    let output = "Listing... Done\nvim/stable 2:9.0.1 amd64 [upgradable from: 2:9.0.0]\nno slash here\nlibc6/stable\n";
    let ups: Vec<_> = apt_updates_from_list(output).iter().map(view).collect();
    assert_eq!(
        ups,
        vec![
            ("apt:vim".to_string(), "vim".to_string(), "apt".to_string(), "".to_string(), "2:9.0.1".to_string()),
            ("apt:libc6".to_string(), "libc6".to_string(), "apt".to_string(), "".to_string(), "".to_string()),
        ]
    );
}

#[test]
fn flatpak_lines_become_updates() {
    let ups: Vec<_> = flatpak_updates_from_list("org.gimp.GIMP\t2.10.38\n\tx\norg.a.B\n").iter().map(view).collect();
    assert_eq!(
        ups,
        vec![
            ("flatpak:org.gimp.GIMP".to_string(), "org.gimp.GIMP".to_string(), "flatpak".to_string(), "".to_string(), "2.10.38".to_string()),
            ("flatpak:org.a.B".to_string(), "org.a.B".to_string(), "flatpak".to_string(), "".to_string(), "".to_string()),
        ]
    );
}

#[test]
fn collect_updates_apt_first() {
    let ups = collect_updates("a/b 1\n", "org.x\t2\n");
    let ids: Vec<&str> = ups.iter().map(|u| u.id.as_str()).collect();
    assert_eq!(ids, vec!["apt:a", "flatpak:org.x"]);
    assert!(android_image_updates().is_empty());
    assert!(collect_updates("", "").is_empty());
}

#[test]
fn updates_json_exact() {
    let ups = collect_updates("vim/stable 9.1\n", "");
    assert_eq!(
        updates_json(&ups),
        "{\"updates\":[{\"id\":\"apt:vim\",\"name\":\"vim\",\"source\":\"apt\",\"current_version\":\"\",\"new_version\":\"9.1\"}]}"
    );
    assert_eq!(updates_json(&vec![]), "{\"updates\":[]}");
}

#[test]
fn update_run_steps() {
    let s = update_step(UpdateEvent::CheckRequested);
    assert_eq!((s.kind, s.state, s.percent, s.message), ("check", "running", 10, "Checking updates"));
    assert_eq!(s.action, UpdateAction::CollectUpdates);
    let s = update_step(UpdateEvent::Checked);
    assert_eq!((s.state, s.percent, s.message, s.action), ("complete", 100, "Update check complete", UpdateAction::ReportChecked));
    let s = update_step(UpdateEvent::ApplyRequested);
    assert_eq!((s.kind, s.percent, s.message, s.action), ("apply", 5, "Applying updates", UpdateAction::BeginApply));
    let s = update_step(UpdateEvent::ApplyBegun);
    assert_eq!((s.percent, s.message, s.action), (20, "Updating system packages", UpdateAction::RunApt));
    let s = update_step(UpdateEvent::AptFinished { success: true });
    assert_eq!((s.percent, s.message, s.action), (60, "Updating Flatpak applications", UpdateAction::RunFlatpak));
    let s = update_step(UpdateEvent::FlatpakFailedToRun);
    assert_eq!((s.percent, s.message, s.action), (85, "Updating application support image", UpdateAction::RunImageUpgrade));
    let s = update_step(UpdateEvent::FlatpakFinished { success: true });
    assert_eq!(s.action, UpdateAction::RunImageUpgrade);
    let s = update_step(UpdateEvent::ImageUpgraded);
    assert_eq!((s.state, s.percent, s.message, s.action), ("complete", 100, "Updates applied", UpdateAction::ReportApplied));
}

#[test]
fn update_run_failures() {
    let s = update_step(UpdateEvent::AptFinished { success: false });
    assert_eq!((s.state, s.percent, s.message, s.action, s.error), ("failed", 100, "Update failed", UpdateAction::Fail, Some("APT update failed")));
    let s = update_step(UpdateEvent::FlatpakFinished { success: false });
    assert_eq!(s.error, Some("Flatpak update failed"));
    let s = update_step(UpdateEvent::AptFailedToRun);
    assert_eq!((s.state, s.action, s.error), ("failed", UpdateAction::Fail, None));
}
