use droidianos::installer::{
    install_command, install_step, package_listed, session_running_from_status, InstallAction,
    InstallEvent,
};

#[test]
fn session_running_needs_exact_words() {
    assert!(session_running_from_status("Session:\tRUNNING\nContainer:\tRUNNING\n"));
    assert!(!session_running_from_status("Session:\tSTOPPED\n"));
    assert!(!session_running_from_status("Session: RUNNING now\n"));
    assert!(!session_running_from_status(""));
}

#[test]
fn package_listed_finds_package_name_lines() {
    let output = "Name: Example\npackageName: org.example\n  packageName:org.other  \n";
    assert!(package_listed(output, "org.example"));
    assert!(package_listed(output, "org.other"));
    assert!(!package_listed(output, "org.exam"));
}

#[test]
fn install_command_for_one_or_several_files() {
    assert_eq!(
        install_command(&vec!["/s/base.apk".to_string()], "apk-1"),
        vec!["waydroid", "app", "install", "/s/base.apk"]
    );
    assert_eq!(
        install_command(&vec!["/s/base.apk".to_string(), "/s/split.apk".to_string()], "apk-1"),
        vec!["pkexec", "/usr/lib/droidianos/install-split-apks", "apk-1", "/s/base.apk", "/s/split.apk"]
    );
}

#[test]
fn install_steps_follow_the_installation() {
    let s = install_step(InstallEvent::Started);
    let p = s.progress.unwrap();
    assert_eq!((p.state, p.percent, p.message), ("running", 10, "Inspecting APK"));
    assert_eq!(s.action, InstallAction::PreparePackage);
    let s = install_step(InstallEvent::Prepared { has_package_name: true });
    assert_eq!(s.progress.unwrap().message, "Starting Android");
    assert_eq!(s.action, InstallAction::StartSession);
    let s = install_step(InstallEvent::SessionReady);
    assert_eq!(s.progress.unwrap().percent, 50);
    assert_eq!(s.action, InstallAction::RunInstaller);
    let s = install_step(InstallEvent::InstallerFinished { success: true });
    assert!(s.progress.is_none());
    assert_eq!(s.action, InstallAction::VerifyPackage);
    let s = install_step(InstallEvent::Verified);
    let p = s.progress.unwrap();
    assert_eq!((p.state, p.percent, p.message), ("complete", 100, "Installation complete"));
    assert_eq!(s.action, InstallAction::Complete);
}

#[test]
fn install_failures_are_recorded() {
    let cases = [
        (InstallEvent::PrepareFailed, "Invalid application package"),
        (InstallEvent::SessionFailed, "Android did not start"),
        (InstallEvent::InstallerFailed, "Installation failed"),
        (InstallEvent::InstallerFinished { success: false }, "Installation failed"),
        (InstallEvent::VerifyFailed, "Installation could not be verified"),
    ];
    for (event, message) in cases {
        let s = install_step(event);
        let p = s.progress.unwrap();
        assert_eq!((p.state, p.percent, p.message), ("failed", 100, message));
        assert_eq!(s.action, InstallAction::Fail);
    }
    let s = install_step(InstallEvent::Prepared { has_package_name: false });
    assert!(s.progress.is_none());
    assert_eq!(s.action, InstallAction::Fail);
}
