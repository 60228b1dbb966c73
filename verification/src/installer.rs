//! APK installation: reading Waydroid's status and package list, the command
//! that installs the prepared files, and the progress of an installation from
//! one step to the next.

use vstd::prelude::*;
use crate::text::{
    chars_eq, chars_of, lemma_chars_deep_view, lines_of, split_lines, strip_prefix,
    strip_prefix_chars, trim, trim_chars, words, words_of,
};

verus! {

/// A line of `waydroid status` that says the session runs: exactly the words
/// `Session:` and `RUNNING`.
pub open spec fn is_running_line(line: Seq<char>) -> bool {
    words(line) =~= seq!["Session:"@, "RUNNING"@]
}

/// Whether `waydroid status` output reports a running session.
pub fn session_running_from_status(output: &str) -> (r: bool)
    ensures
        r == exists|i: int| 0 <= i < split_lines(output@).len() && is_running_line(
            #[trigger] split_lines(output@)[i],
        ),
{
    let text = chars_of(output);
    let lines = lines_of(&text);
    let ghost ls = lines.deep_view();
    let session = chars_of("Session:");
    let running = chars_of("RUNNING");
    let mut i: usize = 0;
    while i < lines.len()
        invariant
            i <= lines.len(),
            ls == lines.deep_view(),
            ls == split_lines(output@),
            session@ == "Session:"@,
            running@ == "RUNNING"@,
            forall|j: int| 0 <= j < i ==> !is_running_line(#[trigger] ls[j]),
        decreases lines.len() - i,
    {
        proof {
            lemma_chars_deep_view(&lines@[i as int]);
        }
        let ws = words_of(&lines[i]);
        let mut found = false;
        if ws.len() == 2 {
            proof {
                lemma_chars_deep_view(&ws@[0]);
                lemma_chars_deep_view(&ws@[1]);
            }
            if chars_eq(&ws[0], &session) && chars_eq(&ws[1], &running) {
                found = true;
            }
        }
        proof {
            let w = words(ls[i as int]);
            if found {
                assert(w =~= seq!["Session:"@, "RUNNING"@]);
            } else if w =~= seq!["Session:"@, "RUNNING"@] {
                assert(w[0] == ws@[0]@);
                assert(w[1] == ws@[1]@);
            }
        }
        if found {
            return true;
        }
        i = i + 1;
    }
    false
}

/// A line of `waydroid app list` naming `package`.
pub open spec fn names_package(line: Seq<char>, package: Seq<char>) -> bool {
    match strip_prefix(trim(line), "packageName:"@) {
        Some(rest) => trim(rest) == package,
        None => false,
    }
}

/// Whether `waydroid app list` output lists `package`.
pub fn package_listed(output: &str, package: &str) -> (r: bool)
    ensures
        r == exists|i: int| 0 <= i < split_lines(output@).len() && names_package(
            #[trigger] split_lines(output@)[i],
            package@,
        ),
{
    let text = chars_of(output);
    let lines = lines_of(&text);
    let ghost ls = lines.deep_view();
    let wanted = chars_of(package);
    let mut i: usize = 0;
    while i < lines.len()
        invariant
            i <= lines.len(),
            ls == lines.deep_view(),
            ls == split_lines(output@),
            wanted@ == package@,
            forall|j: int| 0 <= j < i ==> !names_package(#[trigger] ls[j], package@),
        decreases lines.len() - i,
    {
        proof {
            lemma_chars_deep_view(&lines@[i as int]);
        }
        let line = trim_chars(&lines[i]);
        if let Some(rest) = strip_prefix_chars(&line, "packageName:") {
            let name = trim_chars(&rest);
            if chars_eq(&name, &wanted) {
                assert(names_package(ls[i as int], package@));
                return true;
            }
        }
        i = i + 1;
    }
    false
}

/// The command that installs prepared APK files: `waydroid app install` for one file, the
/// privileged split-APK helper (given the transaction) for several.
pub open spec fn spec_install_command(files: Seq<Seq<char>>, transaction_id: Seq<char>) -> Seq<Seq<char>> {
    if files.len() == 1 {
        seq!["waydroid"@, "app"@, "install"@, files[0]]
    } else {
        seq!["pkexec"@, "/usr/lib/droidianos/install-split-apks"@, transaction_id] + files
    }
}

/// The program and arguments that install the given files.
pub fn install_command(apk_files: &Vec<String>, transaction_id: &str) -> (command: Vec<String>)
    ensures
        command.deep_view() == spec_install_command(apk_files.deep_view(), transaction_id@),
{
    let mut command: Vec<String> = Vec::new();
    if apk_files.len() == 1 {
        command.push("waydroid".to_owned());
        command.push("app".to_owned());
        command.push("install".to_owned());
        command.push(apk_files[0].clone());
        assert(command.deep_view() =~= spec_install_command(apk_files.deep_view(), transaction_id@));
        return command;
    }
    command.push("pkexec".to_owned());
    command.push("/usr/lib/droidianos/install-split-apks".to_owned());
    command.push(transaction_id.to_owned());
    let ghost head = command.deep_view();
    let ghost fs = apk_files.deep_view();
    let mut i: usize = 0;
    assert(head + fs.take(0) =~= head);
    while i < apk_files.len()
        invariant
            i <= apk_files.len(),
            fs == apk_files.deep_view(),
            fs.len() == apk_files.len(),
            command.deep_view() == head + fs.take(i as int),
        decreases apk_files.len() - i,
    {
        let ghost before = command.deep_view();
        command.push(apk_files[i].clone());
        assert(command.deep_view() =~= before.push(fs[i as int]));
        assert(head + fs.take(i + 1) =~= (head + fs.take(i as int)).push(fs[i as int]));
        i = i + 1;
    }
    assert(fs.take(fs.len() as int) =~= fs);
    assert(head =~= seq!["pkexec"@, "/usr/lib/droidianos/install-split-apks"@, transaction_id@]);
    command
}

/// What happened at the last step of an installation.
#[derive(Clone, Copy, Debug, PartialEq, Eq, Structural)]
pub enum InstallEvent {
    /// A request to install arrived.
    Started,
    /// The package could not be prepared (not a valid APK, APKS or APKM).
    PrepareFailed,
    /// The package was prepared; whether its manifest names the package.
    Prepared { has_package_name: bool },
    /// The Android session is running.
    SessionReady,
    /// The Android session did not start.
    SessionFailed,
    /// The installer ran; whether it reported success.
    InstallerFinished { success: bool },
    /// The installer could not be run.
    InstallerFailed,
    /// Android lists the package.
    Verified,
    /// Android does not list the package.
    VerifyFailed,
}

/// What the service does next.
#[derive(Clone, Copy, Debug, PartialEq, Eq, Structural)]
pub enum InstallAction {
    PreparePackage,
    StartSession,
    RunInstaller,
    VerifyPackage,
    /// Refresh the desktop integration and report success.
    Complete,
    /// Clean up and report the error.
    Fail,
}

/// A progress record: state, percentage, message.
#[derive(Clone, Copy, Debug)]
pub struct InstallProgress {
    pub state: &'static str,
    pub percent: u32,
    pub message: &'static str,
}

/// The progress to record (if any) and the next action.
#[derive(Clone, Copy, Debug)]
pub struct InstallStep {
    pub progress: Option<InstallProgress>,
    pub action: InstallAction,
}

pub open spec fn progress_is(p: Option<InstallProgress>, state: Seq<char>, percent: u32, message: Seq<char>) -> bool {
    p matches Some(q) && q.state@ == state && q.percent == percent && q.message@ == message
}

/// The installation's progression from one event to the next.
pub open spec fn install_step_is(event: InstallEvent, step: InstallStep) -> bool {
    match event {
        InstallEvent::Started => progress_is(step.progress, "running"@, 10, "Inspecting APK"@)
            && step.action == InstallAction::PreparePackage,
        InstallEvent::PrepareFailed => progress_is(step.progress, "failed"@, 100, "Invalid application package"@)
            && step.action == InstallAction::Fail,
        InstallEvent::Prepared { has_package_name } => if has_package_name {
            progress_is(step.progress, "running"@, 30, "Starting Android"@) && step.action
                == InstallAction::StartSession
        } else {
            step.progress is None && step.action == InstallAction::Fail
        },
        InstallEvent::SessionFailed => progress_is(step.progress, "failed"@, 100, "Android did not start"@)
            && step.action == InstallAction::Fail,
        InstallEvent::SessionReady => progress_is(step.progress, "running"@, 50, "Installing APK"@)
            && step.action == InstallAction::RunInstaller,
        InstallEvent::InstallerFailed => progress_is(step.progress, "failed"@, 100, "Installation failed"@)
            && step.action == InstallAction::Fail,
        InstallEvent::InstallerFinished { success } => if success {
            step.progress is None && step.action == InstallAction::VerifyPackage
        } else {
            progress_is(step.progress, "failed"@, 100, "Installation failed"@) && step.action
                == InstallAction::Fail
        },
        InstallEvent::VerifyFailed => progress_is(
            step.progress,
            "failed"@,
            100,
            "Installation could not be verified"@,
        ) && step.action == InstallAction::Fail,
        InstallEvent::Verified => progress_is(step.progress, "complete"@, 100, "Installation complete"@)
            && step.action == InstallAction::Complete,
    }
}

fn progress(state: &'static str, percent: u32, message: &'static str) -> (p: Option<InstallProgress>)
    ensures
        progress_is(p, state@, percent, message@),
{
    Some(InstallProgress { state, percent, message })
}

/// The next step of an installation after `event`.
pub fn install_step(event: InstallEvent) -> (step: InstallStep)
    ensures
        install_step_is(event, step),
{
    match event {
        InstallEvent::Started => InstallStep {
            progress: progress("running", 10, "Inspecting APK"),
            action: InstallAction::PreparePackage,
        },
        InstallEvent::PrepareFailed => InstallStep {
            progress: progress("failed", 100, "Invalid application package"),
            action: InstallAction::Fail,
        },
        InstallEvent::Prepared { has_package_name } => if has_package_name {
            InstallStep {
                progress: progress("running", 30, "Starting Android"),
                action: InstallAction::StartSession,
            }
        } else {
            InstallStep { progress: None, action: InstallAction::Fail }
        },
        InstallEvent::SessionFailed => InstallStep {
            progress: progress("failed", 100, "Android did not start"),
            action: InstallAction::Fail,
        },
        InstallEvent::SessionReady => InstallStep {
            progress: progress("running", 50, "Installing APK"),
            action: InstallAction::RunInstaller,
        },
        InstallEvent::InstallerFailed => InstallStep {
            progress: progress("failed", 100, "Installation failed"),
            action: InstallAction::Fail,
        },
        InstallEvent::InstallerFinished { success } => if success {
            InstallStep { progress: None, action: InstallAction::VerifyPackage }
        } else {
            InstallStep {
                progress: progress("failed", 100, "Installation failed"),
                action: InstallAction::Fail,
            }
        },
        InstallEvent::VerifyFailed => InstallStep {
            progress: progress("failed", 100, "Installation could not be verified"),
            action: InstallAction::Fail,
        },
        InstallEvent::Verified => InstallStep {
            progress: progress("complete", 100, "Installation complete"),
            action: InstallAction::Complete,
        },
    }
}

} // verus!
