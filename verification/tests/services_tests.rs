use droidianos::dbus::{Argument, Message, MessageKind};
use droidianos::error::ErrorKind;
use droidianos::services::{
    installer_request, integration_request, launch_state, permissions_request, updates_request,
    InstallerRequest, IntegrationRequest, LaunchStage, PermissionsRequest, UpdatesRequest,
    INSTALLER_INTERFACE, INTEGRATION_INTERFACE, PERMISSIONS_INTERFACE, UPDATES_INTERFACE,
};

fn call(interface: Option<&str>, member: &str, args: Vec<Argument>) -> Message {
    Message {
        kind: MessageKind::MethodCall,
        interface: interface.map(|s| s.to_string()),
        member: Some(member.to_string()),
        arguments: args,
    }
}

fn text(s: &str) -> Argument {
    Argument::Text(s.to_string())
}

#[test]
fn is_method_matches_kind_member_and_interface() {
    let m = call(Some(INSTALLER_INTERFACE), "InspectApk", vec![]);
    assert!(m.is_method(INSTALLER_INTERFACE, "InspectApk"));
    assert!(!m.is_method(INSTALLER_INTERFACE, "InstallApk"));
    assert!(!m.is_method(UPDATES_INTERFACE, "InspectApk"));
    assert!(call(None, "InspectApk", vec![]).is_method(INSTALLER_INTERFACE, "InspectApk"));
    let mut signal = call(Some(INSTALLER_INTERFACE), "InspectApk", vec![]);
    signal.kind = MessageKind::Signal;
    assert!(!signal.is_method(INSTALLER_INTERFACE, "InspectApk"));
    assert!(!m.is_method("a\0b", "InspectApk"));
}

#[test]
fn string_arguments_are_checked() {
    let m = call(None, "X", vec![text("a"), Argument::Number(3), text("c")]);
    assert_eq!(m.string_arg().unwrap(), "a");
    let e = m.string_pair_args().unwrap_err();
    assert_eq!(e.kind, ErrorKind::InvalidInput);
    assert_eq!(e.message, "method requires two string arguments");
    let e = m.string_triple_args().unwrap_err();
    assert_eq!(e.message, "method requires three string arguments");
    let e = call(None, "X", vec![]).string_arg().unwrap_err();
    assert_eq!(e.message, "method requires one string argument");
    let ok = call(None, "X", vec![text("a"), text("b"), text("c"), Argument::Other]);
    assert_eq!(ok.string_triple_args().unwrap(), ("a".to_string(), "b".to_string(), "c".to_string()));
}

#[test]
fn installer_requests() {
    match installer_request(&call(Some(INSTALLER_INTERFACE), "InstallApk", vec![text("/a.apk")])) {
        InstallerRequest::InstallApk(p) => assert_eq!(p, "/a.apk"),
        other => panic!("unexpected {:?}", other),
    }
    match installer_request(&call(Some(INSTALLER_INTERFACE), "GetTransaction", vec![text("apk-1")])) {
        InstallerRequest::GetTransaction(id) => assert_eq!(id, "apk-1"),
        other => panic!("unexpected {:?}", other),
    }
    match installer_request(&call(Some(INSTALLER_INTERFACE), "InspectApk", vec![])) {
        InstallerRequest::Invalid(e) => assert_eq!(e.message, "method requires one string argument"),
        other => panic!("unexpected {:?}", other),
    }
    assert!(matches!(installer_request(&call(Some(INSTALLER_INTERFACE), "Nope", vec![])), InstallerRequest::Ignored));
}

#[test]
fn integration_requests() {
    assert!(matches!(integration_request(&call(Some(INTEGRATION_INTERFACE), "ListApps", vec![])), IntegrationRequest::ListApps));
    assert!(matches!(integration_request(&call(Some(INTEGRATION_INTERFACE), "RefreshApps", vec![])), IntegrationRequest::RefreshApps));
    match integration_request(&call(Some(INTEGRATION_INTERFACE), "LaunchApp", vec![text("org.x"), text("Main")])) {
        IntegrationRequest::LaunchApp(p) => assert_eq!(p, "org.x"),
        other => panic!("unexpected {:?}", other),
    }
    match integration_request(&call(Some(INTEGRATION_INTERFACE), "LaunchApp", vec![text(""), text("Main")])) {
        IntegrationRequest::Invalid(e) => assert_eq!(e.message, "package must not be empty"),
        other => panic!("unexpected {:?}", other),
    }
    match integration_request(&call(Some(INTEGRATION_INTERFACE), "LaunchApp", vec![text("org.x")])) {
        IntegrationRequest::Invalid(e) => assert_eq!(e.message, "method requires two string arguments"),
        other => panic!("unexpected {:?}", other),
    }
    match integration_request(&call(Some(INTEGRATION_INTERFACE), "UninstallApp", vec![])) {
        IntegrationRequest::Invalid(e) => {
            assert_eq!(e.kind, ErrorKind::Other);
            assert_eq!(e.message, "method is not implemented yet");
        }
        other => panic!("unexpected {:?}", other),
    }
}

#[test]
fn permissions_requests() {
    match permissions_request(&call(Some(PERMISSIONS_INTERFACE), "SetPermission", vec![text("p"), text("q"), text("allowed")])) {
        PermissionsRequest::SetPermission(a, b, c) => assert_eq!((a.as_str(), b.as_str(), c.as_str()), ("p", "q", "allowed")),
        other => panic!("unexpected {:?}", other),
    }
    match permissions_request(&call(Some(PERMISSIONS_INTERFACE), "ListPermissions", vec![text("p")])) {
        PermissionsRequest::ListPermissions(a) => assert_eq!(a, "p"),
        other => panic!("unexpected {:?}", other),
    }
    match permissions_request(&call(Some(PERMISSIONS_INTERFACE), "SetPermission", vec![text("p")])) {
        PermissionsRequest::Invalid(e) => assert_eq!(e.message, "method requires three string arguments"),
        other => panic!("unexpected {:?}", other),
    }
}

#[test]
fn updates_requests_and_launch_states() {
    assert_eq!(updates_request(&call(Some(UPDATES_INTERFACE), "CheckUpdates", vec![])), UpdatesRequest::CheckUpdates);
    assert_eq!(updates_request(&call(Some(UPDATES_INTERFACE), "ListUpdates", vec![])), UpdatesRequest::ListUpdates);
    assert_eq!(updates_request(&call(Some(UPDATES_INTERFACE), "ApplyUpdates", vec![])), UpdatesRequest::ApplyUpdates);
    assert_eq!(updates_request(&call(Some(INSTALLER_INTERFACE), "CheckUpdates", vec![])), UpdatesRequest::Ignored);
    assert_eq!(launch_state(LaunchStage::Requested), "Starting");
    assert_eq!(launch_state(LaunchStage::Launched), "Running");
    assert_eq!(launch_state(LaunchStage::LaunchFailed), "Failed");
}
