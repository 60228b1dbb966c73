use droidianos::error::ErrorKind;
use droidianos::permissions::{
    android_permission_command, list_permissions_json, parse_policies, policies_json, set_permission,
    validate_state, PermissionPolicy,
};

fn policy(package: &str, permission: &str, state: &str) -> PermissionPolicy {
    PermissionPolicy {
        package: package.to_string(),
        permission: permission.to_string(),
        state: state.to_string(),
    }
}

fn triples(ps: &[PermissionPolicy]) -> Vec<(String, String, String)> {
    ps.iter().map(|p| (p.package.clone(), p.permission.clone(), p.state.clone())).collect()
}

#[test]
fn validate_state_accepts_the_three_states() {
    assert!(validate_state("allowed").is_ok());
    assert!(validate_state("denied").is_ok());
    assert!(validate_state("default").is_ok());
    let e = validate_state("granted").unwrap_err();
    assert_eq!(e.kind, ErrorKind::InvalidInput);
    assert_eq!(e.message, "permission state must be allowed, denied, or default");
}

#[test]
fn set_permission_replaces_the_entry_and_puts_it_last() {
    let mut ps = vec![
        policy("a", "CAMERA", "allowed"),
        policy("b", "CAMERA", "denied"),
        policy("a", "MIC", "denied"),
    ];
    set_permission(&mut ps, "a", "CAMERA", "denied").unwrap();
    assert_eq!(
        triples(&ps),
        vec![
            ("b".to_string(), "CAMERA".to_string(), "denied".to_string()),
            ("a".to_string(), "MIC".to_string(), "denied".to_string()),
            ("a".to_string(), "CAMERA".to_string(), "denied".to_string()),
        ]
    );
}

#[test]
fn set_permission_with_invalid_state_changes_nothing() {
    let mut ps = vec![policy("a", "CAMERA", "allowed")];
    let e = set_permission(&mut ps, "a", "CAMERA", "maybe").unwrap_err();
    assert_eq!(e.kind, ErrorKind::InvalidInput);
    assert_eq!(triples(&ps), vec![("a".to_string(), "CAMERA".to_string(), "allowed".to_string())]);
}

#[test]
fn list_permissions_json_lists_the_package_entries() {
    let ps = vec![
        policy("a", "android.permission.CAMERA", "allowed"),
        policy("b", "android.permission.CAMERA", "denied"),
        policy("a", "x\"y", "default"),
    ];
    assert_eq!(
        list_permissions_json("a", &ps),
        "{\"package\":\"a\",\"permissions\":[{\"id\":\"android.permission.CAMERA\",\"state\":\"allowed\"},{\"id\":\"x\\\"y\",\"state\":\"default\"}]}"
    );
    assert_eq!(list_permissions_json("c", &ps), "{\"package\":\"c\",\"permissions\":[]}");
}

#[test]
fn policies_json_writes_the_file() {
    let ps = vec![policy("a", "CAMERA", "allowed"), policy("b", "MIC", "denied")];
    assert_eq!(
        policies_json(&ps),
        "{\"permissions\":[{\"package\":\"a\",\"permission\":\"CAMERA\",\"state\":\"allowed\"},{\"package\":\"b\",\"permission\":\"MIC\",\"state\":\"denied\"}]}\n"
    );
    assert_eq!(policies_json(&vec![]), "{\"permissions\":[]}\n");
}

#[test]
fn policy_file_reads_back() {
    let ps = vec![
        policy("org.example", "android.permission.CAMERA", "allowed"),
        policy("we\"ird\\pkg{", "perm", "denied"),
        policy("", "", "default"),
    ];
    let read = parse_policies(&policies_json(&ps));
    assert_eq!(triples(&read), triples(&ps));
    assert!(parse_policies(&policies_json(&vec![])).is_empty());
}

#[test]
fn policy_with_brace_does_not_read_back() {
    let ps = vec![policy("a}b", "perm", "denied")];
    let read = parse_policies(&policies_json(&ps));
    assert!(read.is_empty());
}

#[test]
fn parse_policies_skips_incomplete_entries() {
    let contents = "{\"permissions\":[{\"package\":\"a\",\"permission\":\"p\"},{\"package\":\"b\",\"permission\":\"q\",\"state\":\"allowed\"}]}";
    assert_eq!(triples(&parse_policies(contents)), vec![("b".to_string(), "q".to_string(), "allowed".to_string())]);
    assert!(parse_policies("").is_empty());
}

#[test]
fn android_permission_command_by_state() {
    assert_eq!(android_permission_command("android.permission.CAMERA", "allowed"), Some("grant"));
    assert_eq!(android_permission_command("android.permission.CAMERA", "denied"), Some("revoke"));
    assert_eq!(android_permission_command("android.permission.CAMERA", "default"), None);
    assert_eq!(android_permission_command("com.example.X", "allowed"), None);
}

#[test]
fn setting_the_same_state_twice_is_setting_it_once() {
    let start = vec![policy("a", "CAMERA", "allowed"), policy("b", "MIC", "denied")];
    let mut once = vec![policy("a", "CAMERA", "allowed"), policy("b", "MIC", "denied")];
    set_permission(&mut once, "a", "CAMERA", "denied").unwrap();
    let mut twice = start;
    set_permission(&mut twice, "a", "CAMERA", "denied").unwrap();
    set_permission(&mut twice, "a", "CAMERA", "denied").unwrap();
    assert_eq!(triples(&twice), triples(&once));
}
