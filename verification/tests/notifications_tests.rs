use std::collections::VecDeque;
use droidianos::notifications::{first_value, has_seen, parse_notifications, remember, value_after, MAX_SEEN};

fn chars(s: &str) -> Vec<char> {
    s.chars().collect()
}

#[test]
fn value_after_reads_quoted_and_plain_values() {
    assert_eq!(value_after(&chars("a pkg=org.x title=\"Hello world\" y"), "pkg=").as_deref(), Some("org.x"));
    assert_eq!(value_after(&chars("title=\"Hello world\" y"), "title=").as_deref(), Some("Hello world"));
    assert_eq!(value_after(&chars("title=\"unterminated"), "title="), None);
    assert_eq!(value_after(&chars("key=last"), "key=").as_deref(), Some("last"));
    assert_eq!(value_after(&chars("nothing"), "key="), None);
}

#[test]
fn first_value_tries_keys_in_order() {
    let line = chars("text=body package=org.y");
    assert_eq!(first_value(&line, &["pkg=", "package="]).as_deref(), Some("org.y"));
    assert_eq!(first_value(&line, &["title=", "tickerText=", "text="]).as_deref(), Some("body"));
    assert_eq!(first_value(&line, &["id="]), None);
}

#[test]
fn parse_notifications_fills_defaults() {
    let output = "  NotificationRecord key=0|org.x|1 pkg=org.x title=\"Hi there\" text=Body  \n\n plain line \r\n";
    let ns = parse_notifications(output);
    assert_eq!(ns.len(), 2);
    assert_eq!(ns[0].key, "0|org.x|1");
    assert_eq!(ns[0].title, "Hi there");
    assert_eq!(ns[0].body, "Body");
    assert_eq!(ns[1].key, "plain line");
    assert_eq!(ns[1].title, "Android application");
    assert_eq!(ns[1].body, "plain line");
}

#[test]
fn remembered_keys_are_seen_and_memory_is_bounded() {
    let mut seen: VecDeque<String> = VecDeque::new();
    assert!(!has_seen(&seen, "k0"));
    for i in 0..(MAX_SEEN + 5) {
        remember(&mut seen, format!("k{}", i));
    }
    assert_eq!(seen.len(), MAX_SEEN);
    assert!(has_seen(&seen, &format!("k{}", MAX_SEEN + 4)));
    assert!(has_seen(&seen, "k5"));
    assert!(!has_seen(&seen, "k4"));
    assert!(!has_seen(&seen, "k0"));
}

fn note(key: &str) -> droidianos::notifications::Notification {
    droidianos::notifications::Notification { key: key.to_string(), title: format!("t{}", key), body: String::new() }
}

#[test]
fn a_poll_shows_each_unseen_key_once() {
    let mut seen: VecDeque<String> = VecDeque::new();
    seen.push_back("old".to_string());
    let shown = droidianos::notifications::fresh_notifications(
        &mut seen,
        vec![note("a"), note("old"), note("b"), note("a")],
    );
    let keys: Vec<&str> = shown.iter().map(|n| n.key.as_str()).collect();
    assert_eq!(keys, vec!["a", "b"]);
    assert_eq!(shown[0].title, "ta");
    assert_eq!(seen, VecDeque::from(vec!["old".to_string(), "a".to_string(), "b".to_string()]));
    let again = droidianos::notifications::fresh_notifications(&mut seen, vec![note("b"), note("c")]);
    let keys: Vec<&str> = again.iter().map(|n| n.key.as_str()).collect();
    assert_eq!(keys, vec!["c"]);
}

#[test]
fn a_forgotten_key_is_shown_again() {
    let mut seen: VecDeque<String> = (0..MAX_SEEN).map(|i| format!("k{}", i)).collect();
    let shown = droidianos::notifications::fresh_notifications(&mut seen, vec![note("new"), note("k0")]);
    let keys: Vec<&str> = shown.iter().map(|n| n.key.as_str()).collect();
    assert_eq!(keys, vec!["new", "k0"]);
    assert_eq!(seen.len(), MAX_SEEN);
}
