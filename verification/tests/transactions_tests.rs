use droidianos::transactions::{
    missing_transaction_json, transaction_id, transaction_json, transaction_reply, Transaction,
    TransactionTable,
};

#[test]
fn table_reads_back_the_last_record() {
    let mut table = TransactionTable::new();
    assert!(table.get("apk-1").is_none());
    table.set("apk-1", "install", "running", 10, "Inspecting APK");
    table.set("apk-2", "install", "running", 30, "Starting Android");
    table.set("apk-1", "install", "complete", 100, "Installation complete");
    let t = table.get("apk-1").unwrap();
    assert_eq!(t.state, "complete");
    assert_eq!(t.percent, 100);
    assert_eq!(t.message, "Installation complete");
    assert_eq!(table.get("apk-2").unwrap().percent, 30);
}

#[test]
fn transaction_json_exact() {
    let t = Transaction {
        id: "apk-5".to_string(),
        kind: "install".to_string(),
        state: "failed".to_string(),
        percent: 100,
        message: "Android did not start".to_string(),
    };
    assert_eq!(
        transaction_json(&t),
        "{\"id\":\"apk-5\",\"kind\":\"install\",\"state\":\"failed\",\"percent\":100,\"message\":\"Android did not start\"}"
    );
}

#[test]
fn missing_transaction_json_exact() {
    assert_eq!(
        missing_transaction_json("x\"1"),
        "{\"id\":\"x\\\"1\",\"kind\":\"unknown\",\"state\":\"missing\",\"percent\":0,\"message\":\"Transaction not found\"}"
    );
}

#[test]
fn transaction_reply_for_known_and_unknown_ids() {
    let mut table = TransactionTable::new();
    table.set("check-7", "check", "running", 10, "Checking updates");
    assert_eq!(
        transaction_reply(&table, "check-7"),
        "{\"id\":\"check-7\",\"kind\":\"check\",\"state\":\"running\",\"percent\":10,\"message\":\"Checking updates\"}"
    );
    assert_eq!(transaction_reply(&table, "nope"), missing_transaction_json("nope"));
}

#[test]
fn transaction_id_is_prefix_dash_millis() {
    assert_eq!(transaction_id("apk", 1700000000123), "apk-1700000000123");
    assert_eq!(transaction_id("apply", 0), "apply-0");
    assert_eq!(transaction_id("check", u64::MAX), "check-18446744073709551615");
}
