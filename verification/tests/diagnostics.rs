use ozendb::commands::diagnostics::{info_command, profile_command, profile_filter};
use ozendb::value::{get_field, Document, Value};

fn int32(doc: &Document, key: &str) -> i32 {
    match get_field(doc, key) {
        Some(Value::Int32(n)) => *n,
        _ => panic!("expected an int32 at {key}"),
    }
}

fn has_key(v: &Value, key: &str) -> bool {
    match v {
        Value::Document(doc) => get_field(doc, key).is_some(),
        _ => false,
    }
}

#[test]
fn level_off_builds_command() {
    let cmd = profile_command(0, 100).unwrap();
    assert_eq!(int32(&cmd, "profile"), 0);
    assert_eq!(int32(&cmd, "slowms"), 100);
}

#[test]
fn level_slow_ops_builds_command() {
    let cmd = profile_command(1, 50).unwrap();
    assert_eq!(int32(&cmd, "profile"), 1);
    assert_eq!(int32(&cmd, "slowms"), 50);
}

#[test]
fn level_all_builds_command() {
    let cmd = profile_command(2, 0).unwrap();
    assert_eq!(int32(&cmd, "profile"), 2);
}

#[test]
fn out_of_range_level_errors() {
    assert!(profile_command(3, 100).is_err());
    assert!(profile_command(-1, 100).is_err());
}

#[test]
fn out_of_range_level_message() {
    assert_eq!(profile_command(7, 1).unwrap_err(), "Invalid profiling level: 7 (expected 0, 1, or 2)");
}

#[test]
fn maps_build_to_build_info() {
    let cmd = info_command("build").unwrap();
    assert!(has_key(&cmd, "buildInfo"));
}

#[test]
fn maps_host_to_host_info() {
    let cmd = info_command("host").unwrap();
    assert!(has_key(&cmd, "hostInfo"));
}

#[test]
fn maps_replica_to_repl_set_get_status() {
    let cmd = info_command("replica").unwrap();
    assert!(has_key(&cmd, "replSetGetStatus"));
}

#[test]
fn unknown_kind_errors() {
    assert!(info_command("bogus").is_err());
    assert_eq!(info_command("bogus").unwrap_err(), "Unknown server info kind: bogus");
}

#[test]
fn profile_filter_keeps_slow_operations() {
    assert!(profile_filter(None).is_empty());
    let f = profile_filter(Some(25));
    assert_eq!(f.len(), 1);
    assert_eq!(f[0].0, "millis");
    match &f[0].1 {
        Value::Document(inner) => assert!(matches!(get_field(inner, "$gte"), Some(Value::Int64(25)))),
        _ => panic!("expected a sub-document"),
    }
}
