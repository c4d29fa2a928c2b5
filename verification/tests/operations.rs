use ozendb::operations::{OpMeta, OperationRecord, Operations};

fn meta(op_type: &str) -> OpMeta {
    OpMeta {
        op_type: op_type.to_string(),
        label: format!("{} op", op_type),
        connection_id: Some(String::from("conn-1")),
        conn_name: Some(String::from("Local")),
        database: Some(String::from("db")),
        collection: Some(String::from("coll")),
    }
}

#[test]
fn running_op_is_listed_then_moves_to_terminal_on_finish() {
    let mut registry = Operations::new(Vec::new());

    let id = registry.start(meta("export"));
    let running = registry.list();
    assert_eq!(running.len(), 1);
    assert_eq!(running[0].status, "running");
    assert_eq!(running[0].finished_at, None);

    assert!(registry.finish(&id, "succeeded", Some(String::from("3 documents"))));
    let done = registry.list();
    assert_eq!(done.len(), 1);
    assert_eq!(done[0].status, "succeeded");
    assert_eq!(done[0].detail.as_deref(), Some("3 documents"));
    assert!(done[0].finished_at.is_some());
    assert!(done[0].elapsed_ms.is_some());
}

#[test]
fn only_terminal_records_persist_across_reload() {
    let mut registry = Operations::new(Vec::new());
    let finished_id = registry.start(meta("export"));
    registry.finish(&finished_id, "succeeded", None);
    // A still-running op exists only in memory.
    let _running_id = registry.start(meta("import"));
    assert_eq!(registry.list().len(), 2);

    // A fresh registry over the persisted log sees only the terminal record — the
    // running one was memory-only and does not survive a "restart".
    let reloaded = Operations::new(registry.finished);
    let after = reloaded.list();
    assert_eq!(after.len(), 1);
    assert_eq!(after[0].status, "succeeded");
}

#[test]
fn clear_finished_empties_the_persisted_log() {
    let mut registry = Operations::new(Vec::new());
    let id = registry.start(meta("export"));
    registry.finish(&id, "succeeded", None);
    assert_eq!(registry.list().len(), 1);
    registry.clear_finished();
    assert_eq!(registry.list().len(), 0);
}

#[test]
fn ids_are_prefixed_and_unknown_ids_change_nothing() {
    let mut registry = Operations::new(Vec::new());
    let id = registry.start(meta("query"));
    assert!(id.starts_with("op-"));
    assert_eq!(id.len(), 39);
    assert!(!registry.finish("op-unknown", "failed", None));
    assert_eq!(registry.live.len(), 1);
    assert!(registry.finished.is_empty());
}

fn record(id: &str, started_at: i64) -> OperationRecord {
    OperationRecord {
        id: id.to_string(),
        op_type: "query".to_string(),
        label: String::new(),
        connection_id: None,
        conn_name: None,
        database: None,
        collection: None,
        status: "succeeded".to_string(),
        started_at,
        finished_at: Some(started_at),
        elapsed_ms: Some(0),
        detail: None,
    }
}

#[test]
fn list_is_newest_first_stable_and_capped() {
    let log = vec![record("a", 5), record("b", 9), record("c", 5)];
    let mut registry = Operations::new(log);
    registry.start_at(meta("export"), "live".to_string(), 7);
    let ids: Vec<String> = registry.list().into_iter().map(|r| r.id).collect();
    assert_eq!(ids, vec!["b", "live", "a", "c"]);

    let many: Vec<OperationRecord> = (0..250).map(|i| record(&format!("r{i}"), i)).collect();
    let big = Operations::new(many);
    let listed = big.list();
    assert_eq!(listed.len(), 200);
    assert_eq!(listed[0].id, "r249");
}

#[test]
fn finish_at_stamps_elapsed_and_caps_the_log() {
    let log: Vec<OperationRecord> = (0..200).map(|i| record(&format!("r{i}"), i)).collect();
    let mut registry = Operations::new(log);
    registry.start_at(meta("export"), "x".to_string(), 1000);
    assert!(registry.finish_at("x", "failed", Some("boom".to_string()), 1250));
    assert_eq!(registry.finished.len(), 200);
    assert_eq!(registry.finished[0].id, "x");
    assert_eq!(registry.finished[0].elapsed_ms, Some(250));
    assert_eq!(registry.finished[0].finished_at, Some(1250));
    assert_eq!(registry.finished[0].status, "failed");
    assert_eq!(registry.finished[199].id, "r198");
}

#[test]
fn started_records_carry_their_description_and_finished_ones_their_outcome() {
    let mut registry = Operations::new(Vec::new());
    let id = registry.start(meta("export"));
    let running = &registry.live[0];
    assert_eq!(running.op_type, "export");
    assert_eq!(running.label, "export op");
    assert_eq!(running.connection_id.as_deref(), Some("conn-1"));
    assert_eq!(running.conn_name.as_deref(), Some("Local"));
    assert_eq!(running.database.as_deref(), Some("db"));
    assert_eq!(running.collection.as_deref(), Some("coll"));
    assert!(running.started_at > 0);
    let started = running.started_at;
    assert!(registry.finish(&id, "failed", Some("boom".to_string())));
    assert!(registry.live.is_empty());
    let done = &registry.finished[0];
    assert_eq!(done.id, id);
    assert_eq!(done.status, "failed");
    assert_eq!(done.label, "export op");
    let finished = done.finished_at.unwrap();
    assert_eq!(done.elapsed_ms, Some(finished - started));
}
