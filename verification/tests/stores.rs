use ozendb::collection_history::{CollectionHistoryStore, HistoryEntry, MAX_ENTRIES};
use ozendb::default_queries::{DefaultQuery, DefaultQueryStorage};
use ozendb::export_watermarks::ExportWatermarkStorage;
use ozendb::folders::{Folder, FolderStorage};
use ozendb::history::{now_ms, HistoryStorage, QueryHistoryEntry, MAX_HISTORY};
use ozendb::keybindings::KeybindingStorage;
use ozendb::node_tags::NodeTagStorage;

fn entry(id: &str, conn: &str, db: &str, coll: &str) -> HistoryEntry {
    HistoryEntry {
        id: id.to_string(),
        conn_id: conn.to_string(),
        database: db.to_string(),
        collection: coll.to_string(),
        op: "update".to_string(),
        at: 1,
        doc_id: "{\"$oid\":\"x\"}".to_string(),
        before: Some("{}".to_string()),
    }
}

#[test]
fn collection_history_is_newest_first_and_filtered() {
    let mut store = CollectionHistoryStore::new();
    store.push(entry("1", "c", "d", "a"));
    store.push(entry("2", "c", "d", "b"));
    store.push(entry("3", "c", "d", "a"));
    let listed: Vec<String> = store.list_for("c", "d", "a").into_iter().map(|e| e.id).collect();
    assert_eq!(listed, vec!["3".to_string(), "1".to_string()]);
    assert_eq!(store.get("2").map(|e| e.collection), Some("b".to_string()));
    assert!(store.get("9").is_none());
}

#[test]
fn collection_history_clear_for_drops_only_that_collection() {
    let mut store = CollectionHistoryStore::new();
    store.push(entry("1", "c", "d", "a"));
    store.push(entry("2", "c", "d", "b"));
    store.clear_for("c", "d", "a");
    assert!(store.list_for("c", "d", "a").is_empty());
    assert_eq!(store.list_for("c", "d", "b").len(), 1);
}

#[test]
fn collection_history_is_capped() {
    let mut store = CollectionHistoryStore::new();
    for n in 0..(MAX_ENTRIES + 5) {
        store.push(entry(&n.to_string(), "c", "d", "a"));
    }
    let all = store.load();
    assert_eq!(all.len(), MAX_ENTRIES);
    assert_eq!(all[0].id, (MAX_ENTRIES + 4).to_string());
}

#[test]
fn watermarks_roundtrip() {
    let mut store = ExportWatermarkStorage::new();
    assert_eq!(store.get("c/d/e"), None);
    store.set("c/d/e", "{\"$oid\":\"1\"}");
    store.set("c/d/e", "{\"$oid\":\"2\"}");
    assert_eq!(store.get("c/d/e"), Some("{\"$oid\":\"2\"}".to_string()));
    assert_eq!(store.pairs().len(), 1);
}

#[test]
fn keybindings_save_replaces_the_whole_map() {
    let mut store = KeybindingStorage::new();
    store.save(&vec![("file:connect".to_string(), "CmdOrCtrl+N".to_string())]);
    store.save(&vec![
        ("coll:aggregation".to_string(), "F4".to_string()),
        ("coll:aggregation".to_string(), "F5".to_string()),
    ]);
    assert_eq!(store.load(), vec![("coll:aggregation".to_string(), "F5".to_string())]);
}

#[test]
fn node_tags_set_clear_and_subtree_reset() {
    let mut store = NodeTagStorage::new();
    store.set("c1/db", "blue");
    store.set("c1/db/coll", "green");
    store.set("c10/db", "red");
    store.set("c2/db", "red");
    store.remove_connection("c1");
    let mut keys: Vec<String> = store.load().into_iter().map(|(k, _)| k).collect();
    keys.sort();
    assert_eq!(keys, vec!["c10/db".to_string(), "c2/db".to_string()]);
    store.clear("c2/db");
    store.set("c10/db/x", "blue");
    store.remove_under("c10/db/");
    assert_eq!(store.load(), vec![("c10/db".to_string(), "red".to_string())]);
}

fn query(filter: &str) -> DefaultQuery {
    DefaultQuery {
        mode: "find".to_string(),
        filter: filter.to_string(),
        sort: String::new(),
        projection: String::new(),
        skip: 0,
        limit: 50,
        pipeline: String::new(),
    }
}

#[test]
fn default_queries_set_get_clear() {
    let mut store = DefaultQueryStorage::new();
    store.set("c/d/e", query("{\"a\":1}"));
    assert_eq!(store.get("c/d/e").map(|q| q.filter), Some("{\"a\":1}".to_string()));
    store.clear("c/d/e");
    assert!(store.get("c/d/e").is_none());
}

#[test]
fn folders_insert_rename_delete() {
    let mut store = FolderStorage::new();
    let folder = |id: &str, name: &str| Folder {
        id: id.to_string(),
        name: name.to_string(),
        parent_id: None,
        created_at: "0".to_string(),
    };
    store.insert(folder("1", "Prod"));
    store.insert(folder("2", "Dev"));
    store.rename("2", "Staging");
    store.rename("9", "Nobody");
    let names: Vec<String> = store.load().into_iter().map(|f| f.name).collect();
    assert_eq!(names, vec!["Prod".to_string(), "Staging".to_string()]);
    store.delete("1");
    assert_eq!(store.load().len(), 1);
}

fn run(id: &str, filter: &str) -> QueryHistoryEntry {
    QueryHistoryEntry {
        id: id.to_string(),
        mode: "find".to_string(),
        filter: filter.to_string(),
        sort: String::new(),
        projection: String::new(),
        skip: 0,
        limit: 0,
        pipeline: String::new(),
        ran_at: now_ms(),
    }
}

#[test]
fn query_history_dedups_and_caps() {
    let mut store = HistoryStorage::new();
    store.push("k", run("1", "{a}"));
    store.push("k", run("2", "{b}"));
    store.push("k", run("3", "{a}"));
    let ids: Vec<String> = store.get("k").into_iter().map(|e| e.id).collect();
    assert_eq!(ids, vec!["3".to_string(), "2".to_string()]);
    for n in 0..(MAX_HISTORY + 10) {
        store.push("k", run(&n.to_string(), &format!("{{{n}}}")));
    }
    assert_eq!(store.get("k").len(), MAX_HISTORY);
    store.clear("k");
    assert!(store.get("k").is_empty());
    assert!(store.get("other").is_empty());
}
