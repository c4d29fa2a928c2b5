use ozendb::menu::{gate_enabled, menus, Gate, MenuContext, Spec};

fn context(
    has_connection: bool,
    has_database: bool,
    has_collection: bool,
    any_connection: bool,
) -> MenuContext {
    MenuContext {
        has_connection: has_connection,
        has_database: has_database,
        has_collection: has_collection,
        any_connection: any_connection,
        has_document: false,
        has_field: false,
        has_index: false,
    }
}

// Context with the document/field flags set, for the Document-menu gates.
fn doc_context(has_document: bool, has_field: bool) -> MenuContext {
    MenuContext {
        has_connection: true,
        has_database: true,
        has_collection: true,
        any_connection: true,
        has_document: has_document,
        has_field: has_field,
        has_index: false,
    }
}

// Context with the index-selection flag set, for the Index-menu gate.
fn index_context(has_index: bool) -> MenuContext {
    MenuContext {
        has_connection: true,
        has_database: true,
        has_collection: true,
        any_connection: true,
        has_document: false,
        has_field: false,
        has_index: has_index,
    }
}

#[test]
fn gate_enabled_reads_the_matching_context_flag() {
    let all_off = context(false, false, false, false);
    assert!(!gate_enabled(Gate::Connection, &all_off));
    assert!(!gate_enabled(Gate::Database, &all_off));
    assert!(!gate_enabled(Gate::Collection, &all_off));
    assert!(!gate_enabled(Gate::AnyConnection, &all_off));
    assert!(!gate_enabled(Gate::Document, &all_off));
    assert!(!gate_enabled(Gate::DocumentField, &all_off));
    assert!(!gate_enabled(Gate::Index, &all_off));

    assert!(gate_enabled(Gate::Connection, &context(true, false, false, false)));
    assert!(gate_enabled(Gate::Database, &context(false, true, false, false)));
    assert!(gate_enabled(Gate::Collection, &context(false, false, true, false)));
    assert!(gate_enabled(Gate::AnyConnection, &context(false, false, false, true)));
}

#[test]
fn document_gates_track_document_and_field_selection() {
    // No selection: neither the whole-document nor the field actions enable.
    let none = doc_context(false, false);
    assert!(!gate_enabled(Gate::Document, &none));
    assert!(!gate_enabled(Gate::DocumentField, &none));

    // A row is selected but no field: whole-document actions enable, field ones
    // stay disabled.
    let row_only = doc_context(true, false);
    assert!(gate_enabled(Gate::Document, &row_only));
    assert!(!gate_enabled(Gate::DocumentField, &row_only));

    // A field is selected (which implies a row): both enable.
    let field = doc_context(true, true);
    assert!(gate_enabled(Gate::Document, &field));
    assert!(gate_enabled(Gate::DocumentField, &field));
}

#[test]
fn index_gate_tracks_index_selection() {
    // No index selected: the Index-menu actions stay disabled.
    assert!(!gate_enabled(Gate::Index, &index_context(false)));
    // An index row is selected in the open Indexes dialog: they enable.
    assert!(gate_enabled(Gate::Index, &index_context(true)));
}

#[test]
fn index_menu_items_gate_on_a_selected_index() {
    for id in ["idx:edit", "idx:view", "idx:copy", "idx:drop", "idx:hide", "idx:unhide"] {
        assert_eq!(gate_of(id), Gate::Index, "{id} should gate on a selected index");
    }
}

#[test]
fn document_and_collection_editing_items_have_the_expected_gates() {
    // Field-scoped Document actions.
    for id in ["doc:edit_value", "doc:remove_field", "doc:rename_field"] {
        assert_eq!(gate_of(id), Gate::DocumentField, "{id} should gate on a field");
    }
    // Whole-document actions.
    for id in ["doc:add_field", "doc:view_json", "doc:edit_json", "doc:delete"] {
        assert_eq!(gate_of(id), Gate::Document, "{id} should gate on a document");
    }
    // Collection document-editing actions gate on an active collection.
    for id in ["coll:insert_document", "coll:update_dialog", "coll:delete_dialog", "coll:clear"] {
        assert_eq!(gate_of(id), Gate::Collection, "{id} should gate on a collection");
    }
}

#[test]
fn edit_menu_clipboard_items_have_the_expected_gates() {
    // Whole-document copies enable when a document row is selected.
    for id in ["edit:copy", "edit:copy_document"] {
        assert_eq!(gate_of(id), Gate::Document, "{id} should gate on a document");
    }
    // Field-scoped copies enable when a field/cell is selected.
    for id in ["edit:copy_value", "edit:copy_field", "edit:copy_field_path"] {
        assert_eq!(gate_of(id), Gate::DocumentField, "{id} should gate on a field");
    }
    // Paste inserts into the active collection.
    assert_eq!(gate_of("edit:paste_documents"), Gate::Collection);
}

#[test]
fn refresh_enables_on_any_connection_even_without_active_tab_context() {
    // The original bug: Refresh acts on every tree connection, so it must
    // enable whenever a connection exists — not only when the active tab has
    // one. AnyConnection captures that.
    let only_any = context(false, false, false, true);
    assert!(gate_enabled(gate_of("view:refresh"), &only_any));
}

#[test]
fn sidebar_selection_enables_collection_scoped_items() {
    // A collection selected in the sidebar makes has_collection true even when
    // the active tab is Quickstart, so collection-scoped items enable.
    let sidebar_collection = context(true, true, true, true);
    for id in ["coll:export", "coll:schema", "coll:drop", "coll:aggregation"] {
        assert!(gate_enabled(gate_of(id), &sidebar_collection), "{id} should enable");
    }
}

#[test]
fn open_collection_tab_gates_on_connection() {
    // Open Collection Tab's handler opens the sidebar-highlighted collection;
    // it enables as soon as a connection/selection exists.
    assert_eq!(gate_of("coll:open_tab"), Gate::Connection);
}

#[test]
fn menu_gates_match_the_expected_map() {
    assert_eq!(gate_of("view:refresh"), Gate::AnyConnection);
    assert_eq!(gate_of("file:server_status"), Gate::Connection);
    assert_eq!(gate_of("file:intellishell"), Gate::Database);
    assert_eq!(gate_of("db:add_collection"), Gate::Database);
    assert_eq!(gate_of("coll:compare"), Gate::Database);
    assert_eq!(gate_of("coll:schema"), Gate::Collection);
    assert_eq!(gate_of("db:collection_stats"), Gate::Collection);
}

#[test]
fn always_on_items_have_no_gate() {
    for id in ["file:connect", "file:sql", "edit:preferences", "help:shortcuts", "file:exit"] {
        assert!(spec_of(id).is_some(), "{id} should exist");
        assert!(gate_of_opt(id).is_none(), "{id} should be always-on");
    }
}

#[test]
fn placeholders_are_carried_over_but_ungated() {
    // A representative built:false placeholder is present and never gated on.
    assert!(matches!(spec_of("view:split_v"), Some(Spec::Placeholder { .. })));
    assert!(gate_of_opt("view:split_v").is_none());
}

// Test helpers: look an item up by id in the logical menu table.
fn spec_of(id: &str) -> Option<Spec> {
    for (_name, specs) in menus() {
        for spec in specs {
            let matches = match &spec {
                Spec::Action { id: item_id, .. } => *item_id == id,
                Spec::Placeholder { id: item_id, .. } => *item_id == id,
                Spec::Separator => false,
            };
            if matches {
                return Some(spec);
            }
        }
    }
    None
}

fn gate_of_opt(id: &str) -> Option<Gate> {
    match spec_of(id) {
        Some(Spec::Action { gate: gate, .. }) => gate,
        _ => None,
    }
}

fn gate_of(id: &str) -> Gate {
    match gate_of_opt(id) {
        Some(gate) => gate,
        None => panic!("expected {id} to be a gated action"),
    }
}


use ozendb::menu::{gated_items, item_state};

#[test]
fn items_start_enabled_only_without_a_gate() {
    let always = Spec::Action { id: "file:connect", label: "Connect…", accel: Some("CmdOrCtrl+N"), gate: None };
    let gated = Spec::Action { id: "file:add_database", label: "Add Database…", accel: None, gate: Some(Gate::Connection) };
    let later = Spec::Placeholder { id: "file:tasks", label: "Open Tasks" };
    let s = item_state(&always).unwrap();
    assert!(s.enabled && s.gate.is_none() && s.id == "file:connect" && s.label == "Connect…");
    let s = item_state(&gated).unwrap();
    assert!(!s.enabled && s.gate == Some(Gate::Connection));
    let s = item_state(&later).unwrap();
    assert!(!s.enabled && s.gate.is_none() && s.id == "file:tasks");
    assert!(item_state(&Spec::Separator).is_none());
    let rows = vec![always, gated, later, Spec::Separator, Spec::Action { id: "x", label: "X", accel: None, gate: Some(Gate::Index) }];
    assert_eq!(gated_items(&rows), vec![("file:add_database", Gate::Connection), ("x", Gate::Index)]);
}
