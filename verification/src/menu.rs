//! Enable/disable gating of the native menu.

use vstd::prelude::*;

verus! {

/// Which selection an item needs before it can be used.
#[derive(Clone, Copy, PartialEq, Eq, Structural, Debug)]
pub enum Gate {
    /// A connection is resolvable (active tab or a selected sidebar node).
    Connection,
    /// A database is resolvable.
    Database,
    /// A collection is resolvable.
    Collection,
    /// At least one connection is open in the tree.
    AnyConnection,
    /// A document row is selected in the active results view.
    Document,
    /// A field/cell is selected in the active results view.
    DocumentField,
    /// An index row is selected in the open Indexes dialog.
    Index,
}

/// The live selection context, mirrored from the frontend.
pub struct MenuContext {
    pub has_connection: bool,
    pub has_database: bool,
    pub has_collection: bool,
    pub any_connection: bool,
    pub has_document: bool,
    pub has_field: bool,
    pub has_index: bool,
}

/// The context flag that a gate reads.
pub open spec fn gate_flag(gate: Gate, context: &MenuContext) -> bool {
    match gate {
        Gate::Connection => context.has_connection,
        Gate::Database => context.has_database,
        Gate::Collection => context.has_collection,
        Gate::AnyConnection => context.any_connection,
        Gate::Document => context.has_document,
        Gate::DocumentField => context.has_field,
        Gate::Index => context.has_index,
    }
}

/// Whether an item with the given gate is enabled in the given context.
pub fn gate_enabled(gate: Gate, context: &MenuContext) -> (r: bool)
    ensures
        r == gate_flag(gate, context),
{
    match gate {
        Gate::Connection => context.has_connection,
        Gate::Database => context.has_database,
        Gate::Collection => context.has_collection,
        Gate::AnyConnection => context.any_connection,
        Gate::Document => context.has_document,
        Gate::DocumentField => context.has_field,
        Gate::Index => context.has_index,
    }
}


/// One row in a submenu.
pub enum Spec {
    /// A working item wired to a frontend handler. `gate: None` means always
    /// enabled; `gate: Some(_)` means context-gated.
    Action {
        id: &'static str,
        label: &'static str,
        accel: Option<&'static str>,
        gate: Option<Gate>,
    },
    /// A not-yet-built item, carried over as a present-but-disabled entry.
    Placeholder {
        id: &'static str,
        label: &'static str,
    },
    Separator,
}

/// The submenus with their rows, as values.
pub open spec fn menus_view(menus: Seq<(&'static str, Vec<Spec>)>) -> Seq<(&'static str, Seq<Spec>)> {
    menus.map_values(|entry: (&'static str, Vec<Spec>)| (entry.0, entry.1@))
}

/// The application menus File..Help and their rows, in display order.
pub open spec fn menu_table() -> Seq<(&'static str, Seq<Spec>)> {
    seq![
        ("File", seq![
            Spec::Action { id: "file:connect", label: "Connect…", accel: Some("CmdOrCtrl+N"), gate: None },
            Spec::Action { id: "file:add_database", label: "Add Database…", accel: None, gate: Some(Gate::Connection) },
            Spec::Separator,
            Spec::Action { id: "file:intellishell", label: "Open IntelliShell", accel: Some("CmdOrCtrl+L"), gate: Some(Gate::Database) },
            Spec::Action { id: "file:sql", label: "Open SQL", accel: Some("CmdOrCtrl+Shift+L"), gate: None },
            Spec::Placeholder { id: "file:tasks", label: "Open Tasks" },
            Spec::Action { id: "file:search", label: "Search in…", accel: None, gate: Some(Gate::Database) },
            Spec::Placeholder { id: "file:manage_sql", label: "Manage SQL Connections" },
            Spec::Separator,
            Spec::Placeholder { id: "file:load", label: "Load" },
            Spec::Placeholder { id: "file:save", label: "Save" },
            Spec::Separator,
            Spec::Placeholder { id: "file:server_charts", label: "Server Status Charts" },
            Spec::Action { id: "file:server_status", label: "Server Status", accel: None, gate: Some(Gate::Connection) },
            Spec::Action { id: "file:server_build", label: "Server Build Info", accel: None, gate: Some(Gate::Connection) },
            Spec::Separator,
            Spec::Action { id: "file:exit", label: "Exit", accel: Some("CmdOrCtrl+Q"), gate: None }
        ]),
        ("Edit", seq![
            Spec::Action { id: "edit:copy", label: "Copy", accel: None, gate: Some(Gate::Document) },
            Spec::Action { id: "edit:copy_value", label: "Copy Value", accel: None, gate: Some(Gate::DocumentField) },
            Spec::Action { id: "edit:copy_field", label: "Copy Field", accel: None, gate: Some(Gate::DocumentField) },
            Spec::Action { id: "edit:copy_field_path", label: "Copy Field Path", accel: None, gate: Some(Gate::DocumentField) },
            Spec::Action { id: "edit:copy_document", label: "Copy Document", accel: None, gate: Some(Gate::Document) },
            Spec::Action { id: "edit:paste_documents", label: "Paste Document(s)", accel: None, gate: Some(Gate::Collection) },
            Spec::Separator,
            Spec::Action { id: "edit:preferences", label: "Preferences…", accel: Some("CmdOrCtrl+P"), gate: None }
        ]),
        ("Database", seq![
            Spec::Action { id: "db:add_database", label: "Add Database…", accel: None, gate: Some(Gate::Connection) },
            Spec::Placeholder { id: "db:copy_database", label: "Copy Database" },
            Spec::Placeholder { id: "db:copy_all", label: "Copy All Collections/Views/Buckets" },
            Spec::Placeholder { id: "db:paste_database", label: "Paste Database" },
            Spec::Placeholder { id: "db:paste", label: "Paste" },
            Spec::Separator,
            Spec::Placeholder { id: "db:export", label: "Export Collections…" },
            Spec::Placeholder { id: "db:import", label: "Import Collections…" },
            Spec::Separator,
            Spec::Action { id: "db:drop_database", label: "Drop Database", accel: None, gate: Some(Gate::Database) },
            Spec::Separator,
            Spec::Action { id: "db:add_collection", label: "Add Collection…", accel: None, gate: Some(Gate::Database) },
            Spec::Action { id: "db:add_view", label: "Add View…", accel: None, gate: Some(Gate::Database) },
            Spec::Placeholder { id: "db:add_bucket", label: "Add GridFS Bucket…" },
            Spec::Separator,
            Spec::Placeholder { id: "db:manage_users", label: "Manage Users" },
            Spec::Placeholder { id: "db:manage_roles", label: "Manage Roles" },
            Spec::Placeholder { id: "db:functions", label: "Add / Edit Stored Functions" },
            Spec::Separator,
            Spec::Action { id: "db:database_stats", label: "Database Statistics", accel: None, gate: Some(Gate::Database) },
            Spec::Action { id: "db:collection_stats", label: "Collection Statistics", accel: None, gate: Some(Gate::Collection) },
            Spec::Action { id: "db:current_ops", label: "Current Operations", accel: None, gate: Some(Gate::Connection) }
        ]),
        ("Collection", seq![
            Spec::Action { id: "coll:open_tab", label: "Open Collection Tab", accel: Some("F10"), gate: Some(Gate::Connection) },
            Spec::Action { id: "coll:aggregation", label: "Open Aggregation Editor", accel: Some("F4"), gate: Some(Gate::Collection) },
            Spec::Placeholder { id: "coll:mapreduce", label: "Open Map-Reduce" },
            Spec::Separator,
            Spec::Action { id: "coll:insert_document", label: "Insert Document…", accel: None, gate: Some(Gate::Collection) },
            Spec::Action { id: "coll:update_dialog", label: "Update Dialog…", accel: None, gate: Some(Gate::Collection) },
            Spec::Action { id: "coll:delete_dialog", label: "Delete Dialog…", accel: None, gate: Some(Gate::Collection) },
            Spec::Action { id: "coll:vqb", label: "Show Visual Query Builder", accel: Some("CmdOrCtrl+B"), gate: Some(Gate::Collection) },
            Spec::Separator,
            Spec::Action { id: "coll:export", label: "Export…", accel: None, gate: Some(Gate::Collection) },
            Spec::Action { id: "coll:import", label: "Import…", accel: None, gate: Some(Gate::Collection) },
            Spec::Placeholder { id: "coll:copy", label: "Copy Collection" },
            Spec::Separator,
            Spec::Action { id: "coll:add_index", label: "Add Index…", accel: None, gate: Some(Gate::Collection) },
            Spec::Action { id: "coll:validator", label: "Add / Edit Validator…", accel: None, gate: Some(Gate::Collection) },
            Spec::Action { id: "coll:add_view", label: "Add View Here…", accel: None, gate: Some(Gate::Collection) },
            Spec::Action { id: "coll:stats", label: "Collection Stats", accel: None, gate: Some(Gate::Collection) },
            Spec::Action { id: "coll:mask", label: "Mask Collection/View", accel: None, gate: Some(Gate::Collection) },
            Spec::Action { id: "coll:schema", label: "View Schema", accel: None, gate: Some(Gate::Collection) },
            Spec::Placeholder { id: "coll:reschema", label: "Reschema…" },
            Spec::Action { id: "coll:compare", label: "Compare To…", accel: None, gate: Some(Gate::Database) },
            Spec::Separator,
            Spec::Action { id: "coll:rename", label: "Rename Collection…", accel: None, gate: Some(Gate::Collection) },
            Spec::Action { id: "coll:duplicate", label: "Duplicate Collection…", accel: None, gate: Some(Gate::Collection) },
            Spec::Action { id: "coll:clear", label: "Clear Collection", accel: None, gate: Some(Gate::Collection) },
            Spec::Action { id: "coll:drop", label: "Drop Collection…", accel: None, gate: Some(Gate::Collection) }
        ]),
        ("Index", seq![
            Spec::Action { id: "idx:edit", label: "Edit Index…", accel: None, gate: Some(Gate::Index) },
            Spec::Action { id: "idx:view", label: "View Details", accel: None, gate: Some(Gate::Index) },
            Spec::Action { id: "idx:copy", label: "Copy Index", accel: None, gate: Some(Gate::Index) },
            Spec::Action { id: "idx:drop", label: "Drop Index", accel: None, gate: Some(Gate::Index) },
            Spec::Separator,
            Spec::Action { id: "idx:hide", label: "Hide Index", accel: None, gate: Some(Gate::Index) },
            Spec::Action { id: "idx:unhide", label: "Unhide Index", accel: None, gate: Some(Gate::Index) }
        ]),
        ("Document", seq![
            Spec::Action { id: "doc:edit_value", label: "Edit Value / Type…", accel: None, gate: Some(Gate::DocumentField) },
            Spec::Action { id: "doc:remove_field", label: "Remove Field", accel: None, gate: Some(Gate::DocumentField) },
            Spec::Action { id: "doc:rename_field", label: "Rename Field…", accel: None, gate: Some(Gate::DocumentField) },
            Spec::Action { id: "doc:add_field", label: "Add Field / Value…", accel: None, gate: Some(Gate::Document) },
            Spec::Separator,
            Spec::Action { id: "doc:view_json", label: "View Document (JSON)…", accel: None, gate: Some(Gate::Document) },
            Spec::Action { id: "doc:edit_json", label: "Edit Document (JSON)…", accel: None, gate: Some(Gate::Document) },
            Spec::Action { id: "doc:delete", label: "Delete Document", accel: None, gate: Some(Gate::Document) }
        ]),
        ("GridFS", seq![
            Spec::Action { id: "gridfs:open", label: "Open GridFS View", accel: None, gate: Some(Gate::Database) },
            Spec::Separator,
            Spec::Placeholder { id: "gridfs:view_file", label: "View File" },
            Spec::Placeholder { id: "gridfs:rename", label: "Rename File…" },
            Spec::Placeholder { id: "gridfs:meta", label: "Edit Meta Data…" },
            Spec::Placeholder { id: "gridfs:save", label: "Save To Disk…" },
            Spec::Placeholder { id: "gridfs:remove", label: "Remove File(s)" },
            Spec::Placeholder { id: "gridfs:add", label: "Add File(s)…" },
            Spec::Separator,
            Spec::Placeholder { id: "gridfs:copy_bucket", label: "Copy Bucket" },
            Spec::Placeholder { id: "gridfs:drop_bucket", label: "Drop Bucket" }
        ]),
        ("View", seq![
            Spec::Action { id: "view:refresh", label: "Refresh", accel: Some("CmdOrCtrl+R"), gate: Some(Gate::AnyConnection) },
            Spec::Action { id: "view:refresh_document", label: "Refresh Document", accel: None, gate: Some(Gate::Collection) },
            Spec::Separator,
            Spec::Action { id: "view:step_column", label: "Step Into Column", accel: None, gate: Some(Gate::Collection) },
            Spec::Action { id: "view:step_cell", label: "Step Into Cell", accel: None, gate: Some(Gate::Collection) },
            Spec::Action { id: "view:step_out", label: "Step Out", accel: None, gate: Some(Gate::Collection) },
            Spec::Separator,
            Spec::Action { id: "view:tree", label: "Tree View", accel: None, gate: Some(Gate::Collection) },
            Spec::Action { id: "view:table", label: "Table View", accel: None, gate: Some(Gate::Collection) },
            Spec::Action { id: "view:json", label: "JSON View", accel: None, gate: Some(Gate::Collection) },
            Spec::Separator,
            Spec::Action { id: "view:next_tab", label: "Next Tab", accel: None, gate: None },
            Spec::Action { id: "view:prev_tab", label: "Previous Tab", accel: None, gate: None },
            Spec::Action { id: "view:close_tab", label: "Close Tab", accel: None, gate: None },
            Spec::Action { id: "view:close_tab_np", label: "Close Tab (No Prompt)", accel: None, gate: None },
            Spec::Separator,
            Spec::Placeholder { id: "view:split_v", label: "Split Vertically" },
            Spec::Placeholder { id: "view:split_h", label: "Split Horizontally" },
            Spec::Placeholder { id: "view:history", label: "History Manager…" },
            Spec::Action { id: "view:hide_toolbar", label: "Hide Global Toolbar", accel: None, gate: None }
        ]),
        ("Help", seq![
            Spec::Action { id: "help:shortcuts", label: "Keyboard Shortcuts", accel: None, gate: None },
            Spec::Separator,
            Spec::Placeholder { id: "help:license", label: "My License" },
            Spec::Action { id: "help:about", label: "About…", accel: None, gate: None },
            Spec::Placeholder { id: "help:gallery", label: "Feature Gallery" },
            Spec::Action { id: "help:quickstart", label: "Quickstart", accel: None, gate: None },
            Spec::Placeholder { id: "help:whats_new", label: "What's New" },
            Spec::Placeholder { id: "help:updates", label: "Check for Updates…" },
            Spec::Separator,
            Spec::Placeholder { id: "help:support", label: "Contact Support" },
            Spec::Placeholder { id: "help:feature_request", label: "Submit a Feature Request" },
            Spec::Placeholder { id: "help:feedback", label: "Submit Feedback" },
            Spec::Placeholder { id: "help:tutorials", label: "In-app Tutorials" },
            Spec::Placeholder { id: "help:knowledge_base", label: "Knowledge Base" }
        ]),
    ]
}

/// The logical app menus (File..Help) with their gates.
pub fn menus() -> (r: Vec<(&'static str, Vec<Spec>)>)
    ensures
        menus_view(r@) == menu_table(),
{
    let r = vec![
        ("File", vec![
            Spec::Action { id: "file:connect", label: "Connect…", accel: Some("CmdOrCtrl+N"), gate: None },
            Spec::Action { id: "file:add_database", label: "Add Database…", accel: None, gate: Some(Gate::Connection) },
            Spec::Separator,
            Spec::Action { id: "file:intellishell", label: "Open IntelliShell", accel: Some("CmdOrCtrl+L"), gate: Some(Gate::Database) },
            Spec::Action { id: "file:sql", label: "Open SQL", accel: Some("CmdOrCtrl+Shift+L"), gate: None },
            Spec::Placeholder { id: "file:tasks", label: "Open Tasks" },
            Spec::Action { id: "file:search", label: "Search in…", accel: None, gate: Some(Gate::Database) },
            Spec::Placeholder { id: "file:manage_sql", label: "Manage SQL Connections" },
            Spec::Separator,
            Spec::Placeholder { id: "file:load", label: "Load" },
            Spec::Placeholder { id: "file:save", label: "Save" },
            Spec::Separator,
            Spec::Placeholder { id: "file:server_charts", label: "Server Status Charts" },
            Spec::Action { id: "file:server_status", label: "Server Status", accel: None, gate: Some(Gate::Connection) },
            Spec::Action { id: "file:server_build", label: "Server Build Info", accel: None, gate: Some(Gate::Connection) },
            Spec::Separator,
            Spec::Action { id: "file:exit", label: "Exit", accel: Some("CmdOrCtrl+Q"), gate: None }
        ]),
        ("Edit", vec![
            Spec::Action { id: "edit:copy", label: "Copy", accel: None, gate: Some(Gate::Document) },
            Spec::Action { id: "edit:copy_value", label: "Copy Value", accel: None, gate: Some(Gate::DocumentField) },
            Spec::Action { id: "edit:copy_field", label: "Copy Field", accel: None, gate: Some(Gate::DocumentField) },
            Spec::Action { id: "edit:copy_field_path", label: "Copy Field Path", accel: None, gate: Some(Gate::DocumentField) },
            Spec::Action { id: "edit:copy_document", label: "Copy Document", accel: None, gate: Some(Gate::Document) },
            Spec::Action { id: "edit:paste_documents", label: "Paste Document(s)", accel: None, gate: Some(Gate::Collection) },
            Spec::Separator,
            Spec::Action { id: "edit:preferences", label: "Preferences…", accel: Some("CmdOrCtrl+P"), gate: None }
        ]),
        ("Database", vec![
            Spec::Action { id: "db:add_database", label: "Add Database…", accel: None, gate: Some(Gate::Connection) },
            Spec::Placeholder { id: "db:copy_database", label: "Copy Database" },
            Spec::Placeholder { id: "db:copy_all", label: "Copy All Collections/Views/Buckets" },
            Spec::Placeholder { id: "db:paste_database", label: "Paste Database" },
            Spec::Placeholder { id: "db:paste", label: "Paste" },
            Spec::Separator,
            Spec::Placeholder { id: "db:export", label: "Export Collections…" },
            Spec::Placeholder { id: "db:import", label: "Import Collections…" },
            Spec::Separator,
            Spec::Action { id: "db:drop_database", label: "Drop Database", accel: None, gate: Some(Gate::Database) },
            Spec::Separator,
            Spec::Action { id: "db:add_collection", label: "Add Collection…", accel: None, gate: Some(Gate::Database) },
            Spec::Action { id: "db:add_view", label: "Add View…", accel: None, gate: Some(Gate::Database) },
            Spec::Placeholder { id: "db:add_bucket", label: "Add GridFS Bucket…" },
            Spec::Separator,
            Spec::Placeholder { id: "db:manage_users", label: "Manage Users" },
            Spec::Placeholder { id: "db:manage_roles", label: "Manage Roles" },
            Spec::Placeholder { id: "db:functions", label: "Add / Edit Stored Functions" },
            Spec::Separator,
            Spec::Action { id: "db:database_stats", label: "Database Statistics", accel: None, gate: Some(Gate::Database) },
            Spec::Action { id: "db:collection_stats", label: "Collection Statistics", accel: None, gate: Some(Gate::Collection) },
            Spec::Action { id: "db:current_ops", label: "Current Operations", accel: None, gate: Some(Gate::Connection) }
        ]),
        ("Collection", vec![
            Spec::Action { id: "coll:open_tab", label: "Open Collection Tab", accel: Some("F10"), gate: Some(Gate::Connection) },
            Spec::Action { id: "coll:aggregation", label: "Open Aggregation Editor", accel: Some("F4"), gate: Some(Gate::Collection) },
            Spec::Placeholder { id: "coll:mapreduce", label: "Open Map-Reduce" },
            Spec::Separator,
            Spec::Action { id: "coll:insert_document", label: "Insert Document…", accel: None, gate: Some(Gate::Collection) },
            Spec::Action { id: "coll:update_dialog", label: "Update Dialog…", accel: None, gate: Some(Gate::Collection) },
            Spec::Action { id: "coll:delete_dialog", label: "Delete Dialog…", accel: None, gate: Some(Gate::Collection) },
            Spec::Action { id: "coll:vqb", label: "Show Visual Query Builder", accel: Some("CmdOrCtrl+B"), gate: Some(Gate::Collection) },
            Spec::Separator,
            Spec::Action { id: "coll:export", label: "Export…", accel: None, gate: Some(Gate::Collection) },
            Spec::Action { id: "coll:import", label: "Import…", accel: None, gate: Some(Gate::Collection) },
            Spec::Placeholder { id: "coll:copy", label: "Copy Collection" },
            Spec::Separator,
            Spec::Action { id: "coll:add_index", label: "Add Index…", accel: None, gate: Some(Gate::Collection) },
            Spec::Action { id: "coll:validator", label: "Add / Edit Validator…", accel: None, gate: Some(Gate::Collection) },
            Spec::Action { id: "coll:add_view", label: "Add View Here…", accel: None, gate: Some(Gate::Collection) },
            Spec::Action { id: "coll:stats", label: "Collection Stats", accel: None, gate: Some(Gate::Collection) },
            Spec::Action { id: "coll:mask", label: "Mask Collection/View", accel: None, gate: Some(Gate::Collection) },
            Spec::Action { id: "coll:schema", label: "View Schema", accel: None, gate: Some(Gate::Collection) },
            Spec::Placeholder { id: "coll:reschema", label: "Reschema…" },
            Spec::Action { id: "coll:compare", label: "Compare To…", accel: None, gate: Some(Gate::Database) },
            Spec::Separator,
            Spec::Action { id: "coll:rename", label: "Rename Collection…", accel: None, gate: Some(Gate::Collection) },
            Spec::Action { id: "coll:duplicate", label: "Duplicate Collection…", accel: None, gate: Some(Gate::Collection) },
            Spec::Action { id: "coll:clear", label: "Clear Collection", accel: None, gate: Some(Gate::Collection) },
            Spec::Action { id: "coll:drop", label: "Drop Collection…", accel: None, gate: Some(Gate::Collection) }
        ]),
        ("Index", vec![
            Spec::Action { id: "idx:edit", label: "Edit Index…", accel: None, gate: Some(Gate::Index) },
            Spec::Action { id: "idx:view", label: "View Details", accel: None, gate: Some(Gate::Index) },
            Spec::Action { id: "idx:copy", label: "Copy Index", accel: None, gate: Some(Gate::Index) },
            Spec::Action { id: "idx:drop", label: "Drop Index", accel: None, gate: Some(Gate::Index) },
            Spec::Separator,
            Spec::Action { id: "idx:hide", label: "Hide Index", accel: None, gate: Some(Gate::Index) },
            Spec::Action { id: "idx:unhide", label: "Unhide Index", accel: None, gate: Some(Gate::Index) }
        ]),
        ("Document", vec![
            Spec::Action { id: "doc:edit_value", label: "Edit Value / Type…", accel: None, gate: Some(Gate::DocumentField) },
            Spec::Action { id: "doc:remove_field", label: "Remove Field", accel: None, gate: Some(Gate::DocumentField) },
            Spec::Action { id: "doc:rename_field", label: "Rename Field…", accel: None, gate: Some(Gate::DocumentField) },
            Spec::Action { id: "doc:add_field", label: "Add Field / Value…", accel: None, gate: Some(Gate::Document) },
            Spec::Separator,
            Spec::Action { id: "doc:view_json", label: "View Document (JSON)…", accel: None, gate: Some(Gate::Document) },
            Spec::Action { id: "doc:edit_json", label: "Edit Document (JSON)…", accel: None, gate: Some(Gate::Document) },
            Spec::Action { id: "doc:delete", label: "Delete Document", accel: None, gate: Some(Gate::Document) }
        ]),
        ("GridFS", vec![
            Spec::Action { id: "gridfs:open", label: "Open GridFS View", accel: None, gate: Some(Gate::Database) },
            Spec::Separator,
            Spec::Placeholder { id: "gridfs:view_file", label: "View File" },
            Spec::Placeholder { id: "gridfs:rename", label: "Rename File…" },
            Spec::Placeholder { id: "gridfs:meta", label: "Edit Meta Data…" },
            Spec::Placeholder { id: "gridfs:save", label: "Save To Disk…" },
            Spec::Placeholder { id: "gridfs:remove", label: "Remove File(s)" },
            Spec::Placeholder { id: "gridfs:add", label: "Add File(s)…" },
            Spec::Separator,
            Spec::Placeholder { id: "gridfs:copy_bucket", label: "Copy Bucket" },
            Spec::Placeholder { id: "gridfs:drop_bucket", label: "Drop Bucket" }
        ]),
        ("View", vec![
            Spec::Action { id: "view:refresh", label: "Refresh", accel: Some("CmdOrCtrl+R"), gate: Some(Gate::AnyConnection) },
            Spec::Action { id: "view:refresh_document", label: "Refresh Document", accel: None, gate: Some(Gate::Collection) },
            Spec::Separator,
            Spec::Action { id: "view:step_column", label: "Step Into Column", accel: None, gate: Some(Gate::Collection) },
            Spec::Action { id: "view:step_cell", label: "Step Into Cell", accel: None, gate: Some(Gate::Collection) },
            Spec::Action { id: "view:step_out", label: "Step Out", accel: None, gate: Some(Gate::Collection) },
            Spec::Separator,
            Spec::Action { id: "view:tree", label: "Tree View", accel: None, gate: Some(Gate::Collection) },
            Spec::Action { id: "view:table", label: "Table View", accel: None, gate: Some(Gate::Collection) },
            Spec::Action { id: "view:json", label: "JSON View", accel: None, gate: Some(Gate::Collection) },
            Spec::Separator,
            Spec::Action { id: "view:next_tab", label: "Next Tab", accel: None, gate: None },
            Spec::Action { id: "view:prev_tab", label: "Previous Tab", accel: None, gate: None },
            Spec::Action { id: "view:close_tab", label: "Close Tab", accel: None, gate: None },
            Spec::Action { id: "view:close_tab_np", label: "Close Tab (No Prompt)", accel: None, gate: None },
            Spec::Separator,
            Spec::Placeholder { id: "view:split_v", label: "Split Vertically" },
            Spec::Placeholder { id: "view:split_h", label: "Split Horizontally" },
            Spec::Placeholder { id: "view:history", label: "History Manager…" },
            Spec::Action { id: "view:hide_toolbar", label: "Hide Global Toolbar", accel: None, gate: None }
        ]),
        ("Help", vec![
            Spec::Action { id: "help:shortcuts", label: "Keyboard Shortcuts", accel: None, gate: None },
            Spec::Separator,
            Spec::Placeholder { id: "help:license", label: "My License" },
            Spec::Action { id: "help:about", label: "About…", accel: None, gate: None },
            Spec::Placeholder { id: "help:gallery", label: "Feature Gallery" },
            Spec::Action { id: "help:quickstart", label: "Quickstart", accel: None, gate: None },
            Spec::Placeholder { id: "help:whats_new", label: "What's New" },
            Spec::Placeholder { id: "help:updates", label: "Check for Updates…" },
            Spec::Separator,
            Spec::Placeholder { id: "help:support", label: "Contact Support" },
            Spec::Placeholder { id: "help:feature_request", label: "Submit a Feature Request" },
            Spec::Placeholder { id: "help:feedback", label: "Submit Feedback" },
            Spec::Placeholder { id: "help:tutorials", label: "In-app Tutorials" },
            Spec::Placeholder { id: "help:knowledge_base", label: "Knowledge Base" }
        ]),
    ];
    assert(menus_view(r@) =~= menu_table());
    r
}

/// A menu item's starting state: its id and label, whether it is enabled, and its
/// gate.
pub struct ItemState {
    pub id: &'static str,
    pub label: &'static str,
    pub enabled: bool,
    pub gate: Option<Gate>,
}

/// How a row first appears: an action starts enabled exactly when it has no gate (a
/// gated one waits for the frontend's context), a placeholder is present but
/// disabled, and a separator is no item.
pub open spec fn item_state_of(spec: Spec) -> Option<(&'static str, &'static str, bool, Option<Gate>)> {
    match spec {
        Spec::Action { id, label, gate, .. } => Some((id, label, gate is None, gate)),
        Spec::Placeholder { id, label } => Some((id, label, false, None)),
        Spec::Separator => None,
    }
}

/// The state a row's item starts in.
pub fn item_state(spec: &Spec) -> (r: Option<ItemState>)
    ensures
        match r {
            Some(s) => item_state_of(*spec) == Some((s.id, s.label, s.enabled, s.gate)),
            None => item_state_of(*spec) is None,
        },
{
    match spec {
        Spec::Action { id, label, gate, .. } => Some(ItemState { id: *id, label: *label, enabled: gate.is_none(), gate: *gate }),
        Spec::Placeholder { id, label } => Some(ItemState { id: *id, label: *label, enabled: false, gate: None }),
        Spec::Separator => None,
    }
}

/// The gated items of a submenu's rows, with their gates, in row order.
pub open spec fn gated_of(specs: Seq<Spec>) -> Seq<(&'static str, Gate)>
    decreases specs.len(),
{
    if specs.len() == 0 {
        seq![]
    } else {
        let before = gated_of(specs.drop_last());
        match specs.last() {
            Spec::Action { id, gate: Some(g), .. } => before.push((id, g)),
            _ => before,
        }
    }
}

/// The items whose enabled state follows the selection context, in row order; these
/// are the ones `gate_enabled` later decides.
pub fn gated_items(specs: &[Spec]) -> (r: Vec<(&'static str, Gate)>)
    ensures
        r@ == gated_of(specs@),
{
    let mut out: Vec<(&'static str, Gate)> = Vec::new();
    let mut i: usize = 0;
    assert(specs@.take(0) =~= Seq::<Spec>::empty());
    while i < specs.len()
        invariant
            i <= specs@.len(),
            out@ == gated_of(specs@.take(i as int)),
        decreases specs@.len() - i,
    {
        assert(specs@.take(i as int + 1).drop_last() =~= specs@.take(i as int));
        assert(specs@.take(i as int + 1).last() == specs@[i as int]);
        match &specs[i] {
            Spec::Action { id, gate: Some(g), .. } => out.push((*id, *g)),
            _ => {},
        }
        i = i + 1;
    }
    assert(specs@.take(specs@.len() as int) =~= specs@);
    out
}

}
