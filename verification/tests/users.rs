use ozendb::commands::users::{
    copied_user, create_user_command, extract_roles, requested_role_docs, role_docs_from_user, role_names,
    users_from_info,
};
use ozendb::value::{get_field, Document, Value};

fn doc(fields: Vec<(&str, Value)>) -> Document {
    fields.into_iter().map(|(k, v)| (k.to_string(), v)).collect()
}

fn text(s: &str) -> Value {
    Value::Text(s.to_string())
}

fn role(r: &str, db: Option<&str>) -> Value {
    let mut f = vec![("role", text(r))];
    if let Some(d) = db {
        f.push(("db", text(d)));
    }
    Value::Document(doc(f))
}

fn role_pair(v: &Value) -> (String, String) {
    match v {
        Value::Document(d) => match (get_field(d, "role"), get_field(d, "db")) {
            (Some(Value::Text(r)), Some(Value::Text(db))) => (r.clone(), db.clone()),
            _ => panic!("role document without role/db"),
        },
        _ => panic!("not a document"),
    }
}

#[test]
fn roles_read_as_role_at_db() {
    let user = doc(vec![
        ("user", text("ann")),
        ("roles", Value::Array(vec![role("read", Some("app")), role("dbAdmin", None), Value::Int32(3), Value::Document(doc(vec![("db", text("x"))]))])),
    ]);
    assert_eq!(extract_roles(&user), vec!["read@app".to_string(), "dbAdmin@".to_string()]);
    assert!(extract_roles(&doc(vec![("user", text("bob"))])).is_empty());
}

#[test]
fn copied_roles_need_role_and_db() {
    let user = doc(vec![("roles", Value::Array(vec![role("read", Some("app")), role("orphan", None)]))]);
    let docs = role_docs_from_user(&user);
    assert_eq!(docs.len(), 1);
    assert_eq!(role_pair(&docs[0]), ("read".to_string(), "app".to_string()));
}

#[test]
fn users_info_defaults_db_and_skips_nameless_entries() {
    let result = doc(vec![(
        "users",
        Value::Array(vec![
            Value::Document(doc(vec![("user", text("ann")), ("db", text("admin")), ("roles", Value::Array(vec![role("root", Some("admin"))]))])),
            Value::Document(doc(vec![("user", text("bob"))])),
            Value::Document(doc(vec![("db", text("x"))])),
        ]),
    )]);
    let users = users_from_info(&result, "app");
    assert_eq!(users.len(), 2);
    assert_eq!(users[0].user, "ann");
    assert_eq!(users[0].db, "admin");
    assert_eq!(users[0].roles, vec!["root@admin".to_string()]);
    assert_eq!(users[1].db, "app");
    assert!(users[1].roles.is_empty());
}

#[test]
fn role_names_from_roles_info() {
    let result = doc(vec![("roles", Value::Array(vec![role("auditor", Some("app")), Value::Null]))]);
    assert_eq!(role_names(&result), vec!["auditor".to_string()]);
}

#[test]
fn requested_roles_split_at_the_first_at_sign() {
    let roles = vec![" read ".to_string(), "".to_string(), "write@other".to_string(), "a@b@c".to_string()];
    let docs = requested_role_docs(&roles, "app");
    let pairs: Vec<(String, String)> = docs.iter().map(role_pair).collect();
    assert_eq!(
        pairs,
        vec![
            ("read".to_string(), "app".to_string()),
            ("write".to_string(), "other".to_string()),
            ("a".to_string(), "b@c".to_string()),
        ]
    );
}

#[test]
fn create_user_command_layout() {
    let cmd = create_user_command("ann".to_string(), "pw".to_string(), vec![role("read", Some("app"))]);
    let keys: Vec<&str> = cmd.iter().map(|(k, _)| k.as_str()).collect();
    assert_eq!(keys, vec!["createUser", "pwd", "roles"]);
    assert!(matches!(&cmd[0].1, Value::Text(u) if u == "ann"));
}

#[test]
fn copied_user_reports_outcome() {
    let ok = copied_user("ann".to_string(), vec!["read@app".to_string()], Ok("Tmp-1".to_string()));
    assert_eq!(ok.status, "created");
    assert_eq!(ok.temp_password.as_deref(), Some("Tmp-1"));
    assert!(ok.message.is_none());
    let err = copied_user("bob".to_string(), vec![], Err("exists".to_string()));
    assert_eq!(err.status, "error");
    assert!(err.temp_password.is_none());
    assert_eq!(err.message.as_deref(), Some("exists"));
}
