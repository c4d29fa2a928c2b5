//! Database users and roles: reading `usersInfo` / `rolesInfo` results, and the role
//! documents and commands that create or copy users.

use vstd::prelude::*;
use crate::text::{push_char, push_str, string_of, trim_chars, trimmed, views};
use crate::value::{
    array_field, field_value, fields_view, get_field, lemma_array_view, lemma_document_view, somes, text_field_of,
    text_value, Document, Value, ValueView,
};

verus! {

/// The values of the `Some` entries after one more entry.
pub proof fn lemma_somes_push<T>(s: Seq<Option<T>>, x: Option<T>)
    ensures
        somes(s.push(x)) == somes(s) + match x {
            Some(v) => seq![v],
            None => Seq::<T>::empty(),
        },
{
    assert(s.push(x).drop_last() =~= s);
}

/// A role entry `{ role, db }` shown as `role@db` (an entry without a string `role` is
/// skipped; a missing `db` shows as nothing after the `@`).
pub open spec fn role_label(entry: ValueView) -> Option<Seq<char>> {
    match entry {
        ValueView::Document(rd) => match text_value(field_value(rd, "role"@)) {
            Some(r) => Some(r + "@"@ + match text_value(field_value(rd, "db"@)) {
                Some(d) => d,
                None => Seq::<char>::empty(),
            }),
            None => None,
        },
        _ => None,
    }
}

/// The `role@db` labels of a user document's `roles` array.
pub open spec fn user_roles(user: Seq<(Seq<char>, ValueView)>) -> Seq<Seq<char>> {
    somes(array_field(user, "roles"@).map_values(|e: ValueView| role_label(e)))
}

fn label_of(entry: &Value) -> (r: Option<String>)
    ensures
        match r {
            Some(s) => role_label(entry@) == Some(s@),
            None => role_label(entry@) is None,
        },
{
    match entry {
        Value::Document(rd) => {
            proof {
                lemma_document_view(*rd);
            }
            match text_field_of(rd, "role") {
                Some(role) => {
                    let mut label = role;
                    push_char(&mut label, '@');
                    match text_field_of(rd, "db") {
                        Some(db) => push_str(&mut label, db.as_str()),
                        None => {},
                    }
                    proof {
                        reveal_strlit("@");
                    }
                    Some(label)
                },
                None => None,
            }
        },
        _ => None,
    }
}

/// Extract the role list from a user document's `roles` array into `role@db` strings.
pub fn extract_roles(user: &Document) -> (r: Vec<String>)
    ensures
        views(r@) == user_roles(fields_view(user@)),
{
    let mut roles: Vec<String> = Vec::new();
    match get_field(user, "roles") {
        Some(Value::Array(entries)) => {
            proof {
                lemma_array_view(*entries);
            }
            let ghost iv = entries@.map_values(|v: Value| v@);
            let ghost labels = iv.map_values(|e: ValueView| role_label(e));
            let mut i: usize = 0;
            assert(labels.take(0) =~= Seq::<Option<Seq<char>>>::empty());
            assert(views(roles@) =~= somes(labels.take(0)));
            while i < entries.len()
                invariant
                    i <= entries@.len(),
                    iv == entries@.map_values(|v: Value| v@),
                    labels == iv.map_values(|e: ValueView| role_label(e)),
                    views(roles@) == somes(labels.take(i as int)),
                decreases entries@.len() - i,
            {
                let ghost before = views(roles@);
                let label = label_of(&entries[i]);
                proof {
                    assert(labels.take(i as int + 1) =~= labels.take(i as int).push(labels[i as int]));
                    lemma_somes_push(labels.take(i as int), labels[i as int]);
                }
                match label {
                    Some(l) => {
                        roles.push(l);
                        assert(views(roles@) =~= before + seq![labels[i as int]->Some_0]);
                    },
                    None => {
                        assert(before + Seq::<Seq<char>>::empty() =~= before);
                    },
                }
                i = i + 1;
            }
            assert(labels.take(entries@.len() as int) =~= labels);
        },
        _ => {
            assert(views(roles@) =~= Seq::<Seq<char>>::empty());
        },
    }
    roles
}

}

verus! {

/// The `{ role, db }` document a role entry is recreated as on another server: both
/// fields must be strings, else the entry is skipped.
pub open spec fn role_doc_of(entry: ValueView) -> Option<ValueView> {
    match entry {
        ValueView::Document(rd) => match (text_value(field_value(rd, "role"@)), text_value(field_value(rd, "db"@))) {
            (Some(r), Some(d)) => Some(ValueView::Document(seq![("role"@, ValueView::Text(r)), ("db"@, ValueView::Text(d))])),
            _ => None,
        },
        _ => None,
    }
}

/// A `{ role, db }` document.
fn role_doc(role: String, db: String) -> (r: Value)
    ensures
        r@ == ValueView::Document(seq![("role"@, ValueView::Text(role@)), ("db"@, ValueView::Text(db@))]),
{
    let fields: Document = vec![("role".to_owned(), Value::Text(role)), ("db".to_owned(), Value::Text(db))];
    proof {
        lemma_document_view(fields);
        assert(fields_view(fields@) =~= seq![("role"@, ValueView::Text(role@)), ("db"@, ValueView::Text(db@))]);
    }
    Value::Document(fields)
}

fn role_doc_from(entry: &Value) -> (r: Option<Value>)
    ensures
        match r {
            Some(v) => role_doc_of(entry@) == Some(v@),
            None => role_doc_of(entry@) is None,
        },
{
    match entry {
        Value::Document(rd) => {
            proof {
                lemma_document_view(*rd);
            }
            match (text_field_of(rd, "role"), text_field_of(rd, "db")) {
                (Some(role), Some(db)) => Some(role_doc(role, db)),
                _ => None,
            }
        },
        _ => None,
    }
}

/// The views of values.
pub open spec fn values_view(v: Seq<Value>) -> Seq<ValueView> {
    v.map_values(|x: Value| x@)
}

/// Rebuild the `roles` array (as `[{ role, db }]`) from a source user document,
/// preserving each role's originating database so the grant means the same on the
/// target server.
pub fn role_docs_from_user(user: &Document) -> (r: Vec<Value>)
    ensures
        values_view(r@) == somes(array_field(fields_view(user@), "roles"@).map_values(|e: ValueView| role_doc_of(e))),
{
    let mut docs: Vec<Value> = Vec::new();
    match get_field(user, "roles") {
        Some(Value::Array(entries)) => {
            proof {
                lemma_array_view(*entries);
            }
            let ghost iv = entries@.map_values(|v: Value| v@);
            let ghost picked = iv.map_values(|e: ValueView| role_doc_of(e));
            let mut i: usize = 0;
            assert(picked.take(0) =~= Seq::<Option<ValueView>>::empty());
            assert(values_view(docs@) =~= somes(picked.take(0)));
            while i < entries.len()
                invariant
                    i <= entries@.len(),
                    iv == entries@.map_values(|v: Value| v@),
                    picked == iv.map_values(|e: ValueView| role_doc_of(e)),
                    values_view(docs@) == somes(picked.take(i as int)),
                decreases entries@.len() - i,
            {
                let ghost before = values_view(docs@);
                let d = role_doc_from(&entries[i]);
                proof {
                    assert(picked.take(i as int + 1) =~= picked.take(i as int).push(picked[i as int]));
                    lemma_somes_push(picked.take(i as int), picked[i as int]);
                }
                match d {
                    Some(v) => {
                        docs.push(v);
                        assert(values_view(docs@) =~= before + seq![picked[i as int]->Some_0]);
                    },
                    None => {
                        assert(before + Seq::<ValueView>::empty() =~= before);
                    },
                }
                i = i + 1;
            }
            assert(picked.take(entries@.len() as int) =~= picked);
        },
        _ => {
            assert(values_view(docs@) =~= Seq::<ValueView>::empty());
        },
    }
    docs
}

/// The name of a role entry of a `rolesInfo` result, when it has a string `role`.
pub open spec fn role_name_of(entry: ValueView) -> Option<Seq<char>> {
    match entry {
        ValueView::Document(rd) => text_value(field_value(rd, "role"@)),
        _ => None,
    }
}

fn role_name_from(entry: &Value) -> (r: Option<String>)
    ensures
        match r {
            Some(s) => role_name_of(entry@) == Some(s@),
            None => role_name_of(entry@) is None,
        },
{
    match entry {
        Value::Document(rd) => {
            proof {
                lemma_document_view(*rd);
            }
            text_field_of(rd, "role")
        },
        _ => None,
    }
}

/// The role names listed in a `rolesInfo` result.
pub fn role_names(result: &Document) -> (r: Vec<String>)
    ensures
        views(r@) == somes(array_field(fields_view(result@), "roles"@).map_values(|e: ValueView| role_name_of(e))),
{
    let mut names: Vec<String> = Vec::new();
    match get_field(result, "roles") {
        Some(Value::Array(entries)) => {
            proof {
                lemma_array_view(*entries);
            }
            let ghost iv = entries@.map_values(|v: Value| v@);
            let ghost picked = iv.map_values(|e: ValueView| role_name_of(e));
            let mut i: usize = 0;
            assert(picked.take(0) =~= Seq::<Option<Seq<char>>>::empty());
            assert(views(names@) =~= somes(picked.take(0)));
            while i < entries.len()
                invariant
                    i <= entries@.len(),
                    iv == entries@.map_values(|v: Value| v@),
                    picked == iv.map_values(|e: ValueView| role_name_of(e)),
                    views(names@) == somes(picked.take(i as int)),
                decreases entries@.len() - i,
            {
                let ghost before = views(names@);
                let n = role_name_from(&entries[i]);
                proof {
                    assert(picked.take(i as int + 1) =~= picked.take(i as int).push(picked[i as int]));
                    lemma_somes_push(picked.take(i as int), picked[i as int]);
                }
                match n {
                    Some(v) => {
                        names.push(v);
                        assert(views(names@) =~= before + seq![picked[i as int]->Some_0]);
                    },
                    None => {
                        assert(before + Seq::<Seq<char>>::empty() =~= before);
                    },
                }
                i = i + 1;
            }
            assert(picked.take(entries@.len() as int) =~= picked);
        },
        _ => {
            assert(views(names@) =~= Seq::<Seq<char>>::empty());
        },
    }
    names
}

}

verus! {

/// A database user from `usersInfo`: name, database and `role@db` labels.
#[derive(Debug)]
pub struct UserInfo {
    pub user: String,
    pub db: String,
    pub roles: Vec<String>,
}

/// The user an entry of `usersInfo` describes: entries without a string `user` are
/// skipped, and a missing `db` is the database asked about.
pub open spec fn user_of(entry: ValueView, database: Seq<char>) -> Option<(Seq<char>, Seq<char>, Seq<Seq<char>>)> {
    match entry {
        ValueView::Document(ud) => match text_value(field_value(ud, "user"@)) {
            Some(u) => Some((u, match text_value(field_value(ud, "db"@)) { Some(d) => d, None => database }, user_roles(ud))),
            None => None,
        },
        _ => None,
    }
}

/// The users held in a vector.
pub open spec fn users_view(v: Seq<UserInfo>) -> Seq<(Seq<char>, Seq<char>, Seq<Seq<char>>)> {
    v.map_values(|u: UserInfo| (u.user@, u.db@, views(u.roles@)))
}

fn user_from(entry: &Value, database: &str) -> (r: Option<UserInfo>)
    ensures
        match r {
            Some(u) => user_of(entry@, database@) == Some((u.user@, u.db@, views(u.roles@))),
            None => user_of(entry@, database@) is None,
        },
{
    match entry {
        Value::Document(ud) => {
            proof {
                lemma_document_view(*ud);
            }
            match text_field_of(ud, "user") {
                Some(user) => {
                    let db = match text_field_of(ud, "db") {
                        Some(d) => d,
                        None => database.to_owned(),
                    };
                    Some(UserInfo { user, db, roles: extract_roles(ud) })
                },
                None => None,
            }
        },
        _ => None,
    }
}

/// The users a `usersInfo` result lists for `database`.
pub fn users_from_info(result: &Document, database: &str) -> (r: Vec<UserInfo>)
    ensures
        users_view(r@) == somes(array_field(fields_view(result@), "users"@).map_values(|e: ValueView| user_of(e, database@))),
{
    let mut users: Vec<UserInfo> = Vec::new();
    match get_field(result, "users") {
        Some(Value::Array(entries)) => {
            proof {
                lemma_array_view(*entries);
            }
            let ghost iv = entries@.map_values(|v: Value| v@);
            let ghost picked = iv.map_values(|e: ValueView| user_of(e, database@));
            let mut i: usize = 0;
            assert(picked.take(0) =~= Seq::<Option<(Seq<char>, Seq<char>, Seq<Seq<char>>)>>::empty());
            assert(users_view(users@) =~= somes(picked.take(0)));
            while i < entries.len()
                invariant
                    i <= entries@.len(),
                    iv == entries@.map_values(|v: Value| v@),
                    picked == iv.map_values(|e: ValueView| user_of(e, database@)),
                    users_view(users@) == somes(picked.take(i as int)),
                decreases entries@.len() - i,
            {
                let ghost before = users_view(users@);
                let u = user_from(&entries[i], database);
                proof {
                    assert(picked.take(i as int + 1) =~= picked.take(i as int).push(picked[i as int]));
                    lemma_somes_push(picked.take(i as int), picked[i as int]);
                }
                match u {
                    Some(v) => {
                        users.push(v);
                        assert(users_view(users@) =~= before + seq![picked[i as int]->Some_0]);
                    },
                    None => {
                        assert(before + Seq::<(Seq<char>, Seq<char>, Seq<Seq<char>>)>::empty() =~= before);
                    },
                }
                i = i + 1;
            }
            assert(picked.take(entries@.len() as int) =~= picked);
        },
        _ => {
            assert(users_view(users@) =~= Seq::<(Seq<char>, Seq<char>, Seq<Seq<char>>)>::empty());
        },
    }
    users
}

/// The parts of `s` before and after its first `c`, if it has one.
pub open spec fn split_first(s: Seq<char>, c: char) -> Option<(Seq<char>, Seq<char>)> {
    if exists|i: int| 0 <= i < s.len() && s[i] == c {
        let i = choose|i: int| 0 <= i < s.len() && s[i] == c && forall|j: int| 0 <= j < i ==> s[j] != c;
        Some((s.take(i), s.skip(i + 1)))
    } else {
        None
    }
}

/// The role document a requested role names: `role@db`, or a bare role granted on
/// `database`; a blank request names none. Surrounding white space is ignored.
pub open spec fn requested_role(request: Seq<char>, database: Seq<char>) -> Option<ValueView> {
    let t = trimmed(request);
    if t.len() == 0 {
        None
    } else {
        let (name, db) = match split_first(t, '@') {
            Some(parts) => parts,
            None => (t, database),
        };
        Some(ValueView::Document(seq![("role"@, ValueView::Text(name)), ("db"@, ValueView::Text(db))]))
    }
}

fn role_doc_for(request: &str, database: &str) -> (r: Option<Value>)
    ensures
        match r {
            Some(v) => requested_role(request@, database@) == Some(v@),
            None => requested_role(request@, database@) is None,
        },
{
    let t = trim_chars(request);
    if t.len() == 0 {
        return None;
    }
    let mut i: usize = 0;
    while i < t.len() && t[i] != '@'
        invariant
            i <= t@.len(),
            forall|j: int| 0 <= j < i ==> t@[j] != '@',
        decreases t@.len() - i,
    {
        i = i + 1;
    }
    let ghost s = trimmed(request@);
    if i < t.len() {
        let mut name: Vec<char> = Vec::new();
        let mut k: usize = 0;
        while k < i
            invariant
                k <= i < t@.len(),
                name@ == t@.take(k as int),
            decreases i - k,
        {
            name.push(t[k]);
            assert(name@ =~= t@.take(k as int + 1));
            k = k + 1;
        }
        let mut db: Vec<char> = Vec::new();
        let mut k: usize = i + 1;
        while k < t.len()
            invariant
                i < k <= t@.len(),
                db@ == t@.subrange(i + 1, k as int),
            decreases t@.len() - k,
        {
            db.push(t[k]);
            assert(db@ =~= t@.subrange(i + 1, k as int + 1));
            k = k + 1;
        }
        proof {
            assert(t@[i as int] == '@');
            let c = choose|c: int| 0 <= c < s.len() && s[c] == '@' && forall|j: int| 0 <= j < c ==> s[j] != '@';
            assert(s[i as int] == '@' && forall|j: int| 0 <= j < i ==> s[j] != '@');
            if c < i {
                assert(s[c] != '@');
            }
            if c > i {
                assert(s[i as int] != '@');
            }
            assert(c == i);
            assert(db@ =~= s.skip(i + 1));
        }
        Some(role_doc(string_of(name.as_slice()), string_of(db.as_slice())))
    } else {
        proof {
            assert(!(exists|j: int| 0 <= j < s.len() && s[j] == '@'));
        }
        Some(role_doc(string_of(t.as_slice()), database.to_owned()))
    }
}

/// The role documents for the roles a new user is given, blank requests skipped.
pub fn requested_role_docs(roles: &Vec<String>, database: &str) -> (r: Vec<Value>)
    ensures
        values_view(r@) == somes(views(roles@).map_values(|q: Seq<char>| requested_role(q, database@))),
{
    let ghost picked = views(roles@).map_values(|q: Seq<char>| requested_role(q, database@));
    let mut docs: Vec<Value> = Vec::new();
    let mut i: usize = 0;
    assert(picked.take(0) =~= Seq::<Option<ValueView>>::empty());
    assert(values_view(docs@) =~= somes(picked.take(0)));
    while i < roles.len()
        invariant
            i <= roles@.len(),
            picked == views(roles@).map_values(|q: Seq<char>| requested_role(q, database@)),
            values_view(docs@) == somes(picked.take(i as int)),
        decreases roles@.len() - i,
    {
        let ghost before = values_view(docs@);
        let d = role_doc_for(roles[i].as_str(), database);
        proof {
            assert(picked[i as int] == requested_role(roles@[i as int]@, database@));
            assert(picked.take(i as int + 1) =~= picked.take(i as int).push(picked[i as int]));
            lemma_somes_push(picked.take(i as int), picked[i as int]);
        }
        match d {
            Some(v) => {
                docs.push(v);
                assert(values_view(docs@) =~= before + seq![picked[i as int]->Some_0]);
            },
            None => {
                assert(before + Seq::<ValueView>::empty() =~= before);
            },
        }
        i = i + 1;
    }
    assert(picked.take(roles@.len() as int) =~= picked);
    docs
}

/// The `createUser` command for a user, password and role documents.
pub fn create_user_command(username: String, password: String, roles: Vec<Value>) -> (r: Document)
    ensures
        fields_view(r@) == seq![
            ("createUser"@, ValueView::Text(username@)),
            ("pwd"@, ValueView::Text(password@)),
            ("roles"@, ValueView::Array(values_view(roles@))),
        ],
{
    let ghost rv = values_view(roles@);
    let ghost (u, p) = (username@, password@);
    proof {
        lemma_array_view(roles);
    }
    let doc: Document = vec![
        ("createUser".to_owned(), Value::Text(username)),
        ("pwd".to_owned(), Value::Text(password)),
        ("roles".to_owned(), Value::Array(roles)),
    ];
    assert(fields_view(doc@) =~= seq![("createUser"@, ValueView::Text(u)), ("pwd"@, ValueView::Text(p)), ("roles"@, ValueView::Array(rv))]);
    doc
}

/// The outcome of copying one user to the target server.
#[derive(Debug)]
pub struct CopiedUser {
    pub user: String,
    pub roles: Vec<String>,
    pub status: String,
    pub temp_password: Option<String>,
    pub message: Option<String>,
}

/// Report one copied user: `created` with the temporary password it was given, or
/// `error` with the server's message.
pub fn copied_user(user: String, roles: Vec<String>, outcome: Result<String, String>) -> (r: CopiedUser)
    ensures
        r.user == user,
        r.roles == roles,
        match outcome {
            Ok(pwd) => r.status@ == "created"@ && r.temp_password == Some(pwd) && r.message is None,
            Err(msg) => r.status@ == "error"@ && r.temp_password is None && r.message == Some(msg),
        },
{
    match outcome {
        Ok(pwd) => CopiedUser { user, roles, status: "created".to_owned(), temp_password: Some(pwd), message: None },
        Err(msg) => CopiedUser { user, roles, status: "error".to_owned(), temp_password: None, message: Some(msg) },
    }
}

}

verus! {

/// What copying one source user takes: its name, its `role@db` labels for display and
/// the role documents it is recreated with.
#[derive(Debug)]
pub struct CopyPlan {
    pub user: String,
    pub roles: Vec<String>,
    pub role_docs: Vec<Value>,
}

/// The copy plan of a `usersInfo` entry; entries without a string `user` are skipped.
pub open spec fn plan_of(entry: ValueView) -> Option<(Seq<char>, Seq<Seq<char>>, Seq<ValueView>)> {
    match entry {
        ValueView::Document(ud) => match text_value(field_value(ud, "user"@)) {
            Some(u) => Some((u, user_roles(ud), somes(array_field(ud, "roles"@).map_values(|e: ValueView| role_doc_of(e))))),
            None => None,
        },
        _ => None,
    }
}

/// The plans held in a vector.
pub open spec fn plans_view(v: Seq<CopyPlan>) -> Seq<(Seq<char>, Seq<Seq<char>>, Seq<ValueView>)> {
    v.map_values(|p: CopyPlan| (p.user@, views(p.roles@), values_view(p.role_docs@)))
}

fn plan_from(entry: &Value) -> (r: Option<CopyPlan>)
    ensures
        match r {
            Some(p) => plan_of(entry@) == Some((p.user@, views(p.roles@), values_view(p.role_docs@))),
            None => plan_of(entry@) is None,
        },
{
    match entry {
        Value::Document(ud) => {
            proof {
                lemma_document_view(*ud);
            }
            match text_field_of(ud, "user") {
                Some(user) => Some(CopyPlan { user, roles: extract_roles(ud), role_docs: role_docs_from_user(ud) }),
                None => None,
            }
        },
        _ => None,
    }
}

/// The users of a `usersInfo` result to recreate on another server, in order.
pub fn copy_plans(result: &Document) -> (r: Vec<CopyPlan>)
    ensures
        plans_view(r@) == somes(array_field(fields_view(result@), "users"@).map_values(|e: ValueView| plan_of(e))),
{
    let mut plans: Vec<CopyPlan> = Vec::new();
    match get_field(result, "users") {
        Some(Value::Array(entries)) => {
            proof {
                lemma_array_view(*entries);
            }
            let ghost iv = entries@.map_values(|v: Value| v@);
            let ghost picked = iv.map_values(|e: ValueView| plan_of(e));
            let mut i: usize = 0;
            assert(picked.take(0) =~= Seq::<Option<(Seq<char>, Seq<Seq<char>>, Seq<ValueView>)>>::empty());
            assert(plans_view(plans@) =~= somes(picked.take(0)));
            while i < entries.len()
                invariant
                    i <= entries@.len(),
                    iv == entries@.map_values(|v: Value| v@),
                    picked == iv.map_values(|e: ValueView| plan_of(e)),
                    plans_view(plans@) == somes(picked.take(i as int)),
                decreases entries@.len() - i,
            {
                let ghost before = plans_view(plans@);
                let p = plan_from(&entries[i]);
                proof {
                    assert(picked.take(i as int + 1) =~= picked.take(i as int).push(picked[i as int]));
                    lemma_somes_push(picked.take(i as int), picked[i as int]);
                }
                match p {
                    Some(v) => {
                        plans.push(v);
                        assert(plans_view(plans@) =~= before + seq![picked[i as int]->Some_0]);
                    },
                    None => {
                        assert(before + Seq::<(Seq<char>, Seq<Seq<char>>, Seq<ValueView>)>::empty() =~= before);
                    },
                }
                i = i + 1;
            }
            assert(picked.take(entries@.len() as int) =~= picked);
        },
        _ => {
            assert(plans_view(plans@) =~= Seq::<(Seq<char>, Seq<Seq<char>>, Seq<ValueView>)>::empty());
        },
    }
    plans
}

}
