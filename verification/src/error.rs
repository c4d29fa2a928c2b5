//! Error categories and the text shown for server-side write failures.

use vstd::prelude::*;
use crate::text::{natural_string, decimal_string, decimal_text, join_strings, join_with, push_str, views, contains_string};

verus! {

/// The errors the library's own logic can report, each with a readable message.
#[derive(Debug)]
pub enum AppError {
    Unreachable { address: String, reason: String },
    UnknownConnection(String),
    ReadOnly { name: String },
    Bson(String),
    Keychain(String),
    Shell(String),
    Ssh(String),
    Sql(String),
    Validation(String),
}

/// The stable category of an error, as the frontend branches on it.
pub open spec fn error_code(e: AppError) -> &'static str {
    match e {
        AppError::Unreachable { .. } => "unreachable",
        AppError::UnknownConnection(_) => "unknown_connection",
        AppError::ReadOnly { .. } => "read_only",
        AppError::Bson(_) => "bson",
        AppError::Keychain(_) => "keychain",
        AppError::Shell(_) => "shell",
        AppError::Ssh(_) => "ssh",
        AppError::Sql(_) => "sql",
        AppError::Validation(_) => "validation",
    }
}

impl AppError {
    /// Stable category for logging and the structured-error wire format.
    pub fn code(&self) -> (r: &'static str)
        ensures
            r == error_code(*self),
    {
        match self {
            AppError::Unreachable { .. } => "unreachable",
            AppError::UnknownConnection(_) => "unknown_connection",
            AppError::ReadOnly { .. } => "read_only",
            AppError::Bson(_) => "bson",
            AppError::Keychain(_) => "keychain",
            AppError::Shell(_) => "shell",
            AppError::Ssh(_) => "ssh",
            AppError::Sql(_) => "sql",
            AppError::Validation(_) => "validation",
        }
    }
}

/// The message an error shows the user.
pub open spec fn error_text(e: AppError) -> Seq<char> {
    match e {
        AppError::Unreachable { address, reason } => "Cannot reach "@ + address@ + ": "@ + reason@,
        AppError::UnknownConnection(v) => "Unknown connection: "@ + v@,
        AppError::ReadOnly { name } => "This connection is read-only. Writes are disabled for \""@ + name@ + "\"."@,
        AppError::Bson(v) => "BSON error: "@ + v@,
        AppError::Keychain(v) => "Keychain error: "@ + v@,
        AppError::Shell(v) => "Shell error: "@ + v@,
        AppError::Ssh(v) => "SSH tunnel error: "@ + v@,
        AppError::Sql(v) => "SQL error: "@ + v@,
        AppError::Validation(v) => v@,
    }
}

impl AppError {
    /// The message the error shows the user.
    pub fn message(&self) -> (r: String)
        ensures
            r@ == error_text(*self),
    {
        let (prefix, middle, rest, suffix): (&str, &String, Option<(&str, &String)>, &str) = match self {
            AppError::Unreachable { address, reason } => ("Cannot reach ", address, Some((": ", reason)), ""),
            AppError::UnknownConnection(v) => ("Unknown connection: ", v, None, ""),
            AppError::ReadOnly { name } => ("This connection is read-only. Writes are disabled for \"", name, None, "\"."),
            AppError::Bson(v) => ("BSON error: ", v, None, ""),
            AppError::Keychain(v) => ("Keychain error: ", v, None, ""),
            AppError::Shell(v) => ("Shell error: ", v, None, ""),
            AppError::Ssh(v) => ("SSH tunnel error: ", v, None, ""),
            AppError::Sql(v) => ("SQL error: ", v, None, ""),
            AppError::Validation(v) => ("", v, None, ""),
        };
        let mut out = prefix.to_owned();
        crate::text::push_str(&mut out, middle.as_str());
        match rest {
            Some((sep, more)) => {
                crate::text::push_str(&mut out, sep);
                crate::text::push_str(&mut out, more.as_str());
            },
            None => {},
        }
        crate::text::push_str(&mut out, suffix);
        proof {
            reveal_strlit("");
        }
        assert(out@ =~= error_text(*self));
        out
    }
}

/// The text of one write error: the server's message, or a code-only fallback.
pub open spec fn write_message_text(code: int, message: Seq<char>) -> Seq<char> {
    if message.len() == 0 {
        "Write error (code "@ + decimal_text(code) + ")"@
    } else {
        message
    }
}

/// One write error as text: the server's own message, or a code-only fallback if the
/// server sent none.
pub fn write_message(code: i32, message: &str) -> (r: String)
    ensures
        r@ == write_message_text(code as int, message@),
{
    if message.is_empty() {
        let mut out = "Write error (code ".to_owned();
        let digits = decimal_string(code as i64);
        push_str(&mut out, digits.as_str());
        push_str(&mut out, ")");
        out
    } else {
        message.to_owned()
    }
}

/// The distinct elements of `s`, each at its first occurrence, in order.
pub open spec fn dedup_first(s: Seq<Seq<char>>) -> Seq<Seq<char>>
    decreases s.len(),
{
    if s.len() == 0 {
        seq![]
    } else {
        let d = dedup_first(s.drop_last());
        if d.contains(s.last()) { d } else { d.push(s.last()) }
    }
}

/// How many distinct messages are shown before the rest are summarised.
pub const MAX_SHOWN: usize = 3;

/// The joined text for a list of write-error messages: duplicates dropped, at most
/// `MAX_SHOWN` shown, `None` when there are none.
pub open spec fn joined_write_messages(parts: Seq<Seq<char>>) -> Option<Seq<char>> {
    let unique = dedup_first(parts);
    if unique.len() == 0 {
        None
    } else if unique.len() <= MAX_SHOWN {
        Some(join_with(unique, "; "@))
    } else {
        Some(join_with(unique.take(MAX_SHOWN as int), "; "@) + " (and "@
            + decimal_text(unique.len() - MAX_SHOWN) + " more)"@)
    }
}

/// Join distinct write-error messages, capping the count so a large unordered insert
/// failure doesn't produce a wall of near-identical lines. `None` when there were no
/// messages.
pub fn join_write_messages(parts: Vec<String>) -> (r: Option<String>)
    ensures
        match r {
            Some(text) => joined_write_messages(views(parts@)) == Some(text@),
            None => joined_write_messages(views(parts@)) is None,
        },
{
    let mut unique: Vec<String> = Vec::new();
    let mut i: usize = 0;
    while i < parts.len()
        invariant
            i <= parts@.len(),
            views(unique@) == dedup_first(views(parts@).take(i as int)),
        decreases parts@.len() - i,
    {
        let part = &parts[i];
        assert(views(parts@).take(i as int + 1).drop_last() =~= views(parts@).take(i as int));
        assert(views(parts@).take(i as int + 1).last() == part@);
        if !contains_string(unique.as_slice(), part) {
            unique.push(part.clone());
            assert(views(unique@) =~= dedup_first(views(parts@).take(i as int)).push(part@));
        }
        i = i + 1;
    }
    assert(views(parts@).take(parts@.len() as int) =~= views(parts@));
    if unique.len() == 0 {
        return None;
    }
    if unique.len() <= MAX_SHOWN {
        Some(join_strings(unique.as_slice(), "; "))
    } else {
        let shown_parts: Vec<String> = vec![unique[0].clone(), unique[1].clone(), unique[2].clone()];
        assert(views(shown_parts@) =~= views(unique@).take(3));
        let mut shown = join_strings(shown_parts.as_slice(), "; ");
        push_str(&mut shown, " (and ");
        let rest = natural_string((unique.len() - MAX_SHOWN) as u128);
        push_str(&mut shown, rest.as_str());
        push_str(&mut shown, " more)");
        Some(shown)
    }
}

}

verus! {

/// The kinds of driver failure the messages and codes tell apart.
#[derive(Clone, Copy, Debug, PartialEq, Eq)]
pub enum MongoErrorKind {
    Authentication,
    InvalidTls,
    Network,
    Write,
    InsertMany,
    Other,
}

/// A MongoDB driver failure as the logic reads it: its kind, the write errors it
/// carries as (code, message), its write-concern error if any, and the driver's own
/// `Display` text.
#[derive(Debug)]
pub struct MongoFailure {
    pub kind: MongoErrorKind,
    pub write_errors: Vec<(i32, String)>,
    pub concern_error: Option<(i32, String)>,
    pub display: String,
}

/// The stable code a driver failure is reported under.
pub open spec fn mongo_code_of(kind: MongoErrorKind) -> &'static str {
    match kind {
        MongoErrorKind::Authentication => "auth",
        MongoErrorKind::InvalidTls => "tls",
        MongoErrorKind::Network => "network",
        MongoErrorKind::Write | MongoErrorKind::InsertMany => "write",
        MongoErrorKind::Other => "mongo",
    }
}

/// Sub-categorize a MongoDB error into a stable code the frontend branches on:
/// auth, TLS and network failures drive connection hints; write and insert failures
/// are the user's own data and get `write`; everything else stays `mongo`.
pub fn mongo_code(e: &MongoFailure) -> (r: &'static str)
    ensures
        r == mongo_code_of(e.kind),
{
    match e.kind {
        MongoErrorKind::Authentication => "auth",
        MongoErrorKind::InvalidTls => "tls",
        MongoErrorKind::Network => "network",
        MongoErrorKind::Write | MongoErrorKind::InsertMany => "write",
        MongoErrorKind::Other => "mongo",
    }
}

/// The texts of a failure's write errors and write-concern error, in order.
pub open spec fn failure_parts(errors: Seq<(i32, String)>, concern: Option<(i32, String)>) -> Seq<Seq<char>> {
    errors.map_values(|w: (i32, String)| write_message_text(w.0 as int, w.1@)) + match concern {
        Some(c) => seq![write_message_text(c.0 as int, c.1@)],
        None => Seq::<Seq<char>>::empty(),
    }
}

/// The readable message of a driver failure: for an insert failure its distinct write
/// messages joined (the driver's text when there are none); for a write failure its one
/// error's message (write error first, else the write-concern error); otherwise the
/// driver's own text.
pub open spec fn mongo_message_text(e: MongoFailure) -> Seq<char> {
    match e.kind {
        MongoErrorKind::InsertMany => match joined_write_messages(failure_parts(e.write_errors@, e.concern_error)) {
            Some(m) => m,
            None => e.display@,
        },
        MongoErrorKind::Write => if e.write_errors@.len() > 0 {
            write_message_text(e.write_errors@[0].0 as int, e.write_errors@[0].1@)
        } else {
            match e.concern_error {
                Some(c) => write_message_text(c.0 as int, c.1@),
                None => e.display@,
            }
        },
        _ => e.display@,
    }
}

/// Turn a MongoDB driver failure into a concise, human-readable message, pulling the
/// server's own write messages out of write and insert failures.
pub fn mongo_message(e: &MongoFailure) -> (r: String)
    ensures
        r@ == mongo_message_text(*e),
{
    match e.kind {
        MongoErrorKind::InsertMany => {
            let mut parts: Vec<String> = Vec::new();
            let mut i: usize = 0;
            let ghost texts = e.write_errors@.map_values(|w: (i32, String)| write_message_text(w.0 as int, w.1@));
            while i < e.write_errors.len()
                invariant
                    i <= e.write_errors@.len(),
                    texts == e.write_errors@.map_values(|w: (i32, String)| write_message_text(w.0 as int, w.1@)),
                    views(parts@) == texts.take(i as int),
                decreases e.write_errors@.len() - i,
            {
                let m = write_message(e.write_errors[i].0, e.write_errors[i].1.as_str());
                assert(texts[i as int] == m@);
                let ghost prev = parts@;
                let ghost mv = m@;
                parts.push(m);
                assert(parts@ == prev.push(m));
                assert(views(parts@) =~= views(prev).push(mv));
                assert(texts.take(i as int + 1) =~= texts.take(i as int).push(mv));
                i = i + 1;
            }
            assert(texts.take(e.write_errors@.len() as int) =~= texts);
            let ghost before = views(parts@);
            match &e.concern_error {
                Some(c) => {
                    let m = write_message(c.0, c.1.as_str());
                    parts.push(m);
                    assert(views(parts@) =~= before + seq![write_message_text(c.0 as int, c.1@)]);
                },
                None => {
                    assert(views(parts@) =~= before + Seq::<Seq<char>>::empty());
                },
            }
            match join_write_messages(parts) {
                Some(m) => m,
                None => e.display.clone(),
            }
        },
        MongoErrorKind::Write => {
            if e.write_errors.len() > 0 {
                write_message(e.write_errors[0].0, e.write_errors[0].1.as_str())
            } else {
                match &e.concern_error {
                    Some(c) => write_message(c.0, c.1.as_str()),
                    None => e.display.clone(),
                }
            }
        },
        _ => e.display.clone(),
    }
}

}
