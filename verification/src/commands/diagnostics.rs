//! The admin commands behind the profiler and server-info panels.

use vstd::prelude::*;
use crate::text::{decimal_string, decimal_text, push_str, str_eq};
use crate::value::{fields_view, single_field, Document, Value, ValueView};

verus! {

/// The `profile` command for a level and slow-operation threshold.
pub open spec fn profile_fields(level: i32, slowms: i32) -> Seq<(Seq<char>, ValueView)> {
    seq![("profile"@, ValueView::Int32(level)), ("slowms"@, ValueView::Int32(slowms))]
}

/// The message for a profiling level other than 0, 1 or 2.
pub open spec fn bad_level_text(level: i32) -> Seq<char> {
    "Invalid profiling level: "@ + decimal_text(level as int) + " (expected 0, 1, or 2)"@
}

/// Build the `profile` admin command for a database; only 0, 1 and 2 are MongoDB
/// profiling levels, and any other level is rejected rather than sent.
pub fn profile_command(level: i32, slowms: i32) -> (r: Result<Document, String>)
    ensures
        match r {
            Ok(doc) => 0 <= level <= 2
                && fields_view(doc@) == profile_fields(level, slowms),
            Err(e) => !(0 <= level <= 2) && e@ == bad_level_text(level),
        },
{
    if 0 <= level && level <= 2 {
        let doc: Document = vec![("profile".to_owned(), Value::Int32(level)), ("slowms".to_owned(), Value::Int32(slowms))];
        proof {
            let v = fields_view(doc@);
            assert(v =~= profile_fields(level, slowms));
        }
        Ok(doc)
    } else {
        let mut msg = "Invalid profiling level: ".to_owned();
        let n = decimal_string(level as i64);
        push_str(&mut msg, n.as_str());
        push_str(&mut msg, " (expected 0, 1, or 2)");
        Err(msg)
    }
}

/// The diagnostic command a server-info kind names: `build`, `host` or `replica`.
pub open spec fn info_key(kind: Seq<char>) -> Option<Seq<char>> {
    if kind == "build"@ {
        Some("buildInfo"@)
    } else if kind == "host"@ {
        Some("hostInfo"@)
    } else if kind == "replica"@ {
        Some("replSetGetStatus"@)
    } else {
        None
    }
}

/// Map a server-info kind to the admin diagnostic command `{ <command>: 1 }`; an
/// unknown kind is rejected rather than sent.
pub fn info_command(kind: &str) -> (r: Result<Value, String>)
    ensures
        match r {
            Ok(cmd) => info_key(kind@) matches Some(key) && cmd@ == ValueView::Document(seq![(key, ValueView::Int32(1))]),
            Err(e) => info_key(kind@) is None && e@ == "Unknown server info kind: "@ + kind@,
        },
{
    let key = if str_eq(kind, "build") {
        "buildInfo"
    } else if str_eq(kind, "host") {
        "hostInfo"
    } else if str_eq(kind, "replica") {
        "replSetGetStatus"
    } else {
        let mut msg = "Unknown server info kind: ".to_owned();
        push_str(&mut msg, kind);
        return Err(msg);
    };
    Ok(single_field(key.to_owned(), Value::Int32(1)))
}

/// The filter for listing captured operations: those that took at least the given
/// milliseconds, or all of them.
pub fn profile_filter(slower_than_ms: Option<i64>) -> (r: Document)
    ensures
        fields_view(r@) == match slower_than_ms {
            Some(ms) => seq![("millis"@, ValueView::Document(seq![("$gte"@, ValueView::Int64(ms))]))],
            None => Seq::<(Seq<char>, ValueView)>::empty(),
        },
{
    match slower_than_ms {
        Some(ms) => {
            let doc: Document = vec![("millis".to_owned(), single_field("$gte".to_owned(), Value::Int64(ms)))];
            proof {
                assert(fields_view(doc@)
                    =~= seq![("millis"@, ValueView::Document(seq![("$gte"@, ValueView::Int64(ms))]))]);
            }
            doc
        },
        None => {
            let doc: Document = Vec::new();
            assert(fields_view(doc@) =~= Seq::<(Seq<char>, ValueView)>::empty());
            doc
        },
    }
}

}
