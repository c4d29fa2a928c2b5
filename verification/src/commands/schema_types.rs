//! The BSON type names of schema inference, and what keeps them apart.

use vstd::prelude::*;
use crate::commands::schema::kind_of;
use crate::value::ValueView;

verus! {

/// Which BSON type a value holds, as a number per type of the model.
pub open spec fn type_index(v: ValueView) -> int {
    match v {
        ValueView::Null => 0,
        ValueView::Bool(_) => 1,
        ValueView::Int32(_) => 2,
        ValueView::Int64(_) => 3,
        ValueView::Double { .. } => 4,
        ValueView::Text(_) => 5,
        ValueView::ObjectId(_) => 6,
        ValueView::DateTime { .. } => 7,
        ValueView::Decimal { .. } => 8,
        ValueView::Array(_) => 9,
        ValueView::Document(_) => 10,
        ValueView::Other { .. } => 11,
    }
}

/// The type aliases MongoDB's `$type` operator and the mongo shell use for these BSON types.
pub open spec fn shell_type_aliases() -> Set<Seq<char>> {
    set!["double"@, "string"@, "object"@, "array"@, "objectId"@, "bool"@, "date"@, "null"@, "int"@, "long"@, "decimal"@]
}

/// The type name of a value of a built-in BSON type is one of the shell's aliases, and
/// two such values get the same name exactly when they hold the same type: no two
/// types (a double and an int, say) share a name.
pub proof fn law_kind_names_tell_types_apart(a: ValueView, b: ValueView)
    requires
        !(a is Other),
        !(b is Other),
    ensures
        shell_type_aliases().contains(kind_of(a)),
        kind_of(a) == kind_of(b) <==> type_index(a) == type_index(b),
{
    reveal_strlit("double");
    reveal_strlit("string");
    reveal_strlit("object");
    reveal_strlit("array");
    reveal_strlit("objectId");
    reveal_strlit("bool");
    reveal_strlit("date");
    reveal_strlit("null");
    reveal_strlit("int");
    reveal_strlit("long");
    reveal_strlit("decimal");
    if kind_of(a) == kind_of(b) {
        assert(kind_of(a).len() == kind_of(b).len());
        assert(kind_of(a)[0] == kind_of(b)[0]);
    }
}

}
