//! The ordered JSON values that a SQL translation produces, and their pretty-printed
//! text (two-space indentation, keys in insertion order).

use vstd::prelude::*;
use crate::text::{decimal_text, decimal_string, join_with, push_char, push_str};
use crate::value::{json_quoted, json_string};

verus! {

/// An ordered JSON value. A double is held as its JSON text.
#[derive(Debug)]
pub enum J {
    Null,
    Bool(bool),
    Int(i64),
    Float(String),
    Str(String),
    Arr(Vec<J>),
    Obj(Vec<(String, J)>),
}

/// The mathematical form of a JSON value.
pub enum JView {
    Null,
    Bool(bool),
    Int(i64),
    Float(Seq<char>),
    Str(Seq<char>),
    Arr(Seq<JView>),
    Obj(Seq<(Seq<char>, JView)>),
}

/// The view of a JSON value.
pub open spec fn j_view(j: J) -> JView
    decreases j,
{
    match j {
        J::Null => JView::Null,
        J::Bool(b) => JView::Bool(b),
        J::Int(n) => JView::Int(n),
        J::Float(t) => JView::Float(t@),
        J::Str(s) => JView::Str(s@),
        J::Arr(items) => JView::Arr(Seq::new(items@.len(), |i: int|
            if 0 <= i < items@.len() { j_view(items@[i]) } else { JView::Null })),
        J::Obj(entries) => JView::Obj(Seq::new(entries@.len(), |i: int|
            if 0 <= i < entries@.len() { (entries@[i].0@, j_view(entries@[i].1)) } else { (Seq::empty(), JView::Null) })),
    }
}

impl View for J {
    type V = JView;

    open spec fn view(&self) -> JView {
        j_view(*self)
    }
}

/// The views of a list of JSON values.
pub open spec fn j_views(items: Seq<J>) -> Seq<JView> {
    items.map_values(|j: J| j@)
}

/// The views of a list of JSON members.
pub open spec fn member_views(entries: Seq<(String, J)>) -> Seq<(Seq<char>, JView)> {
    entries.map_values(|e: (String, J)| (e.0@, e.1@))
}

/// An array's view is the array of its elements' views.
pub proof fn lemma_arr_view(items: Vec<J>)
    ensures
        J::Arr(items)@ == JView::Arr(j_views(items@)),
{
    assert(J::Arr(items)@ is Arr);
    assert(J::Arr(items)@->Arr_0 =~= j_views(items@));
}

/// An object's view is the object of its members' views.
pub proof fn lemma_obj_view(entries: Vec<(String, J)>)
    ensures
        J::Obj(entries)@ == JView::Obj(member_views(entries@)),
{
    assert(J::Obj(entries)@ is Obj);
    assert(J::Obj(entries)@->Obj_0 =~= member_views(entries@));
}

/// The pretty-printed JSON text of a value whose enclosing lines are indented by
/// `pad`: scalars as JSON, an empty array or object as `[]` / `{}`, and otherwise one
/// element or `"key": value` member per line, indented two more spaces, closed on a
/// line of its own at `pad`.
pub open spec fn pretty(j: JView, pad: Seq<char>) -> Seq<char>
    decreases j,
{
    match j {
        JView::Null => "null"@,
        JView::Bool(b) => if b { "true"@ } else { "false"@ },
        JView::Int(n) => decimal_text(n as int),
        JView::Float(t) => t,
        JView::Str(s) => json_quoted(s),
        JView::Arr(items) => if items.len() == 0 {
            "[]"@
        } else {
            "[\n"@ + join_with(pretty_items(items, pad + "  "@), ",\n"@) + "\n"@ + pad + "]"@
        },
        JView::Obj(entries) => if entries.len() == 0 {
            "{}"@
        } else {
            "{\n"@ + join_with(pretty_members(entries, pad + "  "@), ",\n"@) + "\n"@ + pad + "}"@
        },
    }
}

/// Each element on its line: indented by `pad`, then its text.
pub open spec fn pretty_items(items: Seq<JView>, pad: Seq<char>) -> Seq<Seq<char>>
    decreases items,
{
    Seq::new(items.len(), |i: int| if 0 <= i < items.len() { pad + pretty(items[i], pad) } else { Seq::<char>::empty() })
}

/// Each member on its line: indented by `pad`, the quoted key, `: `, the value's text.
pub open spec fn pretty_members(entries: Seq<(Seq<char>, JView)>, pad: Seq<char>) -> Seq<Seq<char>>
    decreases entries,
{
    Seq::new(entries.len(), |i: int|
        if 0 <= i < entries.len() { pad + json_quoted(entries[i].0) + ": "@ + pretty(entries[i].1, pad) } else { Seq::<char>::empty() })
}

impl J {
    /// The pretty-printed text of the value, its enclosing lines indented by `pad`.
    pub fn to_pretty(&self, pad: &str) -> (r: String)
        ensures
            r@ == pretty(self@, pad@),
        decreases self,
    {
        match self {
            J::Null => "null".to_owned(),
            J::Bool(b) => if *b { "true".to_owned() } else { "false".to_owned() },
            J::Int(n) => decimal_string(*n),
            J::Float(t) => t.clone(),
            J::Str(s) => json_string(s.as_str()),
            J::Arr(items) => {
                if items.len() == 0 {
                    return "[]".to_owned();
                }
                let mut inner_pad = pad.to_owned();
                push_str(&mut inner_pad, "  ");
                let ghost iv = self@->Arr_0;
                let ghost lines = pretty_items(iv, inner_pad@);
                assert(iv.len() == items@.len());
                let mut out = "[\n".to_owned();
                let mut i: usize = 0;
                while i < items.len()
                    invariant
                        i <= items@.len(),
                        *self == J::Arr(*items),
                        iv == self@->Arr_0,
                        iv.len() == items@.len(),
                        forall|k: int| 0 <= k < iv.len() ==> iv[k] == items@[k]@,
                        lines == pretty_items(iv, inner_pad@),
                        out@ == "[\n"@ + join_with(lines.take(i as int), ",\n"@),
                    decreases items@.len() - i,
                {
                    if i > 0 {
                        push_str(&mut out, ",\n");
                    }
                    assert(decreases_to!(*self => self->Arr_0));
                    assert(decreases_to!(*items => items@));
                    assert(decreases_to!(items@ => items@[i as int]));
                    let item = items[i].to_pretty(inner_pad.as_str());
                    push_str(&mut out, inner_pad.as_str());
                    push_str(&mut out, item.as_str());
                    proof {
                        let t = lines.take(i as int + 1);
                        assert(t.drop_last() =~= lines.take(i as int));
                        assert(t.last() =~= inner_pad@ + item@);
                        if i == 0 {
                            assert(t =~= seq![inner_pad@ + item@]);
                        }
                        assert(out@ =~= "[\n"@ + join_with(t, ",\n"@));
                    }
                    i = i + 1;
                }
                assert(lines.take(items@.len() as int) =~= lines);
                push_str(&mut out, "\n");
                push_str(&mut out, pad);
                push_str(&mut out, "]");
                out
            },
            J::Obj(entries) => {
                if entries.len() == 0 {
                    return "{}".to_owned();
                }
                let mut inner_pad = pad.to_owned();
                push_str(&mut inner_pad, "  ");
                let ghost ev = self@->Obj_0;
                let ghost lines = pretty_members(ev, inner_pad@);
                assert(ev.len() == entries@.len());
                let mut out = "{\n".to_owned();
                let mut i: usize = 0;
                while i < entries.len()
                    invariant
                        i <= entries@.len(),
                        *self == J::Obj(*entries),
                        ev == self@->Obj_0,
                        ev.len() == entries@.len(),
                        forall|k: int| 0 <= k < ev.len() ==> ev[k] == (entries@[k].0@, entries@[k].1@),
                        lines == pretty_members(ev, inner_pad@),
                        out@ == "{\n"@ + join_with(lines.take(i as int), ",\n"@),
                    decreases entries@.len() - i,
                {
                    if i > 0 {
                        push_str(&mut out, ",\n");
                    }
                    assert(decreases_to!(*self => self->Obj_0));
                    assert(decreases_to!(*entries => entries@));
                    assert(decreases_to!(entries@ => entries@[i as int]));
                    assert(decreases_to!(entries@[i as int] => entries@[i as int].1));
                    let key = json_string(entries[i].0.as_str());
                    let item = entries[i].1.to_pretty(inner_pad.as_str());
                    push_str(&mut out, inner_pad.as_str());
                    push_str(&mut out, key.as_str());
                    push_str(&mut out, ": ");
                    push_str(&mut out, item.as_str());
                    proof {
                        let t = lines.take(i as int + 1);
                        assert(t.drop_last() =~= lines.take(i as int));
                        assert(t.last() =~= inner_pad@ + key@ + ": "@ + item@);
                        if i == 0 {
                            assert(t =~= seq![inner_pad@ + key@ + ": "@ + item@]);
                        }
                        assert(out@ =~= "{\n"@ + join_with(t, ",\n"@));
                    }
                    i = i + 1;
                }
                assert(lines.take(entries@.len() as int) =~= lines);
                push_str(&mut out, "\n");
                push_str(&mut out, pad);
                push_str(&mut out, "}");
                out
            },
        }
    }
}

}
