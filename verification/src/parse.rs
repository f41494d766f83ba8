//! JSON text as a value, read by `serde_json`.

use vstd::prelude::*;
use crate::json::{
    Json, JsonObject, JsonView, Members, Number, NumberView, array_item_smaller, json_view,
    keys_unique, object_value_smaller, position_unique, views,
};
use crate::pyjson::py_text;
use crate::reading::readable;

verus! {

/// The value type of `serde_json`.
#[verifier::external_type_specification]
#[verifier::external_body]
pub struct ExValue(serde_json::Value);

/// What a `serde_json::Value` holds: its variant, the values inside it, an array's items
/// and an object's members in their order.
pub uninterp spec fn held(value: serde_json::Value) -> JsonView;

/// The value that `serde_json::from_str` reads from a text, or `None` when it
/// refuses the text.
pub uninterp spec fn parsed_json(text: Seq<char>) -> Option<JsonView>;

/// What an optional `serde_json::Value` holds.
spec fn opt_held(o: Option<serde_json::Value>) -> Option<JsonView> {
    match o {
        Some(v) => Some(held(v)),
        None => None,
    }
}

/// The outermost layer of a value, with the values inside it as they are.
enum Layer {
    Null,
    Bool(bool),
    /// A number: the integer it is, if it is one, and its text.
    Number(Option<i128>, String),
    Text(String),
    Array(Vec<serde_json::Value>),
    Object(Vec<(String, serde_json::Value)>),
}

/// What each value of a list holds.
spec fn held_items(items: Seq<serde_json::Value>) -> Seq<JsonView> {
    items.map_values(|v: serde_json::Value| held(v))
}

/// What each member of a list holds.
spec fn held_members(members: Seq<(String, serde_json::Value)>) -> Members {
    members.map_values(|m: (String, serde_json::Value)| (m.0@, held(m.1)))
}

/// Is this the outermost layer of a value that holds `v`?
spec fn layer_of(layer: Layer, v: JsonView) -> bool {
    match layer {
        Layer::Null => v == JsonView::Null,
        Layer::Bool(b) => v == JsonView::Bool(b),
        Layer::Number(Some(i), _) => i64::MIN <= i <= u64::MAX && v == JsonView::Number(
            NumberView::Integer(i as int),
        ),
        Layer::Number(None, t) => v == JsonView::Number(NumberView::Float(t@)),
        Layer::Text(s) => v == JsonView::Text(s@),
        Layer::Array(items) => v == JsonView::Array(held_items(items@)),
        Layer::Object(members) => keys_unique(held_members(members@)) && v == JsonView::Object(
            held_members(members@),
        ),
    }
}

/// `serde_json::from_str` into a `serde_json::Value`. Which texts are refused, and which
/// value a text gives, goes by the name `parsed_json`. Of the text of a value in
/// Python's layout it is that value, members in their order, when the value holds no
/// float, no integer beyond 64 bits and no key twice, and is nested no deeper than the
/// 127 levels that the reader takes.
#[verifier::external_body]
fn parse(text: &str) -> (r: Option<serde_json::Value>)
    ensures
        opt_held(r) == parsed_json(text@),
        forall|v: JsonView|
            readable(v) && #[trigger] py_text(v) == text@ ==> opt_held(r) == Some(v),
{
    serde_json::from_str(text).ok()
}

/// The variant of a `serde_json::Value` and what is in it: the members of an object in
/// their order, each key once; an integer by `Number::as_i128`, which gives integers from
/// `i64::MIN` to `u64::MAX` and nothing of a float; a number's text by its `to_string`.
#[verifier::external_body]
fn layer(value: serde_json::Value) -> (r: Layer)
    ensures
        layer_of(r, held(value)),
{
    match value {
        serde_json::Value::Null => Layer::Null,
        serde_json::Value::Bool(b) => Layer::Bool(b),
        serde_json::Value::Number(n) => Layer::Number(n.as_i128(), n.to_string()),
        serde_json::Value::String(s) => Layer::Text(s),
        serde_json::Value::Array(items) => Layer::Array(items),
        serde_json::Value::Object(members) => Layer::Object(members.into_iter().collect()),
    }
}

/// A `serde_json::Value` as a value of this library.
pub fn from_value(value: serde_json::Value) -> (r: Json)
    ensures
        r@ == held(value),
    decreases held(value),
{
    broadcast use json_view;

    let ghost whole = held(value);
    match layer(value) {
        Layer::Null => Json::Null,
        Layer::Bool(b) => Json::Bool(b),
        Layer::Number(Some(i), _) => Json::Number(
            if i >= 0 {
                Number::PosInt(i as u64)
            } else {
                Number::NegInt(i as i64)
            },
        ),
        Layer::Number(None, t) => Json::Number(Number::Float(t)),
        Layer::Text(s) => Json::Text(s),
        Layer::Array(items) => {
            let ghost given = items@;
            let mut out: Vec<Json> = Vec::new();
            proof {
                assert(views(out@) =~= held_items(given).take(0));
            }
            for item in it: items.into_iter()
                invariant
                    it.seq() == given,
                    whole == held(value),
                    whole == JsonView::Array(held_items(given)),
                    views(out@) == held_items(given).take(it.index() as int),
            {
                proof {
                    array_item_smaller(whole, it.index() as int);
                    assert(held_items(given)[it.index() as int] == held(item));
                }
                let ghost before = out@;
                let one = from_value(item);
                out.push(one);
                proof {
                    let n = it.index() as int;
                    assert(views(out@) =~= views(before).push(one@));
                    assert(held_items(given).take(n + 1) =~= held_items(given).take(n).push(one@));
                }
            }
            proof {
                assert(held_items(given).take(given.len() as int) =~= held_items(given));
            }
            Json::Array(out)
        },
        Layer::Object(members) => {
            let ghost given = members@;
            let ghost all = held_members(given);
            let mut out = JsonObject::new();
            proof {
                assert(out@ =~= all.take(0));
            }
            for member in it: members.into_iter()
                invariant
                    it.seq() == given,
                    all == held_members(given),
                    keys_unique(all),
                    whole == held(value),
                    whole == JsonView::Object(all),
                    out@ == all.take(it.index() as int),
            {
                let ghost n = it.index() as int;
                proof {
                    object_value_smaller(whole, n);
                    assert(all[n] == (member.0@, held(member.1)));
                    assert forall|j: int| 0 <= j < n implies (#[trigger] out@[j]).0 != all[n].0 by {
                        assert(all[j].0 != all[n].0);
                    }
                    position_unique(out@, all[n].0, n);
                    assert(all.take(n + 1) =~= all.take(n).push(all[n]));
                }
                let one = from_value(member.1);
                out = out.insert(member.0.as_str(), one);
            }
            proof {
                assert(all.take(given.len() as int) =~= all);
            }
            Json::Object(out)
        },
    }
}

/// What an optional value stands for.
pub open spec fn opt_view(o: Option<Json>) -> Option<JsonView> {
    match o {
        Some(j) => Some(j@),
        None => None,
    }
}

/// Reads a JSON text. What [`py_json`](crate::pyjson::py_json) wrote of a value without
/// floats reads back as that value, the members of objects in their order.
pub fn read_json(text: &str) -> (r: Option<Json>)
    ensures
        opt_view(r) == parsed_json(text@),
        forall|v: JsonView|
            readable(v) && #[trigger] py_text(v) == text@ ==> opt_view(r) == Some(v),
{
    match parse(text) {
        Some(value) => Some(from_value(value)),
        None => None,
    }
}

} // verus!
