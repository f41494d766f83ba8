//! The tools section of a prompt.

use vstd::prelude::*;
use crate::json::{Json, JsonObject, JsonView, Members, inserted, json_view, position_unique, views};
use crate::markers::{TOOLS_PREFIX, TOOLS_SUFFIX};
use crate::merge::function_member;
use crate::pyjson::{py_json, py_text};
use crate::text::{join, joined, texts};

verus! {

/// A member of a tool's `function`, or `default` when there is none.
pub open spec fn function_field(tool: JsonView, key: Seq<char>, default: JsonView) -> JsonView {
    match function_member(tool, key) {
        Some(v) => v,
        None => default,
    }
}

/// The members that every tool schema has.
pub open spec fn schema_members(tool: JsonView) -> Members {
    seq![
        ("description"@, function_field(tool, "description"@, JsonView::Null)),
        ("name"@, function_field(tool, "name"@, JsonView::Null)),
        ("parameters"@, function_field(tool, "parameters"@, JsonView::Null)),
        ("strict"@, function_field(tool, "strict"@, JsonView::Bool(false))),
    ]
}

/// The schema of a tool: of its `function`, the description, the name, the parameters
/// and the strict flag in this order, null or `false` where they are absent, then
/// `defer_loading` when it is set; nothing else.
pub open spec fn canonical(tool: JsonView) -> JsonView {
    let defer = function_field(tool, "defer_loading"@, JsonView::Null);
    JsonView::Object(
        if defer is Null {
            schema_members(tool)
        } else {
            schema_members(tool).push(("defer_loading"@, defer))
        },
    )
}

/// The schemas of several tools, each in Python's JSON layout.
pub open spec fn schema_texts(tools: Seq<JsonView>) -> Seq<Seq<char>> {
    tools.map_values(|t: JsonView| py_text(canonical(t)))
}

/// The tools section: one schema a line between two fixed texts.
pub open spec fn tools_text(tools: Seq<JsonView>) -> Seq<char> {
    TOOLS_PREFIX@ + joined(schema_texts(tools), "\n"@) + TOOLS_SUFFIX@
}

/// The tools that count: those of a non-empty array.
pub open spec fn tool_list(tools: Option<JsonView>) -> Option<Seq<JsonView>> {
    match tools {
        Some(JsonView::Array(list)) => if list.len() > 0 {
            Some(list)
        } else {
            None
        },
        _ => None,
    }
}

/// A member of a tool's `function`, or `default` when there is none.
fn field(tool: &Json, key: &str, default: Json) -> (r: Json)
    ensures
        r@ == function_field(tool@, key@, default@),
{
    match tool.get("function") {
        Some(f) => match f.get(key) {
            Some(v) => v.clone(),
            None => default,
        },
        None => default,
    }
}

/// A key that no member has goes to the end.
proof fn appended(members: Members, key: Seq<char>, value: JsonView)
    requires
        forall|i: int| 0 <= i < members.len() ==> (#[trigger] members[i]).0 != key,
    ensures
        inserted(members, key, value) == members.push((key, value)),
{
    position_unique(members, key, members.len() as int);
}

/// The schema of a tool.
pub fn canonical_function(tool: &Json) -> (r: Json)
    ensures
        r@ == canonical(tool@),
{
    broadcast use json_view;

    let description = field(tool, "description", Json::Null);
    let name = field(tool, "name", Json::Null);
    let parameters = field(tool, "parameters", Json::Null);
    let strict = field(tool, "strict", Json::Bool(false));
    let defer = field(tool, "defer_loading", Json::Null);
    proof {
        reveal_strlit("description");
        reveal_strlit("name");
        reveal_strlit("parameters");
        reveal_strlit("strict");
        reveal_strlit("defer_loading");
        assert("description"@.len() == 11 && "name"@.len() == 4 && "parameters"@.len() == 10
            && "strict"@.len() == 6 && "defer_loading"@.len() == 13);
        let m0 = Members::empty();
        appended(m0, "description"@, description@);
        let m1 = m0.push(("description"@, description@));
        appended(m1, "name"@, name@);
        let m2 = m1.push(("name"@, name@));
        appended(m2, "parameters"@, parameters@);
        let m3 = m2.push(("parameters"@, parameters@));
        appended(m3, "strict"@, strict@);
        let m4 = m3.push(("strict"@, strict@));
        appended(m4, "defer_loading"@, defer@);
        assert(m4 =~= schema_members(tool@));
    }
    let m = JsonObject::new().insert("description", description).insert("name", name).insert(
        "parameters",
        parameters,
    ).insert("strict", strict);
    if defer.is_null() {
        Json::Object(m)
    } else {
        Json::Object(m.insert("defer_loading", defer))
    }
}

/// The tools section.
pub fn render_tools(tools: &Vec<Json>) -> (r: String)
    ensures
        r@ == tools_text(views(tools@)),
{
    let ghost all = views(tools@);
    let mut schemas: Vec<String> = Vec::new();
    let mut i: usize = 0;
    while i < tools.len()
        invariant
            i <= tools@.len(),
            all == views(tools@),
            texts(schemas@) == schema_texts(all.take(i as int)),
        decreases tools@.len() - i,
    {
        let schema = py_json(&canonical_function(&tools[i]));
        let ghost before = schemas@;
        schemas.push(schema);
        proof {
            assert(all[i as int] == tools@[i as int]@);
            assert(texts(schemas@) =~= texts(before).push(schema@));
            assert(schema_texts(all.take(i + 1)) =~= schema_texts(all.take(i as int)).push(
                schema@,
            ));
        }
        i = i + 1;
    }
    proof {
        assert(all.take(i as int) =~= all);
    }
    let mut out = TOOLS_PREFIX.to_owned();
    out.append(join(&schemas, "\n").as_str());
    out.append(TOOLS_SUFFIX);
    out
}

/// Only the description, the name, the parameters, the strict flag and `defer_loading`
/// of a tool's function matter to its schema.
pub proof fn unknown_tool_fields_dropped(a: JsonView, b: JsonView)
    requires
        function_member(a, "description"@) == function_member(b, "description"@),
        function_member(a, "name"@) == function_member(b, "name"@),
        function_member(a, "parameters"@) == function_member(b, "parameters"@),
        function_member(a, "strict"@) == function_member(b, "strict"@),
        function_member(a, "defer_loading"@) == function_member(b, "defer_loading"@),
    ensures
        canonical(a) == canonical(b),
{
}

/// The schema of a tool whose function is a schema is that schema.
pub proof fn schema_of_schema(tool: JsonView)
    ensures
        canonical(JsonView::Object(seq![("function"@, canonical(tool))])) == canonical(tool),
{
    reveal_strlit("description");
    reveal_strlit("name");
    reveal_strlit("parameters");
    reveal_strlit("strict");
    reveal_strlit("defer_loading");
    assert("description"@.len() == 11 && "name"@.len() == 4 && "parameters"@.len() == 10
        && "strict"@.len() == 6 && "defer_loading"@.len() == 13);
    let schema = canonical(tool);
    let members = schema->Object_0;
    let wrapped = seq![("function"@, schema)];
    position_unique(wrapped, "function"@, 0);
    position_unique(members, "description"@, 0);
    position_unique(members, "name"@, 1);
    position_unique(members, "parameters"@, 2);
    position_unique(members, "strict"@, 3);
    position_unique(members, "defer_loading"@, 4);
    assert(schema_members(JsonView::Object(wrapped)) =~= schema_members(tool));
}

} // verus!
