//! Tool calls and tool schemas as text, and the calls and contents that messages hold.

use vstd::prelude::*;
use crate::dsml::{
    arguments_text, invoke_text, invoke_texts, member_parameters, parsed_parameters,
    tool_calls_text, value_parameter,
};
use crate::json::{JsonView, Members, member, text_field};
use crate::layout_laws::joined_parts;
use crate::markers::{DSML, TOOLS_PREFIX, TOOLS_SUFFIX};
use crate::merge::{call_of, calls_of, content_text, part_text, part_texts, tool_text};
use crate::parse::parsed_json;
use crate::pyjson::{number_text, py_text};
use crate::reading::{floatless, py_text_injective};
use crate::text::joined;
use crate::tools::{canonical, schema_texts, tool_list, tools_text};
use crate::turns::CallView;

verus! {

proof fn tags()
    ensures
        "<"@ + DSML@ + "parameter name=\""@ == "<｜DSML｜parameter name=\""@,
        "\" string=\""@ + "true"@ + "\">"@ == "\" string=\"true\">"@,
        "\" string=\""@ + "false"@ + "\">"@ == "\" string=\"false\">"@,
        "</"@ + DSML@ + "parameter>"@ == "</｜DSML｜parameter>"@,
        "<"@ + DSML@ + "invoke name=\""@ == "<｜DSML｜invoke name=\""@,
        "\n</"@ + DSML@ + "invoke>"@ == "\n</｜DSML｜invoke>"@,
        "<"@ + DSML@ + "tool_calls>\n"@ == "<｜DSML｜tool_calls>\n"@,
        "\n</"@ + DSML@ + "tool_calls>"@ == "\n</｜DSML｜tool_calls>"@,
{
    reveal_strlit("｜DSML｜");
    reveal_strlit("<");
    reveal_strlit("</");
    reveal_strlit("\n</");
    reveal_strlit("parameter name=\"");
    reveal_strlit("<｜DSML｜parameter name=\"");
    reveal_strlit("\" string=\"");
    reveal_strlit("true");
    reveal_strlit("false");
    reveal_strlit("\">");
    reveal_strlit("\" string=\"true\">");
    reveal_strlit("\" string=\"false\">");
    reveal_strlit("parameter>");
    reveal_strlit("</｜DSML｜parameter>");
    reveal_strlit("invoke name=\"");
    reveal_strlit("<｜DSML｜invoke name=\"");
    reveal_strlit("invoke>");
    reveal_strlit("\n</｜DSML｜invoke>");
    reveal_strlit("tool_calls>\n");
    reveal_strlit("<｜DSML｜tool_calls>\n");
    reveal_strlit("tool_calls>");
    reveal_strlit("\n</｜DSML｜tool_calls>");
    assert("<"@ + DSML@ + "parameter name=\""@ =~= "<｜DSML｜parameter name=\""@);
    assert("\" string=\""@ + "true"@ + "\">"@ =~= "\" string=\"true\">"@);
    assert("\" string=\""@ + "false"@ + "\">"@ =~= "\" string=\"false\">"@);
    assert("</"@ + DSML@ + "parameter>"@ =~= "</｜DSML｜parameter>"@);
    assert("<"@ + DSML@ + "invoke name=\""@ =~= "<｜DSML｜invoke name=\""@);
    assert("\n</"@ + DSML@ + "invoke>"@ =~= "\n</｜DSML｜invoke>"@);
    assert("<"@ + DSML@ + "tool_calls>\n"@ =~= "<｜DSML｜tool_calls>\n"@);
    assert("\n</"@ + DSML@ + "tool_calls>"@ =~= "\n</｜DSML｜tool_calls>"@);
}

/// The parameter element of a value: a string stands in it as it is and is marked as a
/// string; null, a boolean, a number, an array or an object stands in it as JSON and is
/// marked as none.
pub proof fn parameter_of_value(name: Seq<char>, v: JsonView)
    ensures
        v matches JsonView::Text(s) ==> value_parameter(name, v) == "<｜DSML｜parameter name=\""@
            + name + "\" string=\"true\">"@ + s + "</｜DSML｜parameter>"@,
        !(v is Text) ==> value_parameter(name, v) == "<｜DSML｜parameter name=\""@ + name
            + "\" string=\"false\">"@ + py_text(v) + "</｜DSML｜parameter>"@,
{
    tags();
    let open = "<"@ + DSML@ + "parameter name=\""@;
    let close = "</"@ + DSML@ + "parameter>"@;
    if let JsonView::Text(s) = v {
        assert(value_parameter(name, v) =~= open + name + ("\" string=\""@ + "true"@ + "\">"@) + s
            + close);
    } else {
        let t = py_text(v);
        assert(value_parameter(name, v) =~= open + name + ("\" string=\""@ + "false"@ + "\">"@) + t
            + close);
    }
}

/// Two values without floats that give the same parameter element under one name are the
/// same value.
pub proof fn parameter_tells_value(name: Seq<char>, a: JsonView, b: JsonView)
    requires
        floatless(a),
        floatless(b),
        value_parameter(name, a) == value_parameter(name, b),
    ensures
        a == b,
{
    parameter_of_value(name, a);
    parameter_of_value(name, b);
    let open = "<｜DSML｜parameter name=\""@ + name;
    let close = "</｜DSML｜parameter>"@;
    let yes = "\" string=\"true\">"@;
    let no = "\" string=\"false\">"@;
    reveal_strlit("\" string=\"true\">");
    reveal_strlit("\" string=\"false\">");
    assert(yes[10] == 't' && no[10] == 'f');
    let x = value_parameter(name, a);
    let n = open.len() as int;
    let fa = if a is Text { yes } else { no };
    let fb = if b is Text { yes } else { no };
    let ta = if let JsonView::Text(s) = a { s } else { py_text(a) };
    let tb = if let JsonView::Text(s) = b { s } else { py_text(b) };
    assert(x =~= open + (fa + ta + close));
    assert(x =~= open + (fb + tb + close));
    assert(x[n + 10] == fa[10]);
    assert(x[n + 10] == fb[10]);
    assert(fa == fb);
    let k = n + fa.len();
    assert(x.subrange(k, x.len() - close.len()) =~= ta);
    assert(x.subrange(k, x.len() - close.len()) =~= tb);
    if !(a is Text) {
        py_text_injective(a, b);
    }
}

/// The parameter lines of a read arguments text: for an object a line for each member, in
/// their order; for any other value none; for a refused text one that holds the text.
pub proof fn parameter_lines(
    name: Seq<char>,
    v: JsonView,
    a: Members,
    b: Members,
    raw: Seq<char>,
)
    requires
        a.len() > 0,
        b.len() > 0,
    ensures
        parsed_parameters(Some(JsonView::Object(Members::empty())), raw) == Seq::<char>::empty(),
        parsed_parameters(Some(JsonView::Object(seq![(name, v)])), raw) == value_parameter(name, v),
        parsed_parameters(Some(JsonView::Object(a + b)), raw) == parsed_parameters(
            Some(JsonView::Object(a)),
            raw,
        ) + "\n"@ + parsed_parameters(Some(JsonView::Object(b)), raw),
        !(v is Object) ==> parsed_parameters(Some(v), raw) == Seq::<char>::empty(),
        parsed_parameters(None, raw) == value_parameter("arguments"@, JsonView::Text(raw)),
{
    assert(member_parameters(Members::empty()) =~= Seq::<Seq<char>>::empty());
    assert(member_parameters(seq![(name, v)]) =~= seq![value_parameter(name, v)]);
    assert(member_parameters(a + b) =~= member_parameters(a) + member_parameters(b));
    joined_parts(value_parameter(name, v), member_parameters(a), member_parameters(b), "\n"@);
}

/// Arguments that are a text give the lines of what is read from it; arguments that are no
/// text give one parameter that holds them.
pub proof fn arguments_by_kind(arguments: JsonView)
    ensures
        arguments matches JsonView::Text(raw) ==> arguments_text(arguments) == parsed_parameters(
            parsed_json(raw),
            raw,
        ),
        !(arguments is Text) ==> arguments_text(arguments) == value_parameter(
            "arguments"@,
            arguments,
        ),
{
}

/// What stands inside a tool-calls block.
pub open spec fn block_lines(text: Seq<char>) -> Seq<char> {
    text.subrange(
        "<｜DSML｜tool_calls>\n"@.len() as int,
        text.len() - "\n</｜DSML｜tool_calls>"@.len(),
    )
}

/// The tool-calls block: one call is its name and its parameter lines in an invoke
/// element; the calls of two blocks end to end stand one after the other, a line break
/// between them.
pub proof fn calls_block(call: CallView, a: Seq<CallView>, b: Seq<CallView>)
    requires
        a.len() > 0,
        b.len() > 0,
    ensures
        tool_calls_text(seq![call]) == "<｜DSML｜tool_calls>\n"@ + ("<｜DSML｜invoke name=\""@
            + call.name + "\">\n"@ + arguments_text(call.arguments) + "\n</｜DSML｜invoke>"@)
            + "\n</｜DSML｜tool_calls>"@,
        tool_calls_text(a + b) == "<｜DSML｜tool_calls>\n"@ + (block_lines(tool_calls_text(a))
            + "\n"@ + block_lines(tool_calls_text(b))) + "\n</｜DSML｜tool_calls>"@,
{
    tags();
    one_call(call);
    block_of(a);
    block_of(b);
    block_of(a + b);
    assert(invoke_texts(a + b) =~= invoke_texts(a) + invoke_texts(b));
    joined_parts(invoke_text(call), invoke_texts(a), invoke_texts(b), "\n"@);
}

proof fn one_call(call: CallView)
    ensures
        tool_calls_text(seq![call]) == "<｜DSML｜tool_calls>\n"@ + ("<｜DSML｜invoke name=\""@
            + call.name + "\">\n"@ + arguments_text(call.arguments) + "\n</｜DSML｜invoke>"@)
            + "\n</｜DSML｜tool_calls>"@,
{
    tags();
    block_of(seq![call]);
    assert(invoke_texts(seq![call]) =~= seq![invoke_text(call)]);
    let open = "<"@ + DSML@ + "invoke name=\""@;
    let close = "\n</"@ + DSML@ + "invoke>"@;
    let args = arguments_text(call.arguments);
    assert(invoke_text(call) =~= open + call.name + "\">\n"@ + args + close);
}

proof fn block_of(calls: Seq<CallView>)
    ensures
        tool_calls_text(calls) == "<｜DSML｜tool_calls>\n"@ + joined(invoke_texts(calls), "\n"@)
            + "\n</｜DSML｜tool_calls>"@,
        block_lines(tool_calls_text(calls)) == joined(invoke_texts(calls), "\n"@),
{
    tags();
    let open = "<"@ + DSML@ + "tool_calls>\n"@;
    let close = "\n</"@ + DSML@ + "tool_calls>"@;
    let lines = joined(invoke_texts(calls), "\n"@);
    assert(tool_calls_text(calls) =~= open + lines + close);
    assert(block_lines(open + lines + close) =~= lines);
}

/// The calls of a message: one for each entry of an array, in their order, and none of
/// any other value. A call has the name and the arguments of its `function`, and the
/// identifier of the entry, or of its `function` when the entry has none.
pub proof fn calls_of_entries(entries: Seq<JsonView>, i: int)
    requires
        0 <= i < entries.len(),
    ensures
        ({
            let calls = calls_of(Some(JsonView::Array(entries)));
            let entry = entries[i];
            let f = member(entry, "function"@);
            &&& calls.len() == entries.len()
            &&& f is None ==> calls[i].name == Seq::<char>::empty() && calls[i].arguments is Null
            &&& f is Some ==> {
                &&& match text_field(f->0, "name"@) {
                    Some(name) => calls[i].name == name,
                    None => calls[i].name == Seq::<char>::empty(),
                }
                &&& match member(f->0, "arguments"@) {
                    Some(arguments) => calls[i].arguments == arguments,
                    None => calls[i].arguments is Null,
                }
            }
            &&& text_field(entry, "id"@) is Some && text_field(entry, "id"@)->0.len() > 0
                ==> calls[i].id == text_field(entry, "id"@)->0
            &&& (text_field(entry, "id"@) is None || text_field(entry, "id"@)->0.len() == 0) ==> (
            if f is Some && text_field(f->0, "id"@) is Some {
                calls[i].id == text_field(f->0, "id"@)->0
            } else {
                calls[i].id == Seq::<char>::empty()
            })
        }),
        forall|v: JsonView|
            !(v is Array) ==> #[trigger] calls_of(Some(v)) == Seq::<CallView>::empty(),
        calls_of(None) == Seq::<CallView>::empty(),
{
    assert(calls_of(Some(JsonView::Array(entries)))[i] == call_of(entries[i]));
}

/// Is this a part of type `text` with a text?
pub open spec fn is_text_part(part: JsonView) -> bool {
    text_field(part, "type"@) == Some("text"@) && text_field(part, "text"@) is Some
}

proof fn part_texts_empty(parts: Seq<JsonView>)
    ensures
        part_texts(parts).len() == 0 <==> forall|i: int|
            0 <= i < parts.len() ==> !is_text_part(#[trigger] parts[i]),
    decreases parts.len(),
{
    if parts.len() > 0 {
        let front = parts.drop_last();
        part_texts_empty(front);
        assert(is_text_part(parts.last()) == part_text(parts.last()) is Some);
        if part_text(parts.last()) is Some {
            assert(is_text_part(parts[parts.len() - 1]));
        } else {
            assert((forall|i: int| 0 <= i < front.len() ==> !is_text_part(#[trigger] front[i]))
                ==> (forall|i: int| 0 <= i < parts.len() ==> !is_text_part(#[trigger] parts[i])))
                by {
                if forall|i: int| 0 <= i < front.len() ==> !is_text_part(#[trigger] front[i]) {
                    assert forall|i: int| 0 <= i < parts.len() implies !is_text_part(
                        #[trigger] parts[i],
                    ) by {
                        if i < front.len() {
                            assert(front[i] == parts[i]);
                        }
                    }
                }
            }
            assert((forall|i: int| 0 <= i < parts.len() ==> !is_text_part(#[trigger] parts[i]))
                ==> (forall|i: int| 0 <= i < front.len() ==> !is_text_part(#[trigger] front[i])))
                by {
                if forall|i: int| 0 <= i < parts.len() ==> !is_text_part(#[trigger] parts[i]) {
                    assert forall|i: int| 0 <= i < front.len() implies !is_text_part(
                        #[trigger] front[i],
                    ) by {
                        assert(front[i] == parts[i]);
                    }
                }
            }
        }
    }
}

/// The content of a message, by its kind: a text is itself, a number its digits, anything
/// but an array is nothing. One part more changes the content of an array only when it is
/// of type `text`: its text is added, after a space when there is a text part before.
/// Tool messages have the same, except that a number is nothing.
pub proof fn content_by_kind(v: JsonView, parts: Seq<JsonView>, part: JsonView)
    ensures
        v matches JsonView::Text(s) ==> content_text(Some(v)) == s && tool_text(Some(v)) == s,
        v matches JsonView::Number(n) ==> content_text(Some(v)) == number_text(n),
        v is Null || v is Bool || v is Object ==> content_text(Some(v)) == Seq::<char>::empty(),
        v is Null || v is Bool || v is Object || v is Number ==> tool_text(Some(v)) == Seq::<
            char,
        >::empty(),
        content_text(None) == Seq::<char>::empty(),
        tool_text(None) == Seq::<char>::empty(),
        content_text(Some(JsonView::Array(Seq::empty()))) == Seq::<char>::empty(),
        tool_text(Some(JsonView::Array(parts))) == content_text(Some(JsonView::Array(parts))),
        ({
            let before = content_text(Some(JsonView::Array(parts)));
            let after = content_text(Some(JsonView::Array(parts.push(part))));
            if !is_text_part(part) {
                after == before
            } else if exists|i: int| 0 <= i < parts.len() && is_text_part(#[trigger] parts[i]) {
                after == before + " "@ + text_field(part, "text"@)->0
            } else {
                after == text_field(part, "text"@)->0
            }
        }),
{
    let more = parts.push(part);
    assert(more.drop_last() =~= parts);
    part_texts_empty(parts);
    assert(is_text_part(part) == part_text(part) is Some);
    let before = part_texts(parts);
    if is_text_part(part) {
        let t = text_field(part, "text"@)->0;
        assert(part_texts(more) == before.push(t));
        if before.len() > 0 {
            joined_parts(t, before, seq![t], " "@);
            assert(before.push(t) =~= before + seq![t]);
        } else {
            assert(before.push(t) =~= seq![t]);
        }
    }
    assert(part_texts(Seq::<JsonView>::empty()) =~= Seq::<Seq<char>>::empty());
}

/// A member of a tool's function, or what stands for it when there is none.
pub open spec fn schema_value(tool: JsonView, key: Seq<char>, absent: JsonView) -> JsonView {
    match member(tool, "function"@) {
        None => absent,
        Some(f) => match member(f, key) {
            None => absent,
            Some(v) => v,
        },
    }
}

/// The schema of a tool: the description, the name, the parameters and the strict flag of
/// its function, in this order, null or `false` where they are absent; then
/// `defer_loading` when it is there and not null.
pub proof fn schema_members_in_order(tool: JsonView)
    ensures
        ({
            let defer = schema_value(tool, "defer_loading"@, JsonView::Null);
            let m = canonical(tool)->Object_0;
            &&& canonical(tool) is Object
            &&& m.len() == (if defer is Null { 4int } else { 5 })
            &&& m[0] == ("description"@, schema_value(tool, "description"@, JsonView::Null))
            &&& m[1] == ("name"@, schema_value(tool, "name"@, JsonView::Null))
            &&& m[2] == ("parameters"@, schema_value(tool, "parameters"@, JsonView::Null))
            &&& m[3] == ("strict"@, schema_value(tool, "strict"@, JsonView::Bool(false)))
            &&& !(defer is Null) ==> m[4] == ("defer_loading"@, defer)
        }),
{
}

/// The schemas in a tools section.
pub open spec fn section_lines(text: Seq<char>) -> Seq<char> {
    text.subrange(TOOLS_PREFIX@.len() as int, text.len() - TOOLS_SUFFIX@.len())
}

/// The tools section: the schema of each tool as JSON, one a line in their order, between
/// the two fixed texts. Only a non-empty array of tools counts.
pub proof fn section_of_tools(tool: JsonView, a: Seq<JsonView>, b: Seq<JsonView>)
    requires
        a.len() > 0,
        b.len() > 0,
    ensures
        tools_text(seq![tool]) == TOOLS_PREFIX@ + py_text(canonical(tool)) + TOOLS_SUFFIX@,
        tools_text(a + b) == TOOLS_PREFIX@ + (section_lines(tools_text(a)) + "\n"@ + section_lines(
            tools_text(b),
        )) + TOOLS_SUFFIX@,
        tool_list(Some(JsonView::Array(a))) == Some(a),
{
    assert(schema_texts(seq![tool]) =~= seq![py_text(canonical(tool))]);
    assert(schema_texts(a + b) =~= schema_texts(a) + schema_texts(b));
    joined_parts(py_text(canonical(tool)), schema_texts(a), schema_texts(b), "\n"@);
    let ja = joined(schema_texts(a), "\n"@);
    let jb = joined(schema_texts(b), "\n"@);
    assert(section_lines(tools_text(a)) =~= ja);
    assert(section_lines(tools_text(b)) =~= jb);
    assert(tools_text(a + b) =~= TOOLS_PREFIX@ + (ja + "\n"@ + jb) + TOOLS_SUFFIX@);
}

} // verus!
