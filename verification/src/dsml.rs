//! Tool calls of an assistant turn as DSML markup.

use vstd::prelude::*;
use crate::json::{Json, JsonView, Members, json_view, opt_json};
use crate::markers::DSML;
use crate::parse::{parsed_json, read_json};
use crate::pyjson::{py_json, py_text};
use crate::reading::readable;
use crate::text::{join, joined, texts};
use crate::turns::{CallView, ToolCall, call_views};

verus! {

/// One `parameter` element.
pub open spec fn parameter_text(name: Seq<char>, is_text: bool, value: Seq<char>) -> Seq<char> {
    "<"@ + DSML@ + "parameter name=\""@ + name + "\" string=\""@ + (if is_text {
        "true"@
    } else {
        "false"@
    }) + "\">"@ + value + "</"@ + DSML@ + "parameter>"@
}

/// The `parameter` element of a value: a string as it is, any other value in
/// Python's JSON layout.
pub open spec fn value_parameter(name: Seq<char>, v: JsonView) -> Seq<char> {
    match v {
        JsonView::Text(s) => parameter_text(name, true, s),
        _ => parameter_text(name, false, py_text(v)),
    }
}

/// The `parameter` elements of an object's members.
pub open spec fn member_parameters(members: Members) -> Seq<Seq<char>> {
    members.map_values(|m: (Seq<char>, JsonView)| value_parameter(m.0, m.1))
}

/// The `parameter` lines of an arguments text that was read as `parsed`: one for each
/// member of an object; none for any other value; one that holds the text itself when it
/// was refused.
pub open spec fn parsed_parameters(parsed: Option<JsonView>, raw: Seq<char>) -> Seq<char> {
    match parsed {
        Some(JsonView::Object(members)) => joined(member_parameters(members), "\n"@),
        Some(_) => Seq::empty(),
        None => parameter_text("arguments"@, true, raw),
    }
}

/// The `parameter` lines of a call's arguments: a text goes by what is read from it,
/// any other value becomes one `arguments` parameter.
pub open spec fn arguments_text(arguments: JsonView) -> Seq<char> {
    match arguments {
        JsonView::Text(raw) => parsed_parameters(parsed_json(raw), raw),
        _ => value_parameter("arguments"@, arguments),
    }
}

/// One `invoke` element.
pub open spec fn invoke_text(call: CallView) -> Seq<char> {
    "<"@ + DSML@ + "invoke name=\""@ + call.name + "\">\n"@ + arguments_text(call.arguments)
        + "\n</"@ + DSML@ + "invoke>"@
}

/// The `invoke` elements of several calls.
pub open spec fn invoke_texts(calls: Seq<CallView>) -> Seq<Seq<char>> {
    calls.map_values(|c: CallView| invoke_text(c))
}

/// The `tool_calls` block of an assistant turn.
pub open spec fn tool_calls_text(calls: Seq<CallView>) -> Seq<char> {
    "<"@ + DSML@ + "tool_calls>\n"@ + joined(invoke_texts(calls), "\n"@) + "\n</"@ + DSML@
        + "tool_calls>"@
}

/// One `parameter` element.
fn parameter(name: &str, is_text: bool, value: &str) -> (r: String)
    ensures
        r@ == parameter_text(name@, is_text, value@),
{
    let mut out = "<".to_owned();
    out.append(DSML);
    out.append("parameter name=\"");
    out.append(name);
    out.append("\" string=\"");
    if is_text {
        out.append("true");
    } else {
        out.append("false");
    }
    out.append("\">");
    out.append(value);
    out.append("</");
    out.append(DSML);
    out.append("parameter>");
    out
}

/// The `parameter` element of a value.
fn value_line(name: &str, v: &Json) -> (r: String)
    ensures
        r@ == value_parameter(name@, v@),
{
    broadcast use json_view;

    match v {
        Json::Text(s) => parameter(name, true, s.as_str()),
        _ => parameter(name, false, py_json(v).as_str()),
    }
}

/// The `parameter` lines of an arguments text that was read as `parsed`.
pub fn render_parsed_arguments(parsed: Option<&Json>, raw: &str) -> (r: String)
    ensures
        r@ == parsed_parameters(opt_json(parsed), raw@),
{
    broadcast use json_view;

    match parsed {
        Some(Json::Object(o)) => {
            let ghost all = o@;
            let mut lines: Vec<String> = Vec::new();
            let mut i: usize = 0;
            while i < o.len()
                invariant
                    i <= all.len(),
                    all == o@,
                    texts(lines@) == member_parameters(all.take(i as int)),
                decreases all.len() - i,
            {
                let line = value_line(o.key(i), o.value(i));
                let ghost before = lines@;
                lines.push(line);
                proof {
                    assert(texts(lines@) =~= texts(before).push(line@));
                    assert(member_parameters(all.take(i + 1)) =~= member_parameters(
                        all.take(i as int),
                    ).push(line@));
                }
                i = i + 1;
            }
            proof {
                assert(all.take(i as int) =~= all);
            }
            join(&lines, "\n")
        },
        Some(_) => String::new(),
        None => parameter("arguments", true, raw),
    }
}

/// The `parameter` lines of a call's arguments. Arguments that are the text of an object,
/// as [`py_json`] writes it, give a line for each of its members.
pub fn encode_arguments_to_dsml(arguments: &Json) -> (r: String)
    ensures
        r@ == arguments_text(arguments@),
        forall|members: Members|
            #![trigger py_text(JsonView::Object(members))]
            readable(JsonView::Object(members)) && arguments@ == JsonView::Text(
                py_text(JsonView::Object(members)),
            ) ==> r@ == joined(member_parameters(members), "\n"@),
{
    broadcast use json_view;

    match arguments {
        Json::Text(raw) => {
            let parsed = read_json(raw.as_str());
            render_parsed_arguments(parsed.as_ref(), raw.as_str())
        },
        _ => value_line("arguments", arguments),
    }
}

/// The `tool_calls` block of an assistant turn.
pub fn render_tool_calls(tool_calls: &Vec<ToolCall>) -> (r: String)
    ensures
        r@ == tool_calls_text(call_views(tool_calls@)),
{
    let ghost calls = call_views(tool_calls@);
    let mut invokes: Vec<String> = Vec::new();
    let mut i: usize = 0;
    while i < tool_calls.len()
        invariant
            i <= tool_calls@.len(),
            calls == call_views(tool_calls@),
            texts(invokes@) == invoke_texts(calls.take(i as int)),
        decreases tool_calls@.len() - i,
    {
        let call = &tool_calls[i];
        let mut out = "<".to_owned();
        out.append(DSML);
        out.append("invoke name=\"");
        out.append(call.name.as_str());
        out.append("\">\n");
        out.append(encode_arguments_to_dsml(&call.arguments).as_str());
        out.append("\n</");
        out.append(DSML);
        out.append("invoke>");
        let ghost before = invokes@;
        invokes.push(out);
        proof {
            assert(calls[i as int] == call@);
            assert(out@ == invoke_text(call@));
            assert(texts(invokes@) =~= texts(before).push(out@));
            assert(calls.take(i + 1) =~= calls.take(i as int).push(call@));
            assert(invoke_texts(calls.take(i + 1)) =~= invoke_texts(calls.take(i as int)).push(
                out@,
            ));
        }
        i = i + 1;
    }
    proof {
        assert(calls.take(i as int) =~= calls);
    }
    let mut out = "<".to_owned();
    out.append(DSML);
    out.append("tool_calls>\n");
    out.append(join(&invokes, "\n").as_str());
    out.append("\n</");
    out.append(DSML);
    out.append("tool_calls>");
    out
}

} // verus!
