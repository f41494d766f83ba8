use dsv4_prompt::json::{Json, JsonObject, Number};
use dsv4_prompt::options::{ReasoningEffort, RenderOpts};
use dsv4_prompt::render::render_messages;

/// A value of the library from a JSON text.
fn json(text: &str) -> Json {
    convert(serde_json::from_str(text).unwrap())
}

fn convert(value: serde_json::Value) -> Json {
    match value {
        serde_json::Value::Null => Json::Null,
        serde_json::Value::Bool(b) => Json::Bool(b),
        serde_json::Value::Number(n) => Json::Number(if let Some(u) = n.as_u64() {
            Number::PosInt(u)
        } else if let Some(i) = n.as_i64() {
            Number::NegInt(i)
        } else {
            Number::Float(n.to_string())
        }),
        serde_json::Value::String(s) => Json::Text(s),
        serde_json::Value::Array(items) => {
            Json::Array(items.into_iter().map(convert).collect())
        }
        serde_json::Value::Object(members) => {
            let mut object = JsonObject::new();
            for (key, value) in members {
                object = object.insert(&key, convert(value));
            }
            Json::Object(object)
        }
    }
}

#[test]
fn single_user_turn() {
    let out = render_messages(
        &json(r##"[{"role":"user","content":"ABCD"}]"##),
        None,
        RenderOpts::chat(),
    );
    assert_eq!(
        out,
        "<｜begin▁of▁sentence｜><｜User｜>ABCD<｜Assistant｜></think>"
    );
}

#[test]
fn system_then_user() {
    let out = render_messages(
        &json(r##"[ {"role":"system","content":"SYS"}, {"role":"user","content":"ABCD"} ]"##),
        None,
        RenderOpts::chat(),
    );
    assert_eq!(
        out,
        "<｜begin▁of▁sentence｜>SYS<｜User｜>ABCD<｜Assistant｜></think>"
    );
}

#[test]
fn multi_turn() {
    let out = render_messages(
        &json(r##"[ {"role":"user","content":"U1"}, {"role":"assistant","content":"A1"}, {"role":"user","content":"U2"} ]"##),
        None,
        RenderOpts::chat(),
    );
    assert_eq!(
        out,
        "<｜begin▁of▁sentence｜><｜User｜>U1<｜Assistant｜></think>A1<｜end▁of▁sentence｜><｜User｜>U2<｜Assistant｜></think>"
    );
}

#[test]
fn explicit_empty_system_is_not_duplicated() {
    let out = render_messages(
        &json(r##"[ {"role":"system","content":""}, {"role":"user","content":"ABCD"} ]"##),
        None,
        RenderOpts::chat(),
    );
    assert_eq!(
        out,
        "<｜begin▁of▁sentence｜><｜User｜>ABCD<｜Assistant｜></think>"
    );
}

#[test]
fn array_content_flattens_text_parts() {
    let out = render_messages(
        &json(r##"[ {"role":"user","content":[{"type":"text","text":"AB"},{"type":"text","text":"CD"}]} ]"##),
        None,
        RenderOpts::chat(),
    );
    assert_eq!(
        out,
        "<｜begin▁of▁sentence｜><｜User｜>AB CD<｜Assistant｜></think>"
    );
}

#[test]
fn consecutive_user_turns_merge() {
    let out = render_messages(
        &json(r##"[ {"role":"user","content":"U1"}, {"role":"user","content":"U2"} ]"##),
        None,
        RenderOpts::chat(),
    );
    assert_eq!(
        out,
        "<｜begin▁of▁sentence｜><｜User｜>U1\n\nU2<｜Assistant｜></think>"
    );
}

#[test]
fn user_runs_do_not_merge_across_assistant() {
    let out = render_messages(
        &json(r##"[ {"role":"user","content":"U1"}, {"role":"user","content":"U2"}, {"role":"assistant","content":"A1"}, {"role":"user","content":"U3"} ]"##),
        None,
        RenderOpts::chat(),
    );
    assert_eq!(
        out,
        "<｜begin▁of▁sentence｜><｜User｜>U1\n\nU2<｜Assistant｜></think>A1<｜end▁of▁sentence｜><｜User｜>U3<｜Assistant｜></think>"
    );
}

#[test]
fn developer_role_renders_like_user_without_merging() {
    assert_eq!(
        render_messages(
            &json(r##"[{"role":"developer","content":"D1"}]"##),
            None,
            RenderOpts::chat()
        ),
        "<｜begin▁of▁sentence｜><｜User｜>D1<｜Assistant｜></think>"
    );
    assert_eq!(
        render_messages(
            &json(r##"[ {"role":"developer","content":"D1"}, {"role":"developer","content":"D2"} ]"##),
            None,
            RenderOpts::chat()
        ),
        "<｜begin▁of▁sentence｜><｜User｜>D1<｜User｜>D2<｜Assistant｜></think>"
    );
}

#[test]
fn empty_messages_renders_bos_only() {
    assert_eq!(
        render_messages(&json(r##"[]"##), None, RenderOpts::chat()),
        "<｜begin▁of▁sentence｜>"
    );
}

#[test]
fn renders_tools_after_system_content() {
    let messages = json(r##"[ {"role":"system","content":"SYS"}, {"role":"user","content":"hi"} ]"##);
    let tools = json(r##"[ {"type":"function","function":{"name":"get_weather","description":"Get weather","parameters":{"type":"object","properties":{"city":{"type":"string"}}}}} ]"##);
    let expected = "<｜begin▁of▁sentence｜>SYS\n\n## Tools\n\nYou have access to a set of tools to help answer the user's question. You can invoke tools by writing a \"<｜DSML｜tool_calls>\" block like the following:\n\n<｜DSML｜tool_calls>\n<｜DSML｜invoke name=\"$TOOL_NAME\">\n<｜DSML｜parameter name=\"$PARAMETER_NAME\" string=\"true|false\">$PARAMETER_VALUE</｜DSML｜parameter>\n...\n</｜DSML｜invoke>\n<｜DSML｜invoke name=\"$TOOL_NAME2\">\n...\n</｜DSML｜invoke>\n</｜DSML｜tool_calls>\n\nString parameters should be specified as is and set `string=\"true\"`. For all other types (numbers, booleans, arrays, objects), pass the value in JSON format and set `string=\"false\"`.\n\nIf thinking_mode is enabled (triggered by <think>), you MUST output your complete reasoning inside <think>...</think> BEFORE any tool calls or final response.\n\nOtherwise, output directly after </think> with tool calls or final response.\n\n### Available Tool Schemas\n\n{\"description\": \"Get weather\", \"name\": \"get_weather\", \"parameters\": {\"type\": \"object\", \"properties\": {\"city\": {\"type\": \"string\"}}}, \"strict\": false}\n\nYou MUST strictly follow the above defined tool name and parameter schemas to invoke tool calls.\n<｜User｜>hi<｜Assistant｜></think>";
    assert_eq!(
        render_messages(&messages, Some(&tools), RenderOpts::chat()),
        expected
    );
}

#[test]
fn empty_tools_array_renders_no_tools_block() {
    let messages = json(r##"[{"role":"user","content":"hi"}]"##);
    assert_eq!(
        render_messages(&messages, Some(&json(r##"[]"##)), RenderOpts::chat()),
        "<｜begin▁of▁sentence｜><｜User｜>hi<｜Assistant｜></think>"
    );
}

#[test]
fn renders_tools_when_no_system_message_present() {
    let messages = json(r##"[{"role":"user","content":"hi"}]"##);
    let tools = json(r##"[{"type":"function","function":{"name":"ping","description":"p"}}]"##);
    let out = render_messages(&messages, Some(&tools), RenderOpts::chat());
    assert!(
        out.starts_with("<｜begin▁of▁sentence｜>\n\n## Tools\n\n"),
        "tools block should follow the inserted empty system; got: {out}"
    );
    assert!(out.contains(
        r#"{"description": "p", "name": "ping", "parameters": null, "strict": false}"#
    ));
    assert!(out.ends_with("<｜User｜>hi<｜Assistant｜></think>"));
}

#[test]
fn renders_assistant_tool_calls_and_tool_result() {
    let messages = json(r##"[ {"role":"user","content":"u1"}, {"role":"assistant","content":"reading","tool_calls":[ {"id":"c1","type":"function","function":{"name":"read","arguments":"{\"filePath\": \"/x\", \"limit\": 10, \"nested\": {\"a\": 1}}"}} ]}, {"role":"tool","tool_call_id":"c1","content":"FILE"}, {"role":"user","content":"u2"} ]"##);
    let expected = "<｜begin▁of▁sentence｜><｜User｜>u1<｜Assistant｜></think>reading\n\n<｜DSML｜tool_calls>\n<｜DSML｜invoke name=\"read\">\n<｜DSML｜parameter name=\"filePath\" string=\"true\">/x</｜DSML｜parameter>\n<｜DSML｜parameter name=\"limit\" string=\"false\">10</｜DSML｜parameter>\n<｜DSML｜parameter name=\"nested\" string=\"false\">{\"a\": 1}</｜DSML｜parameter>\n</｜DSML｜invoke>\n</｜DSML｜tool_calls><｜end▁of▁sentence｜><｜User｜><tool_result>FILE</tool_result>\n\nu2<｜Assistant｜></think>";
    assert_eq!(
        render_messages(&messages, None, RenderOpts::chat()),
        expected
    );
}

#[test]
fn tool_results_sorted_by_call_order() {
    let messages = json(r##"[ {"role":"assistant","content":"","tool_calls":[ {"id":"a","type":"function","function":{"name":"t1","arguments":"{}"}}, {"id":"b","type":"function","function":{"name":"t2","arguments":"{}"}} ]}, {"role":"tool","tool_call_id":"b","content":"RB"}, {"role":"tool","tool_call_id":"a","content":"RA"} ]"##);
    let expected = "<｜begin▁of▁sentence｜>\n\n<｜DSML｜tool_calls>\n<｜DSML｜invoke name=\"t1\">\n\n</｜DSML｜invoke>\n<｜DSML｜invoke name=\"t2\">\n\n</｜DSML｜invoke>\n</｜DSML｜tool_calls><｜end▁of▁sentence｜><｜User｜><tool_result>RA</tool_result>\n\n<tool_result>RB</tool_result><｜Assistant｜></think>";
    assert_eq!(
        render_messages(&messages, None, RenderOpts::chat()),
        expected
    );
}

#[test]
fn renders_multiple_tools() {
    let messages = json(r##"[ {"role":"system","content":"S"}, {"role":"user","content":"hi"} ]"##);
    let tools = json(r##"[ {"type":"function","function":{"name":"a","description":"da","parameters":{"type":"object"}}}, {"type":"function","function":{"name":"b","strict":true}} ]"##);
    let expected = "<｜begin▁of▁sentence｜>S\n\n## Tools\n\nYou have access to a set of tools to help answer the user's question. You can invoke tools by writing a \"<｜DSML｜tool_calls>\" block like the following:\n\n<｜DSML｜tool_calls>\n<｜DSML｜invoke name=\"$TOOL_NAME\">\n<｜DSML｜parameter name=\"$PARAMETER_NAME\" string=\"true|false\">$PARAMETER_VALUE</｜DSML｜parameter>\n...\n</｜DSML｜invoke>\n<｜DSML｜invoke name=\"$TOOL_NAME2\">\n...\n</｜DSML｜invoke>\n</｜DSML｜tool_calls>\n\nString parameters should be specified as is and set `string=\"true\"`. For all other types (numbers, booleans, arrays, objects), pass the value in JSON format and set `string=\"false\"`.\n\nIf thinking_mode is enabled (triggered by <think>), you MUST output your complete reasoning inside <think>...</think> BEFORE any tool calls or final response.\n\nOtherwise, output directly after </think> with tool calls or final response.\n\n### Available Tool Schemas\n\n{\"description\": \"da\", \"name\": \"a\", \"parameters\": {\"type\": \"object\"}, \"strict\": false}\n{\"description\": null, \"name\": \"b\", \"parameters\": null, \"strict\": true}\n\nYou MUST strictly follow the above defined tool name and parameter schemas to invoke tool calls.\n<｜User｜>hi<｜Assistant｜></think>";
    assert_eq!(
        render_messages(&messages, Some(&tools), RenderOpts::chat()),
        expected
    );
}

#[test]
fn inlined_object_arguments_wrapped_like_engine() {
    let messages = json(r##"[ {"role":"assistant","content":"","tool_calls":[ {"id":"c1","type":"function","function":{"name":"f","arguments":{"x":1,"y":"z"}}} ]}, {"role":"tool","tool_call_id":"c1","content":"R"} ]"##);
    let expected = "<｜begin▁of▁sentence｜>\n\n<｜DSML｜tool_calls>\n<｜DSML｜invoke name=\"f\">\n<｜DSML｜parameter name=\"arguments\" string=\"false\">{\"x\": 1, \"y\": \"z\"}</｜DSML｜parameter>\n</｜DSML｜invoke>\n</｜DSML｜tool_calls><｜end▁of▁sentence｜><｜User｜><tool_result>R</tool_result><｜Assistant｜></think>";
    assert_eq!(
        render_messages(&messages, None, RenderOpts::chat()),
        expected
    );
}

#[test]
fn invalid_json_arguments_wrapped_like_engine() {
    let messages = json(r##"[ {"role":"assistant","content":"","tool_calls":[ {"id":"c1","type":"function","function":{"name":"f","arguments":"not json"}} ]}, {"role":"tool","tool_call_id":"c1","content":"R"} ]"##);
    let expected = "<｜begin▁of▁sentence｜>\n\n<｜DSML｜tool_calls>\n<｜DSML｜invoke name=\"f\">\n<｜DSML｜parameter name=\"arguments\" string=\"true\">not json</｜DSML｜parameter>\n</｜DSML｜invoke>\n</｜DSML｜tool_calls><｜end▁of▁sentence｜><｜User｜><tool_result>R</tool_result><｜Assistant｜></think>";
    assert_eq!(
        render_messages(&messages, None, RenderOpts::chat()),
        expected
    );
}

#[test]
fn task_merge_guard_and_tool_fold() {
    let text = render_messages(
        &json(r##"[ {"role":"user","content":"a","task":"query"}, {"role":"user","content":"b"} ]"##),
        None,
        RenderOpts::chat(),
    );
    assert_eq!(
        text,
        "<｜begin▁of▁sentence｜><｜User｜>a<｜User｜>b<｜Assistant｜></think>"
    );

    let text = render_messages(
        &json(r##"[ {"role":"user","content":"a","task":"query"}, {"role":"assistant","content":"b"} ]"##),
        None,
        RenderOpts::chat(),
    );
    assert_eq!(
        text,
        "<｜begin▁of▁sentence｜><｜User｜>a<｜query｜>b<｜end▁of▁sentence｜>"
    );

    let text = render_messages(
        &json(r##"[ {"role":"user","content":"q","task":"query"}, {"role":"tool","content":"result","tool_call_id":"c1"} ]"##),
        None,
        RenderOpts::chat(),
    );
    assert_eq!(
        text,
        "<｜begin▁of▁sentence｜><｜User｜>q\n\n<tool_result>result</tool_result><｜query｜>",
    );
}

#[test]
fn prev_has_task_suppresses_thinking() {
    let thinking = |with_task: bool| {
        let messages = if with_task {
            json(
                r##"[
                    {"role":"system","content":"s"},
                    {"role":"user","content":"q","task":"query"},
                    {"role":"assistant","content":"answer","reasoning_content":"my reasoning"},
                    {"role":"user","content":"next"}
                ]"##,
            )
        } else {
            json(
                r##"[
                    {"role":"system","content":"s"},
                    {"role":"user","content":"q"},
                    {"role":"assistant","content":"answer","reasoning_content":"my reasoning"},
                    {"role":"user","content":"next"}
                ]"##,
            )
        };
        let tools = json(r##"[{"type":"function","function":{"name":"f"}}]"##);
        render_messages(
            &messages,
            Some(&tools),
            RenderOpts {
                thinking: true,
                reasoning_effort: ReasoningEffort::Normal,
            },
        )
    };
    assert!(thinking(false).contains("my reasoning</think>"));
    assert!(
        !thinking(true).contains("my reasoning"),
        "task output must not render its reasoning"
    );
    assert!(thinking(true).contains("answer<｜end▁of▁sentence｜>"));
}
