use dsv4_prompt::dsml::encode_arguments_to_dsml;
use dsv4_prompt::json::{Json, JsonObject, Number};
use dsv4_prompt::markers::{BOS, REASONING_EFFORT_MAX};
use dsv4_prompt::merge::merge_tool_messages;
use dsv4_prompt::options::{
    parse_env_bool, resolve_render_opts, router_defaults, ReasoningEffort, RenderOpts,
};
use dsv4_prompt::parse::read_json;
use dsv4_prompt::pyjson::py_json;
use dsv4_prompt::render::{render_messages, try_render_messages};
use dsv4_prompt::request::{render_request, RenderErr, RequestParts};
use dsv4_prompt::thinking::drop_thinking_messages;
use dsv4_prompt::tools::{canonical_function, render_tools};
use dsv4_prompt::turns::Block;

/// A value of the library from a JSON text.
fn json(text: &str) -> Json {
    convert(serde_json::from_str(text).unwrap())
}

fn convert(value: serde_json::Value) -> Json {
    match value {
        serde_json::Value::Null => Json::Null,
        serde_json::Value::Bool(b) => Json::Bool(b),
        serde_json::Value::Number(n) => Json::Number(if let Some(u) = n.as_u64() {
            Number::PosInt(u)
        } else if let Some(i) = n.as_i64() {
            Number::NegInt(i)
        } else {
            Number::Float(n.to_string())
        }),
        serde_json::Value::String(s) => Json::Text(s),
        serde_json::Value::Array(items) => {
            Json::Array(items.into_iter().map(convert).collect())
        }
        serde_json::Value::Object(members) => {
            let mut object = JsonObject::new();
            for (key, value) in members {
                object = object.insert(&key, convert(value));
            }
            Json::Object(object)
        }
    }
}

fn opts(thinking: bool, reasoning_effort: ReasoningEffort) -> RenderOpts {
    RenderOpts {
        thinking,
        reasoning_effort,
    }
}

fn request(
    messages: &str,
    task: Option<&str>,
    continue_final_message: bool,
) -> Result<(String, Option<String>), RenderErr> {
    render_request(
        &json(messages),
        None,
        RenderOpts::chat(),
        RequestParts {
            task,
            continue_final_message,
        },
    )
}

const TALK: &str = r#"[{"role":"user","content":"U1"},{"role":"assistant","content":"A1","reasoning_content":"R1","tool_calls":[{"id":"a","function":{"name":"f","arguments":"{}"}}]},{"role":"tool","tool_call_id":"a","content":"T1"},{"role":"user","content":"U2"}]"#;

const TALK_OTHER_THINKING: &str = r#"[{"role":"user","content":"U1"},{"role":"assistant","content":"A1","reasoning_content":"Q","tool_calls":[{"id":"a","function":{"name":"f","arguments":"{}"}}]},{"role":"tool","tool_call_id":"a","content":"T1"},{"role":"user","content":"U2"}]"#;

#[test]
fn chat_mode_ignores_thinking() {
    let chat = RenderOpts::chat();
    assert_eq!(
        render_messages(&json(TALK), None, chat),
        render_messages(&json(TALK_OTHER_THINKING), None, chat)
    );
}

#[test]
fn thinking_mode_without_tools_ignores_earlier_thinking() {
    let thinking = opts(true, ReasoningEffort::Normal);
    assert_eq!(
        render_messages(&json(TALK), None, thinking),
        render_messages(&json(TALK_OTHER_THINKING), None, thinking)
    );
    let tools = json(r#"[{"function":{"name":"f"}}]"#);
    assert_ne!(
        render_messages(&json(TALK), Some(&tools), thinking),
        render_messages(&json(TALK_OTHER_THINKING), Some(&tools), thinking)
    );
}

#[test]
fn prompts_begin_with_the_marker_and_end_open() {
    for thinking in [true, false] {
        let prompt = render_messages(&json(TALK), None, opts(thinking, ReasoningEffort::High));
        assert!(prompt.starts_with(BOS));
        assert!(prompt.ends_with(if thinking {
            "<｜Assistant｜><think>"
        } else {
            "<｜Assistant｜></think>"
        }));
    }
}

#[test]
fn only_the_highest_effort_alters_a_thinking_prompt() {
    let messages = json(TALK);
    let plain = render_messages(&messages, None, opts(true, ReasoningEffort::Normal));
    assert_eq!(plain, render_messages(&messages, None, opts(true, ReasoningEffort::High)));
    assert_eq!(
        render_messages(&messages, None, opts(true, ReasoningEffort::Max)),
        format!("{BOS}{REASONING_EFFORT_MAX}{}", &plain[BOS.len()..])
    );
    assert_eq!(
        render_messages(&messages, None, RenderOpts::chat()),
        render_messages(&messages, None, opts(false, ReasoningEffort::Max))
    );
}

#[test]
fn a_value_that_is_no_tools_list_is_no_tools() {
    let messages = json(TALK);
    let thinking = opts(true, ReasoningEffort::Normal);
    let bare = render_messages(&messages, None, thinking);
    for tools in ["[]", "{}", "null", "\"x\""] {
        assert_eq!(bare, render_messages(&messages, Some(&json(tools)), thinking));
    }
}

#[test]
fn no_messages_give_the_opening_alone() {
    for messages in ["[]", "null", "{\"role\":\"user\"}", "3"] {
        assert_eq!(render_messages(&json(messages), None, RenderOpts::chat()), BOS);
    }
    assert_eq!(
        render_messages(&json("[]"), None, opts(true, ReasoningEffort::Max)),
        format!("{BOS}{REASONING_EFFORT_MAX}")
    );
}

#[test]
fn a_value_that_is_no_list_gives_the_marker_alone() {
    let tools = json(r#"[{"function":{"name":"f"}}]"#);
    for messages in ["null", "{\"role\":\"user\"}", "3", "\"x\"", "true"] {
        let messages = json(messages);
        assert_eq!(render_messages(&messages, Some(&tools), RenderOpts::chat()), BOS);
        for tools in [None, Some(&tools)] {
            let max = opts(true, ReasoningEffort::Max);
            assert_eq!(render_messages(&messages, tools, max), BOS);
            assert_eq!(try_render_messages(&messages, tools, max).as_deref(), Some(BOS));
        }
    }
}

#[test]
fn the_python_layout_reads_back() {
    let texts = [
        r#"{"b":[1,-2,{"a, b":"x: y, z"}],"a":"日本語 \"q\" \\ \n\u0001","z":null,"t":true,"f":[],"o":{}}"#,
        "18446744073709551615",
        "-9223372036854775808",
        "\", : \"",
    ];
    for text in texts {
        let value: serde_json::Value = serde_json::from_str(text).unwrap();
        let written = py_json(&json(text));
        let read: serde_json::Value = serde_json::from_str(&written).unwrap();
        assert_eq!(read, value);
        assert_eq!(read.to_string(), value.to_string());
        assert_eq!(py_json(&read_json(&written).unwrap()), written);
    }
}

#[test]
fn written_arguments_render_by_member() {
    let object = json(r#"{"b":"x, y: z","a":[1,{"k":-7}]}"#);
    assert_eq!(
        encode_arguments_to_dsml(&Json::Text(py_json(&object))),
        "<｜DSML｜parameter name=\"b\" string=\"true\">x, y: z</｜DSML｜parameter>\n\
         <｜DSML｜parameter name=\"a\" string=\"false\">[1, {\"k\": -7}]</｜DSML｜parameter>"
    );
    let mut deep = json("1");
    for _ in 0..126 {
        deep = Json::Array(vec![deep]);
    }
    let nested = Json::Object(JsonObject::new().insert("d", deep));
    assert!(encode_arguments_to_dsml(&Json::Text(py_json(&nested)))
        .starts_with("<｜DSML｜parameter name=\"d\" string=\"false\">[[[["));
}

#[test]
fn the_python_layout_tells_values_apart() {
    let texts = ["1", "-1", "\"1\"", "[1]", "[\"1\"]", "[]", "{}", "[[]]", "[1, 11]", "[11, 1]", "null", "\"null\""];
    for (i, a) in texts.iter().enumerate() {
        for b in &texts[i + 1..] {
            assert_ne!(py_json(&json(a)), py_json(&json(b)));
        }
    }
    assert_ne!(
        py_json(&json(r#"{"a":1,"b":2}"#)),
        py_json(&json(r#"{"b":2,"a":1}"#))
    );
}

#[test]
fn tasks_of_clients_and_case_of_roles_do_not_matter() {
    let sent = r#"[{"task":"query","role":"USER","content":"U1"},{"role":"Assistant","content":"A1","task":"nope"},{"role":"uSer","task":3,"content":"U2"}]"#;
    let plain = r#"[{"role":"user","content":"U1"},{"role":"assistant","content":"A1"},{"role":"user","content":"U2"}]"#;
    for task in [None, Some("query"), Some("nope")] {
        assert_eq!(request(sent, task, false), request(plain, task, false));
    }
}

#[test]
fn a_trailing_assistant_message_speaks_as_user() {
    let given = r#"[{"role":"user","content":"U1"},{"role":"ASSISTANT","content":"A1","tool_calls":[{"id":"a"}]}]"#;
    let other = r#"[{"role":"user","content":"U1"},{"role":"user","content":"A1"}]"#;
    assert_eq!(request(given, None, false), request(other, None, false));
    assert_eq!(request(given, Some("title"), false), request(other, Some("title"), false));
}

#[test]
fn a_continued_message_follows_the_prompt() {
    let given = r#"[{"role":"user","content":"U1"},{"role":"assistant","content":[{"type":"text","text":"a"},{"type":"text","text":"b"}]}]"#;
    let without = r#"[{"role":"user","content":"U1"}]"#;
    let (prompt, prefix) = request(given, None, true).unwrap();
    assert_eq!(prefix.as_deref(), Some("a b"));
    assert_eq!(prompt, request(without, None, false).unwrap().0);
    assert_eq!(request(without, None, true), request(without, None, false));
}

#[test]
fn the_task_of_a_request_ends_its_prompt() {
    let messages = r#"[{"role":"user","content":"U1"},{"role":"assistant","content":"A1"},{"role":"user","content":"U2"}]"#;
    assert!(request(messages, Some("title"), false).unwrap().0.ends_with("U2<｜title｜>"));
    assert!(request(messages, Some("action"), false)
        .unwrap()
        .0
        .ends_with("U2<｜Assistant｜></think><｜action｜>"));
}

#[test]
fn a_task_is_lost_on_a_message_that_joins_a_turn() {
    let messages = r#"[{"role":"user","content":"U1"},{"role":"user","content":"U2"}]"#;
    assert_eq!(request(messages, Some("title"), false), request(messages, None, false));
}

#[test]
fn a_message_between_parts_the_runs() {
    let turns = |text: &str| match json(text) {
        Json::Array(items) => merge_tool_messages(&items),
        _ => unreachable!(),
    };
    let all = turns(
        r#"[{"role":"user","content":"a"},{"role":"tool","content":"b"},{"role":"system","content":"s"},{"role":"tool","content":"c"},{"role":"user","content":"d"}]"#,
    );
    assert_eq!(all.len(), 3);
    assert_eq!(all[0].blocks.as_ref().unwrap().len(), 2);
    assert_eq!(all[1].content, "s");
    assert!(matches!(all[2].blocks.as_ref().unwrap()[0], Block::ToolResult { .. }));
    assert!(matches!(all[2].blocks.as_ref().unwrap()[1], Block::Text(_)));
}

#[test]
fn dropping_thinking_twice_is_once() {
    let items = match json(
        r#"[{"role":"developer","content":"D"},{"role":"assistant","content":"A","reasoning_content":"R"},{"role":"user","content":"U"},{"role":"assistant","content":"B","reasoning_content":"S"}]"#,
    ) {
        Json::Array(items) => items,
        _ => unreachable!(),
    };
    let once = drop_thinking_messages(merge_tool_messages(&items));
    let shape: Vec<(String, String)> = once
        .iter()
        .map(|t| (t.role.clone(), t.reasoning_content.clone()))
        .collect();
    assert_eq!(
        shape,
        [
            ("assistant".to_string(), String::new()),
            ("user".to_string(), String::new()),
            ("assistant".to_string(), "S".to_string()),
        ]
    );
    let twice = drop_thinking_messages(once);
    let again: Vec<(String, String)> = twice
        .iter()
        .map(|t| (t.role.clone(), t.reasoning_content.clone()))
        .collect();
    assert_eq!(shape, again);
}

#[test]
fn a_schema_is_its_own_schema() {
    for tool in [
        r#"{"function":{"name":"f","description":"d","strict":true,"x":1}}"#,
        r#"{"function":{"name":"f","defer_loading":true,"parameters":{"type":"object"}}}"#,
        "{}",
    ] {
        let schema = canonical_function(&json(tool));
        let again = Json::Object(JsonObject::new().insert("function", schema.clone()));
        assert_eq!(py_json(&canonical_function(&again)), py_json(&schema));
    }
}

#[test]
fn chat_mode_tools_are_one_section() {
    let messages = json(
        r#"[{"role":"system","content":"S"},{"role":"user","content":"U1"},{"role":"assistant","content":"A1","reasoning_content":"R"},{"role":"user","content":"U2"}]"#,
    );
    let tools = json(r#"[{"function":{"name":"f"}}]"#);
    let section = match &tools {
        Json::Array(list) => render_tools(list),
        _ => unreachable!(),
    };
    let chat = RenderOpts::chat();
    let bare = render_messages(&messages, None, chat);
    let rest = bare.strip_prefix("<｜begin▁of▁sentence｜>S").unwrap();
    assert_eq!(
        render_messages(&messages, Some(&tools), chat),
        format!("<｜begin▁of▁sentence｜>S\n\n{section}{rest}")
    );
}

#[test]
fn text_beyond_ascii_is_not_escaped() {
    assert_eq!(py_json(&Json::Text("日本語 é".to_string())), "\"日本語 é\"");
}

#[test]
fn unknown_fields_of_a_tool_do_not_matter() {
    assert_eq!(
        py_json(&canonical_function(&json(r#"{"function":{"name":"f","x":1}}"#))),
        py_json(&canonical_function(&json(r#"{"y":2,"function":{"name":"f"}}"#)))
    );
}

#[test]
fn defaults_count_only_when_nothing_is_set() {
    let on = router_defaults(Some("true"), Some("max"));
    let off = router_defaults(Some("false"), None);
    let set = json(r#"{"reasoning_effort":"none"}"#);
    assert!(!resolve_render_opts(&set, &on).thinking);
    assert_eq!(resolve_render_opts(&set, &on).reasoning_effort, ReasoningEffort::Normal);
    let kwarg = json(r#"{"chat_template_kwargs":{"reasoning_effort":"max"}}"#);
    assert!(!resolve_render_opts(&kwarg, &off).thinking);
    assert!(resolve_render_opts(&kwarg, &on).thinking);
    assert_eq!(resolve_render_opts(&kwarg, &off).reasoning_effort, ReasoningEffort::Max);
}

#[test]
fn environment_booleans_ignore_case() {
    for (a, b) in [("YES", "yes"), ("nO", "no"), ("TrUe", "true"), ("Maybe", "maybe")] {
        assert_eq!(parse_env_bool(a), parse_env_bool(b));
    }
}
