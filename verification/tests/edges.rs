use dsv4_prompt::dsml::{encode_arguments_to_dsml, render_parsed_arguments};
use dsv4_prompt::json::{json_truthy, str_field, str_field_opt, Json, JsonObject, Number};
use dsv4_prompt::markers::{task_sp_token, REASONING_EFFORT_MAX};
use dsv4_prompt::merge::{content_to_string, merge_tool_messages, tool_result_content};
use dsv4_prompt::options::{
    consults_defaults, default_effort_enum, default_reasoning_effort, default_thinking, resolve_render_opts,
    router_defaults, thinking_env_unrecognized, ReasoningEffort, RenderOpts,
};
use dsv4_prompt::order::sort_tool_results_by_call_order;
use dsv4_prompt::parse::{from_value, read_json};
use dsv4_prompt::pyjson::py_json;
use dsv4_prompt::render::{render_block, render_messages, try_render_messages};
use dsv4_prompt::request::{render_request, RenderErr, RequestParts};
use dsv4_prompt::thinking::{drop_thinking_messages, last_user_index};
use dsv4_prompt::tools::{canonical_function, render_tools};
use dsv4_prompt::turns::Block;

/// A value of the library from a JSON text.
fn json(text: &str) -> Json {
    convert(serde_json::from_str(text).unwrap())
}

fn convert(value: serde_json::Value) -> Json {
    match value {
        serde_json::Value::Null => Json::Null,
        serde_json::Value::Bool(b) => Json::Bool(b),
        serde_json::Value::Number(n) => Json::Number(if let Some(u) = n.as_u64() {
            Number::PosInt(u)
        } else if let Some(i) = n.as_i64() {
            Number::NegInt(i)
        } else {
            Number::Float(n.to_string())
        }),
        serde_json::Value::String(s) => Json::Text(s),
        serde_json::Value::Array(items) => {
            Json::Array(items.into_iter().map(convert).collect())
        }
        serde_json::Value::Object(members) => {
            let mut object = JsonObject::new();
            for (key, value) in members {
                object = object.insert(&key, convert(value));
            }
            Json::Object(object)
        }
    }
}

const THINKING: RenderOpts = RenderOpts {
    thinking: true,
    reasoning_effort: ReasoningEffort::Normal,
};

/// The blocks of a turn, each as it is rendered.
fn block_lines(blocks: &Option<Vec<Block>>) -> Vec<String> {
    blocks.as_ref().unwrap().iter().map(render_block).collect()
}

fn merged(text: &str) -> Vec<dsv4_prompt::turns::MergedMsg> {
    match json(text) {
        Json::Array(items) => merge_tool_messages(&items),
        _ => panic!("no list of messages"),
    }
}

#[test]
fn strings_are_escaped_as_json_asks() {
    let v = Json::Text("a\"b\\c\n\t\r\u{8}\u{c}\u{1}\u{1f}\u{7f}é｜".to_string());
    assert_eq!(
        py_json(&v),
        "\"a\\\"b\\\\c\\n\\t\\r\\b\\f\\u0001\\u001f\u{7f}é｜\""
    );
    assert_eq!(py_json(&json(r#"{"k\"": "v"}"#)), r#"{"k\"": "v"}"#);
}

#[test]
fn integers_and_floats_print_in_full() {
    assert_eq!(py_json(&json("0")), "0");
    assert_eq!(py_json(&json("-5")), "-5");
    assert_eq!(py_json(&json("18446744073709551615")), "18446744073709551615");
    assert_eq!(py_json(&json("-9223372036854775808")), "-9223372036854775808");
    assert_eq!(py_json(&json("[1.5, -0.0, 1e-5]")), "[1.5, -0.0, 0.00001]");
    assert_eq!(py_json(&json("[true, false, null, [], {}]")), "[true, false, null, [], {}]");
}

#[test]
fn content_shapes_flatten() {
    assert_eq!(content_to_string(Some(&json("\"s\""))), "s");
    assert_eq!(content_to_string(Some(&json("42"))), "42");
    assert_eq!(content_to_string(Some(&json("-3"))), "-3");
    assert_eq!(content_to_string(Some(&json("2.5"))), "2.5");
    assert_eq!(content_to_string(Some(&json("true"))), "");
    assert_eq!(content_to_string(Some(&json("{\"text\": \"x\"}"))), "");
    assert_eq!(content_to_string(Some(&json("null"))), "");
    assert_eq!(content_to_string(None), "");
    let parts = json(
        r#"[{"type":"text","text":"a"},{"type":"image_url","text":"b"},{"text":"c"},{"type":"text","text":"d"}]"#,
    );
    assert_eq!(content_to_string(Some(&parts)), "a d");
    assert_eq!(tool_result_content(Some(&parts)), "a d");
    let image = json(
        r#"[{"type":"image_url","text":"alt"},{"type":"text","text":"A"},{"type":"text","text":"B"}]"#,
    );
    assert_eq!(tool_result_content(Some(&image)), "A B");
    assert_eq!(tool_result_content(Some(&json("42"))), "");
    assert_eq!(tool_result_content(Some(&json("\"s\""))), "s");
    assert_eq!(tool_result_content(None), "");
}

#[test]
fn arguments_text_becomes_parameters() {
    let args = json(r#""{\"s\": \"x\\ny\", \"o\": {\"k\":[1,2.5,\"p,q:r\"],\"e\":\"\\\"\"}, \"n\": null}""#);
    assert_eq!(
        encode_arguments_to_dsml(&args),
        "<｜DSML｜parameter name=\"s\" string=\"true\">x\ny</｜DSML｜parameter>\n\
         <｜DSML｜parameter name=\"o\" string=\"false\">{\"k\": [1, 2.5, \"p,q:r\"], \"e\": \"\\\"\"}</｜DSML｜parameter>\n\
         <｜DSML｜parameter name=\"n\" string=\"false\">null</｜DSML｜parameter>"
    );
    assert_eq!(encode_arguments_to_dsml(&json("\"[1,2]\"")), "");
    assert_eq!(encode_arguments_to_dsml(&json("\"{}\"")), "");
    assert_eq!(
        encode_arguments_to_dsml(&json("\"\"")),
        "<｜DSML｜parameter name=\"arguments\" string=\"true\"></｜DSML｜parameter>"
    );
    assert_eq!(
        encode_arguments_to_dsml(&json("null")),
        "<｜DSML｜parameter name=\"arguments\" string=\"false\">null</｜DSML｜parameter>"
    );
    assert_eq!(
        encode_arguments_to_dsml(&json("[1,{\"a\":2}]")),
        "<｜DSML｜parameter name=\"arguments\" string=\"false\">[1, {\"a\": 2}]</｜DSML｜parameter>"
    );
}

#[test]
fn parsed_arguments_render_by_outcome() {
    assert_eq!(
        render_parsed_arguments(None, "raw"),
        "<｜DSML｜parameter name=\"arguments\" string=\"true\">raw</｜DSML｜parameter>"
    );
    assert_eq!(render_parsed_arguments(Some(&json("1")), "1"), "");
    assert_eq!(
        render_parsed_arguments(Some(&json(r#"{"a":"1,2","b":[1,2]}"#)), ""),
        "<｜DSML｜parameter name=\"a\" string=\"true\">1,2</｜DSML｜parameter>\n\
         <｜DSML｜parameter name=\"b\" string=\"false\">[1, 2]</｜DSML｜parameter>"
    );
}

#[test]
fn outside_values_convert() {
    let text = r#"{"a":[null,true,-1,18446744073709551615,2.5,"s"],"b":{"c":{}}}"#;
    let value: serde_json::Value = serde_json::from_str(text).unwrap();
    assert_eq!(py_json(&from_value(value)), py_json(&json(text)));
}

#[test]
fn texts_are_read_by_kind() {
    let read = |text: &str| read_json(text).map(|v| py_json(&v));
    assert_eq!(read("null").as_deref(), Some("null"));
    assert_eq!(read(" true ").as_deref(), Some("true"));
    assert_eq!(read("18446744073709551615").as_deref(), Some("18446744073709551615"));
    assert_eq!(read("-9223372036854775808").as_deref(), Some("-9223372036854775808"));
    assert_eq!(read("[1.50,-0,1e2]").as_deref(), Some("[1.5, -0.0, 100.0]"));
    assert_eq!(read(r#""a\u00e9""#).as_deref(), Some("\"aé\""));
    assert_eq!(
        read(r#"{"b":{"z":1,"y":[]},"a":2,"b":3}"#).as_deref(),
        Some(r#"{"b": 3, "a": 2}"#)
    );
    for text in ["", "{", "[1,]", "nul", "1 2", "'a'"] {
        assert!(read_json(text).is_none(), "{text}");
    }
    assert!(matches!(read_json("7"), Some(Json::Number(Number::PosInt(7)))));
    assert!(matches!(read_json("-7"), Some(Json::Number(Number::NegInt(-7)))));
    assert!(matches!(read_json("7.0"), Some(Json::Number(Number::Float(_)))));
}

#[test]
fn truthiness_of_floats() {
    assert!(!json_truthy(&json("0.0")));
    assert!(!json_truthy(&json("-0.0")));
    assert!(json_truthy(&json("1e-5")));
    assert!(json_truthy(&json("-2.5")));
    assert!(json_truthy(&json("-1")));
}

#[test]
fn members_keep_their_order() {
    let object = JsonObject::new()
        .insert("a", Json::Bool(true))
        .insert("b", Json::Null)
        .insert("c", Json::Bool(false))
        .insert("b", Json::Text("2".to_string()));
    assert_eq!(object.len(), 3);
    assert_eq!(object.key(1), "b");
    assert_eq!(object.value(1).as_str(), Some("2"));
    let fewer = object.remove("a").remove("missing");
    assert_eq!(py_json(&Json::Object(fewer)), r#"{"c": false, "b": "2"}"#);
}

#[test]
fn string_fields_are_read() {
    let m = json(r#"{"a": "x", "b": 1, "e": ""}"#);
    assert_eq!(str_field(&m, "a"), "x");
    assert_eq!(str_field(&m, "b"), "");
    assert_eq!(str_field(&m, "none"), "");
    assert_eq!(str_field_opt(&m, "a"), Some("x".to_string()));
    assert_eq!(str_field_opt(&m, "b"), None);
    assert_eq!(str_field_opt(&m, "e"), Some(String::new()));
    assert_eq!(str_field_opt(&json("[1]"), "a"), None);
}

#[test]
fn every_task_has_its_token() {
    assert_eq!(task_sp_token("action"), Some("<｜action｜>"));
    assert_eq!(task_sp_token("query"), Some("<｜query｜>"));
    assert_eq!(task_sp_token("authority"), Some("<｜authority｜>"));
    assert_eq!(task_sp_token("domain"), Some("<｜domain｜>"));
    assert_eq!(task_sp_token("title"), Some("<｜title｜>"));
    assert_eq!(task_sp_token("read_url"), Some("<｜read_url｜>"));
    assert_eq!(task_sp_token("Action"), None);
    assert_eq!(task_sp_token(""), None);
}

#[test]
fn thinking_is_dropped_before_the_last_user_turn() {
    let messages = json(
        r#"[{"role":"user","content":"U1"},{"role":"assistant","content":"A1","reasoning_content":"R1"},{"role":"user","content":"U2"}]"#,
    );
    assert_eq!(
        render_messages(&messages, None, THINKING),
        "<｜begin▁of▁sentence｜><｜User｜>U1<｜Assistant｜></think>A1<｜end▁of▁sentence｜><｜User｜>U2<｜Assistant｜><think>"
    );
    let tools = json(r#"[{"type":"function","function":{"name":"f"}}]"#);
    let section = match &tools {
        Json::Array(list) => render_tools(list),
        _ => unreachable!(),
    };
    assert_eq!(
        render_messages(&messages, Some(&tools), THINKING),
        format!(
            "<｜begin▁of▁sentence｜>\n\n{section}<｜User｜>U1<｜Assistant｜><think>R1</think>A1<｜end▁of▁sentence｜><｜User｜>U2<｜Assistant｜><think>"
        )
    );
}

#[test]
fn thinking_after_the_last_user_turn_stays() {
    let messages = json(
        r#"[{"role":"user","content":"U1"},{"role":"assistant","content":"A1","reasoning_content":"R1"}]"#,
    );
    assert_eq!(
        render_messages(&messages, None, THINKING),
        "<｜begin▁of▁sentence｜><｜User｜>U1<｜Assistant｜><think>R1</think>A1<｜end▁of▁sentence｜>"
    );
    assert_eq!(
        render_messages(&messages, None, RenderOpts::chat()),
        "<｜begin▁of▁sentence｜><｜User｜>U1<｜Assistant｜></think>A1<｜end▁of▁sentence｜>"
    );
}

#[test]
fn dropping_takes_developer_turns_along() {
    let messages = json(
        r#"[{"role":"developer","content":"D"},{"role":"other","content":"O"},{"role":"latest_reminder","content":"L"},{"role":"user","content":"U"},{"role":"other","content":"P"}]"#,
    );
    assert_eq!(
        render_messages(&messages, None, THINKING),
        "<｜begin▁of▁sentence｜>L<｜User｜>UP"
    );
    assert_eq!(
        render_messages(&messages, None, RenderOpts::chat()),
        "<｜begin▁of▁sentence｜><｜User｜>DOL<｜User｜>UP"
    );
}

#[test]
fn a_reminder_takes_the_transition() {
    let messages = json(
        r#"[{"role":"user","content":"U"},{"role":"latest_reminder","content":"L"}]"#,
    );
    assert_eq!(
        render_messages(&messages, None, RenderOpts::chat()),
        "<｜begin▁of▁sentence｜><｜User｜>U<｜Assistant｜></think>L"
    );
}

#[test]
fn the_highest_effort_has_a_preamble() {
    let messages = json(r#"[{"role":"system","content":"S"},{"role":"user","content":"U"}]"#);
    let opts = RenderOpts {
        thinking: true,
        reasoning_effort: ReasoningEffort::Max,
    };
    assert_eq!(
        render_messages(&messages, None, opts),
        format!("<｜begin▁of▁sentence｜>{REASONING_EFFORT_MAX}S<｜User｜>U<｜Assistant｜><think>")
    );
}

#[test]
fn results_follow_the_calls() {
    let mut turns = merged(
        r#"[{"role":"assistant","tool_calls":[{"id":"a","function":{"name":"f"}},{"function":{"id":"b","name":"g"}},{"id":"c"}]},
            {"role":"tool","tool_call_id":"c","content":"C"},
            {"role":"user","content":"T"},
            {"role":"tool","tool_call_id":"x","content":"X"},
            {"role":"tool","tool_call_id":"b","content":"B"},
            {"role":"tool","tool_call_id":"a","content":"A"}]"#,
    );
    sort_tool_results_by_call_order(&mut turns);
    assert_eq!(
        block_lines(&turns[1].blocks),
        [
            "<tool_result>X</tool_result>",
            "T",
            "<tool_result>A</tool_result>",
            "<tool_result>B</tool_result>",
            "<tool_result>C</tool_result>",
        ]
    );
}

#[test]
fn the_last_call_of_an_identifier_counts() {
    let mut turns = merged(
        r#"[{"role":"assistant","tool_calls":[{"id":"a"},{"id":"b"},{"id":"a"}]},
            {"role":"tool","tool_call_id":"a","content":"A"},
            {"role":"tool","tool_call_id":"b","content":"B"}]"#,
    );
    sort_tool_results_by_call_order(&mut turns);
    assert_eq!(
        block_lines(&turns[1].blocks),
        ["<tool_result>B</tool_result>", "<tool_result>A</tool_result>"]
    );
}

#[test]
fn results_without_identified_calls_stay() {
    let mut turns = merged(
        r#"[{"role":"assistant","tool_calls":[{"function":{"name":"f"}},{"function":{"name":"g"}}]},
            {"role":"tool","tool_call_id":"z","content":"Z"},
            {"role":"tool","tool_call_id":"a","content":"A"}]"#,
    );
    sort_tool_results_by_call_order(&mut turns);
    assert_eq!(
        block_lines(&turns[1].blocks),
        ["<tool_result>Z</tool_result>", "<tool_result>A</tool_result>"]
    );
}

#[test]
fn calls_that_order_are_the_latest() {
    let mut turns = merged(
        r#"[{"role":"assistant","tool_calls":[{"id":"a"},{"id":"b"}]},
            {"role":"assistant","content":"no calls"},
            {"role":"assistant","tool_calls":[{"id":"b"},{"id":"a"}]},
            {"role":"tool","tool_call_id":"a","content":"A"},
            {"role":"tool","tool_call_id":"b","content":"B"}]"#,
    );
    sort_tool_results_by_call_order(&mut turns);
    assert_eq!(
        block_lines(&turns[3].blocks),
        ["<tool_result>B</tool_result>", "<tool_result>A</tool_result>"]
    );
}

#[test]
fn merging_keeps_what_a_role_has() {
    let turns = merged(
        r#"[{"role":"tool","content":"R","tool_call_id":"i"},
            {"role":"user","content":"U","task":"query"},
            {"role":"assistant","content":"A","reasoning_content":"T","task":"title","tool_calls":[{"id":"","function":{"id":"fi","name":"f"}}]},
            {"content":"N"}]"#,
    );
    assert_eq!(turns.len(), 3);
    assert_eq!(turns[0].role, "user");
    assert_eq!(turns[0].content, "");
    assert_eq!(turns[0].task, None);
    assert_eq!(block_lines(&turns[0].blocks), ["<tool_result>R</tool_result>", "U"]);
    assert_eq!(turns[1].role, "assistant");
    assert_eq!(turns[1].reasoning_content, "T");
    assert_eq!(turns[1].task.as_deref(), Some("title"));
    assert_eq!(turns[1].tool_calls[0].id, "fi");
    assert!(turns[1].tool_calls[0].arguments.is_null());
    assert!(turns[1].blocks.is_none());
    assert_eq!(turns[2].role, "");
    assert_eq!(turns[2].content, "N");
}

#[test]
fn last_user_turn_is_found() {
    let turns = merged(
        r#"[{"role":"user","content":"U"},{"role":"developer","content":"D"},{"role":"assistant","content":"A","reasoning_content":"R"}]"#,
    );
    assert_eq!(last_user_index(&turns), Some(1));
    let left = drop_thinking_messages(turns);
    assert_eq!(left.len(), 3);
    assert_eq!(left[2].reasoning_content, "R");
    assert_eq!(last_user_index(&merged(r#"[{"role":"assistant"}]"#)), None);
}

#[test]
fn a_tool_schema_shows_deferred_loading_when_set() {
    let tool = json(
        r#"{"defer_loading":true,"function":{"defer_loading":false,"strict":true,"name":"n","description":"d","parameters":{}}}"#,
    );
    assert_eq!(
        py_json(&canonical_function(&tool)),
        r#"{"description": "d", "name": "n", "parameters": {}, "strict": true, "defer_loading": false}"#
    );
    assert_eq!(
        py_json(&canonical_function(&json(r#"{"function":{"defer_loading":null}}"#))),
        r#"{"description": null, "name": null, "parameters": null, "strict": false}"#
    );
    assert_eq!(
        py_json(&canonical_function(&json("1"))),
        r#"{"description": null, "name": null, "parameters": null, "strict": false}"#
    );
}

#[test]
fn an_invalid_task_has_no_prompt() {
    let invalid = json(r#"[{"role":"user","content":"U","task":"nope"}]"#);
    assert_eq!(try_render_messages(&invalid, None, RenderOpts::chat()), None);
    let hidden = json(
        r#"[{"role":"user","content":"U","task":"nope"},{"role":"user","content":"V"}]"#,
    );
    assert_eq!(
        try_render_messages(&hidden, None, RenderOpts::chat()).as_deref(),
        Some("<｜begin▁of▁sentence｜><｜User｜>U<｜User｜>V<｜Assistant｜></think>")
    );
}

#[test]
fn errors_have_words() {
    let messages = json(r#"[{"role":"assistant","content":true}]"#);
    let err = render_request(
        &messages,
        None,
        RenderOpts::chat(),
        RequestParts {
            task: Some("query"),
            continue_final_message: false,
        },
    )
    .unwrap_err();
    assert_eq!(err, RenderErr::TaskWithoutUser);
    assert_eq!(err.message(), "`task` requires a user/developer message");
    let err = render_request(
        &messages,
        None,
        RenderOpts::chat(),
        RequestParts {
            task: Some("nope"),
            continue_final_message: false,
        },
    )
    .unwrap_err();
    assert_eq!(err, RenderErr::InvalidTask);
    assert_eq!(err.message(), "task outside encoding_dsv4.VALID_TASKS");
}

#[test]
fn content_that_does_not_flatten_stays_with_the_assistant() {
    let messages = json(r#"[{"role":"user","content":"U"},{"role":"assistant","content":7}]"#);
    for continue_final_message in [true, false] {
        let (prompt, prefix) = render_request(
            &messages,
            None,
            RenderOpts::chat(),
            RequestParts {
                task: None,
                continue_final_message,
            },
        )
        .unwrap();
        assert_eq!(prefix, None);
        assert_eq!(
            prompt,
            "<｜begin▁of▁sentence｜><｜User｜>U<｜Assistant｜></think>7<｜end▁of▁sentence｜>"
        );
    }
}

#[test]
fn unrecognized_environment_values_are_told() {
    for value in ["maybe", "on", " ", "2"] {
        assert!(thinking_env_unrecognized(Some(value)), "{value}");
    }
    for value in ["", "true", "NO", "y", "0"] {
        assert!(!thinking_env_unrecognized(Some(value)), "{value}");
    }
    assert!(!thinking_env_unrecognized(None));
}

#[test]
fn defaults_are_consulted_when_something_is_open() {
    for open in [
        "{}",
        r#"{"chat_template_kwargs":{"thinking":true}}"#,
        r#"{"chat_template_kwargs":{"reasoning_effort":"max"}}"#,
        r#"{"reasoning_effort":null}"#,
    ] {
        assert!(consults_defaults(&json(open)), "{open}");
    }
    for closed in [
        r#"{"reasoning_effort":"high"}"#,
        r#"{"reasoning_effort":3}"#,
        r#"{"chat_template_kwargs":{"thinking":null,"reasoning_effort":"x"}}"#,
    ] {
        assert!(!consults_defaults(&json(closed)), "{closed}");
    }
}

#[test]
fn environment_sets_the_defaults() {
    let defaults = router_defaults(Some("Y"), Some("max"));
    assert!(default_thinking(&defaults));
    assert_eq!(default_reasoning_effort(&defaults), Some("max"));
    assert_eq!(default_effort_enum(&defaults), ReasoningEffort::Max);
    let opts = resolve_render_opts(&json("{}"), &defaults);
    assert!(opts.thinking);
    assert_eq!(opts.reasoning_effort, ReasoningEffort::Max);
    let set = resolve_render_opts(
        &json(r#"{"chat_template_kwargs":{"thinking":0},"reasoning_effort":3}"#),
        &defaults,
    );
    assert!(!set.thinking);
    assert_eq!(set.reasoning_effort, ReasoningEffort::Normal);

    let none = router_defaults(Some("maybe"), Some("low"));
    assert!(!default_thinking(&none));
    assert_eq!(default_reasoning_effort(&none), None);
    assert_eq!(default_effort_enum(&none), ReasoningEffort::Normal);
    let high = router_defaults(None, Some("high"));
    assert_eq!(default_effort_enum(&high), ReasoningEffort::High);
}
