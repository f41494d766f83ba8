use dsv4_prompt::json::{Json, JsonObject, Number};
use dsv4_prompt::options::{ReasoningEffort, RenderOpts};
use dsv4_prompt::render::render_messages;
use dsv4_prompt::request::{attach_task, render_request, RenderErr, RequestParts};

/// A value of the library from a JSON text.
fn json(text: &str) -> Json {
    convert(serde_json::from_str(text).unwrap())
}

fn convert(value: serde_json::Value) -> Json {
    match value {
        serde_json::Value::Null => Json::Null,
        serde_json::Value::Bool(b) => Json::Bool(b),
        serde_json::Value::Number(n) => Json::Number(if let Some(u) = n.as_u64() {
            Number::PosInt(u)
        } else if let Some(i) = n.as_i64() {
            Number::NegInt(i)
        } else {
            Number::Float(n.to_string())
        }),
        serde_json::Value::String(s) => Json::Text(s),
        serde_json::Value::Array(items) => {
            Json::Array(items.into_iter().map(convert).collect())
        }
        serde_json::Value::Object(members) => {
            let mut object = JsonObject::new();
            for (key, value) in members {
                object = object.insert(&key, convert(value));
            }
            Json::Object(object)
        }
    }
}

#[test]
fn handle_trailing_assistant_both_flag_states() {
    let (text, prefix) = render_request(
        &json(r##"[ {"role":"user","content":"U1"}, {"role":"assistant","content":"A-prefix"} ]"##),
        None,
        RenderOpts::chat(),
        RequestParts {
            task: None,
            continue_final_message: true,
        },
    )
    .unwrap();
    assert_eq!(prefix.as_deref(), Some("A-prefix"));
    assert_eq!(
        text,
        "<｜begin▁of▁sentence｜><｜User｜>U1<｜Assistant｜></think>"
    );

    let (text, prefix) = render_request(
        &json(r##"[ {"role":"user","content":"U1"}, {"role":"assistant","content":"A2"} ]"##),
        None,
        RenderOpts::chat(),
        RequestParts::default(),
    )
    .unwrap();
    assert_eq!(prefix, None);
    assert_eq!(
        text,
        "<｜begin▁of▁sentence｜><｜User｜>U1\n\nA2<｜Assistant｜></think>"
    );
    assert_eq!(
        text,
        render_messages(
            &json(r##"[ {"role":"user","content":"U1"}, {"role":"user","content":"A2"} ]"##),
            None,
            RenderOpts::chat()
        ),
        "the rewrite must behave exactly like a client-sent user role"
    );
}

#[test]
fn continue_final_message_without_trailing_assistant_is_noop() {
    let (text, prefix) = render_request(
        &json(r##"[{"role":"user","content":"hi"}]"##),
        None,
        RenderOpts::chat(),
        RequestParts {
            task: None,
            continue_final_message: true,
        },
    )
    .unwrap();
    assert_eq!(prefix, None);
    assert_eq!(
        text,
        "<｜begin▁of▁sentence｜><｜User｜>hi<｜Assistant｜></think>"
    );
}

#[test]
fn trailing_assistant_flattened_content_shapes() {
    let (_, prefix) = render_request(
        &json(r##"[ {"role":"user","content":"U1"}, {"role":"assistant","content":[{"type":"text","text":"AB"},{"type":"text","text":"CD"}]} ]"##),
        None,
        RenderOpts::chat(),
        RequestParts {
            task: None,
            continue_final_message: true,
        },
    )
    .unwrap();
    assert_eq!(prefix.as_deref(), Some("AB CD"));

    let (text, prefix) = render_request(
        &json(r##"[ {"role":"user","content":"U1"}, {"role":"assistant","content":null} ]"##),
        None,
        RenderOpts::chat(),
        RequestParts {
            task: None,
            continue_final_message: true,
        },
    )
    .unwrap();
    assert_eq!(prefix.as_deref(), Some(""));
    assert_eq!(
        text,
        "<｜begin▁of▁sentence｜><｜User｜>U1<｜Assistant｜></think>"
    );
}

#[test]
fn rewrite_drops_message_level_task_key() {
    let (text, _) = render_request(
        &json(r##"[ {"role":"user","content":"U1"}, {"role":"assistant","content":"A2","task":"query"} ]"##),
        None,
        RenderOpts::chat(),
        RequestParts::default(),
    )
    .unwrap();
    assert!(
        !text.contains("<｜query｜>"),
        "task key must not survive; {text}"
    );
    assert!(text.contains("U1\n\nA2<｜Assistant｜></think>"), "{text}");
}

#[test]
fn attach_task_errors_and_last_user_targeting() {
    assert_eq!(
        attach_task(&mut vec![json(r##"{"role":"system","content":"s"}"##)], "query"),
        Err(RenderErr::TaskWithoutUser)
    );
    assert_eq!(
        attach_task(&mut vec![json(r##"{"role":"user","content":"u"}"##)], "bogus"),
        Err(RenderErr::InvalidTask)
    );
    let mut msgs = vec![
        json(r##"{"role":"user","content":"first"}"##),
        json(r##"{"role":"assistant","content":"a"}"##),
        json(r##"{"role":"user","content":"last"}"##),
    ];
    attach_task(&mut msgs, "query").unwrap();
    assert!(msgs[0].get("task").is_none());
    assert_eq!(
        msgs[2].get("task").and_then(|t| t.as_str()),
        Some("query")
    );
}

#[test]
fn task_transition_tokens() {
    let user_task = |task: &str, thinking: bool| {
        render_request(
            &json(r##"[{"role":"user","content":"do it"}]"##),
            None,
            RenderOpts {
                thinking,
                reasoning_effort: ReasoningEffort::Normal,
            },
            RequestParts {
                task: Some(task),
                continue_final_message: false,
            },
        )
        .unwrap()
        .0
    };
    assert_eq!(
        user_task("query", false),
        "<｜begin▁of▁sentence｜><｜User｜>do it<｜query｜>"
    );
    assert_eq!(
        user_task("action", false),
        "<｜begin▁of▁sentence｜><｜User｜>do it<｜Assistant｜></think><｜action｜>"
    );
    assert_eq!(
        user_task("action", true),
        "<｜begin▁of▁sentence｜><｜User｜>do it<｜Assistant｜><think><｜action｜>"
    );
    assert_eq!(
        render_messages(
            &json(r##"[{"role":"user","content":"do it","task":"query"}]"##),
            None,
            RenderOpts::chat(),
        ),
        "<｜begin▁of▁sentence｜><｜User｜>do it<｜query｜>"
    );
}

#[test]
fn client_message_level_task_is_stripped() {
    let rendered = render_request(
        &json(r##"[ {"role":"user","content":"do it","task":"query"}, {"role":"user","content":"do more","task":"bogus"} ]"##),
        None,
        RenderOpts::chat(),
        RequestParts::default(),
    )
    .unwrap()
    .0;
    assert!(!rendered.contains("<｜query｜>"), "{rendered}");
    assert_eq!(
        rendered,
        "<｜begin▁of▁sentence｜><｜User｜>do it\n\ndo more<｜Assistant｜></think>"
    );
    let rendered = render_request(
        &json(r##"[{"role":"User","content":"hi"}]"##),
        None,
        RenderOpts::chat(),
        RequestParts::default(),
    )
    .unwrap()
    .0;
    assert_eq!(
        rendered,
        "<｜begin▁of▁sentence｜><｜User｜>hi<｜Assistant｜></think>"
    );
}

#[test]
fn surgery_runs_before_task_attach_and_merge_is_engine_faithful() {
    let rendered = render_request(
        &json(r##"[ {"role":"user","content":"U1"}, {"role":"assistant","content":"A2"} ]"##),
        None,
        RenderOpts::chat(),
        RequestParts {
            task: Some("query"),
            continue_final_message: false,
        },
    )
    .unwrap()
    .0;
    assert_eq!(
        rendered, "<｜begin▁of▁sentence｜><｜User｜>U1\n\nA2<｜Assistant｜></think>",
        "task dropped by the user-run merge guard, as engine-side; {rendered}"
    );
}
