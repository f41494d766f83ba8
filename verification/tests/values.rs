use dsv4_prompt::json::{json_truthy, Json, JsonObject, Number};
use dsv4_prompt::options::{
    parse_env_bool, resolve_default_effort, resolve_default_thinking, resolve_render_opts,
    router_defaults, ReasoningEffort, RenderOpts,
};
use dsv4_prompt::pyjson::py_json;
use dsv4_prompt::tools::canonical_function;

/// A value of the library from a JSON text.
fn json(text: &str) -> Json {
    convert(serde_json::from_str(text).unwrap())
}

fn convert(value: serde_json::Value) -> Json {
    match value {
        serde_json::Value::Null => Json::Null,
        serde_json::Value::Bool(b) => Json::Bool(b),
        serde_json::Value::Number(n) => Json::Number(if let Some(u) = n.as_u64() {
            Number::PosInt(u)
        } else if let Some(i) = n.as_i64() {
            Number::NegInt(i)
        } else {
            Number::Float(n.to_string())
        }),
        serde_json::Value::String(s) => Json::Text(s),
        serde_json::Value::Array(items) => {
            Json::Array(items.into_iter().map(convert).collect())
        }
        serde_json::Value::Object(members) => {
            let mut object = JsonObject::new();
            for (key, value) in members {
                object = object.insert(&key, convert(value));
            }
            Json::Object(object)
        }
    }
}

/// What a request resolves to when the environment sets no default.
fn resolve(request: &Json) -> RenderOpts {
    resolve_render_opts(request, &router_defaults(None, None))
}

#[test]
fn py_json_uses_python_separators_and_preserves_order() {
    let v = json(r##"{"b": 1, "a": [1, 2], "c": {"x": true}}"##);
    assert_eq!(py_json(&v), r#"{"b": 1, "a": [1, 2], "c": {"x": true}}"#);
}

#[test]
fn canonical_function_reorders_and_injects_defaults() {
    let tool = json(r##"{ "type": "function", "function": {"name": "ping", "parameters": {"type": "object"}, "x-extra": 1} }"##);
    assert_eq!(
        py_json(&canonical_function(&tool)),
        r#"{"description": null, "name": "ping", "parameters": {"type": "object"}, "strict": false}"#
    );
}

#[test]
fn parse_env_bool_matches_engine_token_set() {
    for t in ["true", "1", "yes", "y", "TRUE", "Yes", "Y"] {
        assert_eq!(parse_env_bool(t), Some(true), "{t}");
    }
    for f in ["false", "0", "no", "n", "FALSE", "No"] {
        assert_eq!(parse_env_bool(f), Some(false), "{f}");
    }
    for u in ["on", "off", "enabled", "t", "", "2"] {
        assert_eq!(parse_env_bool(u), None, "{u}");
    }
}

#[test]
fn json_truthy_mirrors_python() {
    assert!(json_truthy(&json(r##"true"##)));
    assert!(!json_truthy(&json(r##"false"##)));
    assert!(json_truthy(&json(r##""true""##)));
    assert!(json_truthy(&json(r##""false""##)));
    assert!(!json_truthy(&json(r##""""##)));
    assert!(json_truthy(&json(r##"1"##)));
    assert!(!json_truthy(&json(r##"0"##)));
    assert!(!json_truthy(&json("null")));
    assert!(!json_truthy(&json(r##"[]"##)));
    assert!(json_truthy(&json(r##"[1]"##)));
    assert!(!json_truthy(&json(r##"{}"##)));
    assert!(json_truthy(&json(r##"{ "k": 1 }"##)));
}

#[test]
fn resolve_render_opts_request_overrides() {
    let opts = resolve(&json(r##"{"chat_template_kwargs": {"thinking": true}}"##));
    assert!(opts.thinking);
    assert_eq!(opts.reasoning_effort, ReasoningEffort::Normal);

    assert!(
        !resolve(&json(r##"{"chat_template_kwargs": {"thinking": false}}"##)).thinking
    );
    assert!(
        resolve(&json(r##"{"chat_template_kwargs": {"thinking": "true"}}"##)).thinking
    );
    assert!(
        !resolve(&json(r##"{"chat_template_kwargs": {"thinking": null}}"##)).thinking
    );

    assert_eq!(
        resolve(&json(r##"{ "reasoning_effort": "high", "chat_template_kwargs": {"reasoning_effort": "max"} }"##))
        .reasoning_effort,
        ReasoningEffort::Max
    );
    assert_eq!(
        resolve(&json(r##"{ "reasoning_effort": "high", "chat_template_kwargs": {"reasoning_effort": null} }"##))
        .reasoning_effort,
        ReasoningEffort::High
    );
    assert_eq!(
        resolve(&json(r##"{"reasoning_effort": "high"}"##)).reasoning_effort,
        ReasoningEffort::High
    );
    assert_eq!(
        resolve(&json(r##"{"reasoning_effort": "medium"}"##)).reasoning_effort,
        ReasoningEffort::Normal
    );
    assert!(resolve(&json(r##"{"reasoning_effort": "medium"}"##)).thinking);
    assert!(!resolve(&json(r##"{"reasoning_effort": null}"##)).thinking);
    assert!(
        !resolve(
            &json(r##"{"chat_template_kwargs": {"thinking": null}, "reasoning_effort": "high"}"##)
        )
        .thinking
    );
    assert!(!resolve(&json(r##"{"reasoning_effort": "none"}"##)).thinking);
    let o = resolve(&json(r##"{"reasoning_effort": 512}"##));
    assert!(o.thinking);
    assert_eq!(o.reasoning_effort, ReasoningEffort::Normal);
}

#[test]
fn resolve_default_thinking_branches() {
    assert!(!resolve_default_thinking(None));
    assert!(!resolve_default_thinking(Some("")));
    assert!(resolve_default_thinking(Some("true")));
    assert!(resolve_default_thinking(Some("y")));
    assert!(!resolve_default_thinking(Some("false")));
    assert!(!resolve_default_thinking(Some("enabled")));
}

#[test]
fn resolve_default_effort_branches() {
    assert_eq!(resolve_default_effort(None), None);
    assert_eq!(resolve_default_effort(Some("max")), Some("max".to_owned()));
    assert_eq!(
        resolve_default_effort(Some("high")),
        Some("high".to_owned())
    );
    assert_eq!(resolve_default_effort(Some("medium")), None);
    assert_eq!(resolve_default_effort(Some("")), None);
}
