//! How to render: the thinking mode and the reasoning effort of a request.

use vstd::prelude::*;
use crate::json::{Json, JsonView, json_truthy, json_view, member, opt_json, truthy};
use crate::text::{lower, opt_string, opt_text, same};

verus! {

/// The reasoning effort of a request. Only `Max` alters a prompt.
#[derive(Clone, Copy, Debug, PartialEq, Eq, Structural)]
pub enum ReasoningEffort {
    /// No particular effort.
    Normal,
    /// Kept apart from `Normal`, though the prompt is the same.
    High,
    /// The prompt opens with a preamble in thinking mode.
    Max,
}

/// How to render a request.
#[derive(Clone, Copy, Debug)]
pub struct RenderOpts {
    /// Thinking mode, as against chat mode.
    pub thinking: bool,
    pub reasoning_effort: ReasoningEffort,
}

impl RenderOpts {
    /// Chat mode, without an effort preamble.
    pub fn chat() -> (r: RenderOpts)
        ensures
            !r.thinking,
            r.reasoning_effort is Normal,
    {
        RenderOpts { thinking: false, reasoning_effort: ReasoningEffort::Normal }
    }
}

/// What a request that does not say gets.
#[derive(Debug)]
pub struct RouterDefaults {
    pub thinking: bool,
    pub reasoning_effort: Option<String>,
}

/// The boolean that an environment value spells, in any ASCII case.
pub open spec fn env_bool(value: Seq<char>) -> Option<bool> {
    let v = lower(value);
    if v == "true"@ || v == "1"@ || v == "yes"@ || v == "y"@ {
        Some(true)
    } else if v == "false"@ || v == "0"@ || v == "no"@ || v == "n"@ {
        Some(false)
    } else {
        None
    }
}

/// The thinking default that an environment value sets: what it spells, and `false`
/// when it is absent or spells nothing.
pub open spec fn env_thinking(env: Option<Seq<char>>) -> bool {
    match env {
        Some(s) => env_bool(s) == Some(true),
        None => false,
    }
}

/// Is the environment value there without spelling a boolean? An empty one counts as
/// absent.
pub open spec fn env_unrecognized(env: Option<Seq<char>>) -> bool {
    match env {
        Some(s) => s.len() > 0 && env_bool(s) is None,
        None => false,
    }
}

/// The effort default that an environment value sets: `max` or `high`, or none.
pub open spec fn env_effort(env: Option<Seq<char>>) -> Option<Seq<char>> {
    if env == Some("max"@) || env == Some("high"@) {
        env
    } else {
        None
    }
}

/// The effort that a text names.
pub open spec fn named_effort(text: Option<Seq<char>>) -> ReasoningEffort {
    if text == Some("max"@) {
        ReasoningEffort::Max
    } else if text == Some("high"@) {
        ReasoningEffort::High
    } else {
        ReasoningEffort::Normal
    }
}

/// A member of the request's `chat_template_kwargs`.
pub open spec fn template_kwarg(request: JsonView, key: Seq<char>) -> Option<JsonView> {
    match member(request, "chat_template_kwargs"@) {
        Some(kwargs) => member(kwargs, key),
        None => None,
    }
}

/// A value that is there and not null.
pub open spec fn present(v: Option<JsonView>) -> bool {
    v is Some && !(v->0 is Null)
}

/// The thinking mode of a request. The `thinking` template argument decides by its
/// truthiness wherever it is given, null included; else a top-level effort does, by not
/// being `"none"`; else the default.
pub open spec fn thinking_mode(request: JsonView, default: bool) -> bool {
    match template_kwarg(request, "thinking"@) {
        Some(v) => truthy(v),
        None => {
            let effort = member(request, "reasoning_effort"@);
            if present(effort) {
                effort->0 != JsonView::Text("none"@)
            } else {
                default
            }
        },
    }
}

/// The effort value that counts: the template argument unless it is absent or null,
/// else the top-level one.
pub open spec fn effort_field(request: JsonView) -> Option<JsonView> {
    let kwarg = template_kwarg(request, "reasoning_effort"@);
    if present(kwarg) {
        kwarg
    } else {
        member(request, "reasoning_effort"@)
    }
}

/// The reasoning effort of a request. The default counts only when no effort is given.
pub open spec fn effort_of(request: JsonView, default: Option<Seq<char>>) -> ReasoningEffort {
    let field = effort_field(request);
    if !present(field) {
        named_effort(default)
    } else {
        match field->0 {
            JsonView::Text(s) => named_effort(Some(s)),
            _ => ReasoningEffort::Normal,
        }
    }
}

/// Does the outcome of a request rest on a default?
pub open spec fn uses_defaults(request: JsonView) -> bool {
    let effort = member(request, "reasoning_effort"@);
    (template_kwarg(request, "thinking"@) is None && !present(effort)) || !present(
        effort_field(request),
    )
}

/// The boolean that an environment value spells: `true`, `1`, `yes`, `y` or `false`,
/// `0`, `no`, `n`, in any case.
pub fn parse_env_bool(value: &str) -> (r: Option<bool>)
    ensures
        r == env_bool(value@),
{
    let lowered = value.to_ascii_lowercase();
    let v = lowered.as_str();
    if same(v, "true") || same(v, "1") || same(v, "yes") || same(v, "y") {
        Some(true)
    } else if same(v, "false") || same(v, "0") || same(v, "no") || same(v, "n") {
        Some(false)
    } else {
        None
    }
}

/// The thinking default that an environment value sets.
pub fn resolve_default_thinking(env: Option<&str>) -> (r: bool)
    ensures
        r == env_thinking(opt_text(env)),
{
    match env {
        Some(s) => match parse_env_bool(s) {
            Some(b) => b,
            None => false,
        },
        None => false,
    }
}

/// Is the environment value for the thinking default one to warn about: there, not
/// empty, and no boolean?
pub fn thinking_env_unrecognized(env: Option<&str>) -> (r: bool)
    ensures
        r == env_unrecognized(opt_text(env)),
{
    match env {
        Some(s) => !s.is_empty() && parse_env_bool(s).is_none(),
        None => false,
    }
}

/// The effort default that an environment value sets.
pub fn resolve_default_effort(env: Option<&str>) -> (r: Option<String>)
    ensures
        opt_string(r) == env_effort(opt_text(env)),
{
    match env {
        Some(s) => if same(s, "max") || same(s, "high") {
            Some(s.to_owned())
        } else {
            None
        },
        None => None,
    }
}

/// The defaults that two environment values set.
pub fn router_defaults(thinking: Option<&str>, effort: Option<&str>) -> (r: RouterDefaults)
    ensures
        r.thinking == env_thinking(opt_text(thinking)),
        opt_string(r.reasoning_effort) == env_effort(opt_text(effort)),
{
    RouterDefaults {
        thinking: resolve_default_thinking(thinking),
        reasoning_effort: resolve_default_effort(effort),
    }
}

/// The thinking default.
pub fn default_thinking(defaults: &RouterDefaults) -> (r: bool)
    ensures
        r == defaults.thinking,
{
    defaults.thinking
}

/// The effort default, as text.
pub fn default_reasoning_effort(defaults: &RouterDefaults) -> (r: Option<&str>)
    ensures
        opt_text(r) == opt_string(defaults.reasoning_effort),
{
    match &defaults.reasoning_effort {
        Some(s) => Some(s.as_str()),
        None => None,
    }
}

/// The effort that a text names.
fn effort_named(text: &str) -> (r: ReasoningEffort)
    ensures
        r == named_effort(Some(text@)),
{
    if same(text, "max") {
        ReasoningEffort::Max
    } else if same(text, "high") {
        ReasoningEffort::High
    } else {
        ReasoningEffort::Normal
    }
}

/// The effort default.
pub fn default_effort_enum(defaults: &RouterDefaults) -> (r: ReasoningEffort)
    ensures
        r == named_effort(opt_string(defaults.reasoning_effort)),
{
    match default_reasoning_effort(defaults) {
        Some(s) => effort_named(s),
        None => ReasoningEffort::Normal,
    }
}

/// A member of the request's `chat_template_kwargs`.
fn kwarg<'a>(request: &'a Json, key: &str) -> (r: Option<&'a Json>)
    ensures
        opt_json(r) == template_kwarg(request@, key@),
{
    match request.get("chat_template_kwargs") {
        Some(kwargs) => kwargs.get(key),
        None => None,
    }
}

/// Does the outcome of a request rest on a default?
pub fn consults_defaults(request: &Json) -> (r: bool)
    ensures
        r == uses_defaults(request@),
{
    broadcast use json_view;

    let top = match request.get("reasoning_effort") {
        Some(v) => !v.is_null(),
        None => false,
    };
    let inner = match kwarg(request, "reasoning_effort") {
        Some(v) => !v.is_null(),
        None => false,
    };
    (kwarg(request, "thinking").is_none() && !top) || !(inner || top)
}

/// How to render a request, given what one that does not say gets.
pub fn resolve_render_opts(request: &Json, defaults: &RouterDefaults) -> (r: RenderOpts)
    ensures
        r.thinking == thinking_mode(request@, defaults.thinking),
        r.reasoning_effort == effort_of(request@, opt_string(defaults.reasoning_effort)),
{
    broadcast use json_view;

    let top = request.get("reasoning_effort");
    let thinking = match kwarg(request, "thinking") {
        Some(v) => json_truthy(v),
        None => match top {
            Some(Json::Null) => default_thinking(defaults),
            Some(Json::Text(s)) => !same(s.as_str(), "none"),
            Some(_) => true,
            None => default_thinking(defaults),
        },
    };
    let field = match kwarg(request, "reasoning_effort") {
        Some(v) => if v.is_null() {
            top
        } else {
            Some(v)
        },
        None => top,
    };
    let reasoning_effort = match field {
        Some(Json::Text(s)) => effort_named(s.as_str()),
        Some(Json::Null) => default_effort_enum(defaults),
        Some(_) => ReasoningEffort::Normal,
        None => default_effort_enum(defaults),
    };
    RenderOpts { thinking, reasoning_effort }
}

/// The thinking default counts only when the request gives neither the `thinking`
/// template argument nor a top-level effort.
pub proof fn thinking_default_when_unset(request: JsonView, default: bool, other: bool)
    ensures
        template_kwarg(request, "thinking"@) is Some || present(
            member(request, "reasoning_effort"@),
        ) ==> thinking_mode(request, default) == thinking_mode(request, other),
        template_kwarg(request, "thinking"@) is None && !present(
            member(request, "reasoning_effort"@),
        ) ==> thinking_mode(request, default) == default,
{
}

/// The effort default counts only when the request gives no effort, neither as template
/// argument nor at the top level.
pub proof fn effort_default_when_unset(
    request: JsonView,
    default: Option<Seq<char>>,
    other: Option<Seq<char>>,
)
    ensures
        present(template_kwarg(request, "reasoning_effort"@)) || present(
            member(request, "reasoning_effort"@),
        ) ==> effort_of(request, default) == effort_of(request, other),
        !present(template_kwarg(request, "reasoning_effort"@)) && !present(
            member(request, "reasoning_effort"@),
        ) ==> effort_of(request, default) == named_effort(default),
{
}

/// The effort template argument never decides the thinking mode: two requests that agree
/// on the `thinking` template argument and on the top-level effort have the same mode.
pub proof fn effort_kwarg_sets_no_thinking(a: JsonView, b: JsonView, default: bool)
    requires
        template_kwarg(a, "thinking"@) == template_kwarg(b, "thinking"@),
        member(a, "reasoning_effort"@) == member(b, "reasoning_effort"@),
    ensures
        thinking_mode(a, default) == thinking_mode(b, default),
{
}

/// The effort template argument wins over the top-level effort.
pub proof fn effort_kwarg_wins(a: JsonView, b: JsonView, default: Option<Seq<char>>)
    requires
        present(template_kwarg(a, "reasoning_effort"@)),
        template_kwarg(a, "reasoning_effort"@) == template_kwarg(b, "reasoning_effort"@),
    ensures
        effort_of(a, default) == effort_of(b, default),
{
}

/// Environment values that differ in ASCII case alone spell the same boolean.
pub proof fn env_bool_ignores_case(a: Seq<char>, b: Seq<char>)
    requires
        lower(a) == lower(b),
    ensures
        env_bool(a) == env_bool(b),
{
}

/// A request that rests on no default has the same outcome under all.
pub proof fn defaults_unused(
    request: JsonView,
    thinking: bool,
    other: bool,
    effort: Option<Seq<char>>,
    another: Option<Seq<char>>,
)
    requires
        !uses_defaults(request),
    ensures
        thinking_mode(request, thinking) == thinking_mode(request, other),
        effort_of(request, effort) == effort_of(request, another),
{
}

} // verus!
