//! What thinking mode and which effort a request gets, read off the request itself.

use vstd::prelude::*;
use crate::json::{JsonView, NumberView, member, truthy};
use crate::options::{
    effort_of, env_bool, env_effort, env_thinking, env_unrecognized, named_effort, thinking_mode,
    uses_defaults,
};
use crate::text::lower;

verus! {

/// A template argument of a request.
pub open spec fn argument(request: JsonView, key: Seq<char>) -> Option<JsonView> {
    if member(request, "chat_template_kwargs"@) is Some {
        member(member(request, "chat_template_kwargs"@)->0, key)
    } else {
        None
    }
}

/// Is nothing given? Null counts as nothing.
pub open spec fn unset(v: Option<JsonView>) -> bool {
    v is None || v == Some(JsonView::Null)
}

/// The words `max` and `high` and `none` are different.
proof fn efforts_differ()
    ensures
        "max"@ != "high"@,
        "max"@ != "none"@,
        "high"@ != "none"@,
{
    reveal_strlit("max");
    reveal_strlit("high");
    reveal_strlit("none");
    assert("max"@.len() == 3 && "high"@.len() == 4 && "none"@.len() == 4);
    assert("high"@[0] == 'h' && "none"@[0] == 'n');
}

/// An effort in the template arguments decides alone: `max` and `high` are the efforts of
/// that name, every other text and every other value is no particular effort, whatever
/// the top level and the default say.
pub proof fn argument_effort_decides(
    request: JsonView,
    value: JsonView,
    default: Option<Seq<char>>,
)
    requires
        argument(request, "reasoning_effort"@) == Some(value),
        !(value is Null),
    ensures
        value == JsonView::Text("max"@) <==> effort_of(request, default) is Max,
        value == JsonView::Text("high"@) <==> effort_of(request, default) is High,
{
    efforts_differ();
}

/// Without an effort in the template arguments, one at the top level decides alone, by
/// the same words.
pub proof fn top_effort_decides(request: JsonView, value: JsonView, default: Option<Seq<char>>)
    requires
        unset(argument(request, "reasoning_effort"@)),
        member(request, "reasoning_effort"@) == Some(value),
        !(value is Null),
    ensures
        value == JsonView::Text("max"@) <==> effort_of(request, default) is Max,
        value == JsonView::Text("high"@) <==> effort_of(request, default) is High,
{
    efforts_differ();
}

/// Without any effort the default decides, by the same words.
pub proof fn default_effort_decides(request: JsonView, default: Option<Seq<char>>)
    requires
        unset(argument(request, "reasoning_effort"@)),
        unset(member(request, "reasoning_effort"@)),
    ensures
        default == Some("max"@) <==> effort_of(request, default) is Max,
        default == Some("high"@) <==> effort_of(request, default) is High,
{
    efforts_differ();
}

/// An effort counts the same at the top level as in the template arguments, and the same
/// as when it is the default.
pub proof fn effort_counts_wherever_it_stands(
    a: JsonView,
    b: JsonView,
    c: JsonView,
    word: Seq<char>,
    one: Option<Seq<char>>,
    other: Option<Seq<char>>,
)
    requires
        argument(a, "reasoning_effort"@) == Some(JsonView::Text(word)),
        unset(argument(b, "reasoning_effort"@)),
        member(b, "reasoning_effort"@) == Some(JsonView::Text(word)),
        unset(argument(c, "reasoning_effort"@)),
        unset(member(c, "reasoning_effort"@)),
    ensures
        effort_of(a, one) == effort_of(b, other),
        effort_of(b, one) == effort_of(c, Some(word)),
{
}

/// The `thinking` template argument decides the mode wherever it is given, null too: by
/// its truthiness, whatever the efforts and the default say.
pub proof fn argument_thinking_decides(request: JsonView, value: JsonView, default: bool)
    requires
        argument(request, "thinking"@) == Some(value),
    ensures
        thinking_mode(request, default) == truthy(value),
        value is Null ==> !thinking_mode(request, default),
        value matches JsonView::Bool(b) ==> thinking_mode(request, default) == b,
{
}

/// Without the `thinking` template argument a top-level effort turns thinking on, unless
/// it is the text `none`, which turns it off; whatever the default says.
pub proof fn top_effort_turns_thinking_on(request: JsonView, value: JsonView, default: bool)
    requires
        argument(request, "thinking"@) is None,
        member(request, "reasoning_effort"@) == Some(value),
        !(value is Null),
    ensures
        thinking_mode(request, default) <==> value != JsonView::Text("none"@),
{
}

/// Without either, the default is the mode, whatever effort stands in the template
/// arguments.
pub proof fn default_thinking_decides(request: JsonView, default: bool)
    requires
        argument(request, "thinking"@) is None,
        unset(member(request, "reasoning_effort"@)),
    ensures
        thinking_mode(request, default) == default,
{
}

/// A request rests on the defaults exactly when some of them would change its outcome.
pub proof fn defaults_are_used_when_they_matter(request: JsonView)
    ensures
        uses_defaults(request) <==> (thinking_mode(request, true) != thinking_mode(request, false)
            || effort_of(request, Some("max"@)) != effort_of(request, None)),
{
    efforts_differ();
}

/// What is true as Python has it, value by value.
pub proof fn truth_of_values(v: JsonView)
    ensures
        v is Null ==> !truthy(v),
        v matches JsonView::Bool(b) ==> truthy(v) == b,
        v matches JsonView::Number(NumberView::Integer(n)) ==> (truthy(v) <==> n != 0),
        v matches JsonView::Text(s) ==> (truthy(v) <==> s != Seq::<char>::empty()),
        v matches JsonView::Array(items) ==> (truthy(v) <==> items != Seq::<JsonView>::empty()),
        v matches JsonView::Object(members) ==> (truthy(v) <==> members != Seq::<
            (Seq<char>, JsonView),
        >::empty()),
{
    match v {
        JsonView::Text(s) => {
            assert(s.len() == 0 ==> s =~= Seq::<char>::empty());
        },
        JsonView::Array(items) => {
            assert(items.len() == 0 ==> items =~= Seq::<JsonView>::empty());
        },
        JsonView::Object(members) => {
            assert(members.len() == 0 ==> members =~= Seq::<(Seq<char>, JsonView)>::empty());
        },
        _ => {},
    }
}

/// A float is true exactly when a digit other than 0 stands in its mantissa: in its text
/// before any exponent.
pub proof fn truth_of_floats(t: Seq<char>)
    ensures
        truthy(JsonView::Number(NumberView::Float(t))) <==> exists|i: int|
            0 <= i < t.len() && '1' <= #[trigger] t[i] <= '9' && forall|j: int|
                0 <= j < i ==> (#[trigger] t[j]) != 'e' && t[j] != 'E',
{
}

/// The environment values that spell a boolean, and those that do not.
pub proof fn env_words(value: Seq<char>)
    ensures
        env_bool(value) == Some(true) <==> (lower(value) == "true"@ || lower(value) == "yes"@
            || lower(value) == "y"@ || lower(value) == "1"@),
        env_bool(value) == Some(false) <==> (lower(value) == "false"@ || lower(value) == "no"@
            || lower(value) == "n"@ || lower(value) == "0"@),
        env_thinking(Some(value)) <==> env_bool(value) == Some(true),
        !env_thinking(None),
        env_unrecognized(Some(value)) <==> value != Seq::<char>::empty() && env_bool(value) is None,
        !env_unrecognized(None),
{
    reveal_strlit("true");
    reveal_strlit("yes");
    reveal_strlit("y");
    reveal_strlit("1");
    reveal_strlit("false");
    reveal_strlit("no");
    reveal_strlit("n");
    reveal_strlit("0");
    assert("true"@.len() == 4 && "yes"@.len() == 3 && "y"@.len() == 1 && "1"@.len() == 1);
    assert("false"@.len() == 5 && "no"@.len() == 2 && "n"@.len() == 1 && "0"@.len() == 1);
    assert("y"@[0] == 'y' && "1"@[0] == '1' && "n"@[0] == 'n' && "0"@[0] == '0');
    assert(value.len() == 0 ==> value =~= Seq::<char>::empty());
}

/// An environment value sets the effort that it names, and no other.
pub proof fn env_effort_names(value: Seq<char>)
    ensures
        value == "max"@ <==> named_effort(env_effort(Some(value))) is Max,
        value == "high"@ <==> named_effort(env_effort(Some(value))) is High,
        env_effort(Some(value)) is Some ==> env_effort(Some(value)) == Some(value),
        env_effort(None) is None,
        named_effort(None) is Normal,
        named_effort(Some(value)) is Max <==> value == "max"@,
        named_effort(Some(value)) is High <==> value == "high"@,
{
    efforts_differ();
}

} // verus!
