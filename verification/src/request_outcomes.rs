//! What comes of a request, in terms of the prompt of a list of messages.

use vstd::prelude::*;
use crate::conversation::{names_task, tokens_of_tasks};
use crate::json::{
    JsonView, inserted, items_of, member, position, position_is_first,
    position_unique, read_after_insert, text_field,
};
use crate::markers::{BOS, REASONING_EFFORT_MAX};
use crate::merge::{content_text, merged, turn_of};
use crate::merge_laws::empty_is_no_role;
use crate::options::RenderOpts;
use crate::order::ordered;
use crate::prompt_laws::{first_role, ordered_keeps, prompt_begins};
use crate::render::{
    leads_over, opening, prompt_text, shown_turns, task_known, tasks_known, tools_section,
    with_system,
};
use crate::request::{
    RenderErr, final_messages, handled, last_user_message, last_user_message_is_last, normalized,
    normalized_all, request_error, request_prefix, request_prompt, trailing_text, user_message,
    user_side, with_member, with_task,
};
use crate::request_laws::{
    all_keys_once, all_read_same, keys_once, merged_read_same, names_differ, normalized_reads,
    read_same,
};
use crate::text::lower;
use crate::thinking::{dropping_keeps_first, last_user};
use crate::tools::{tool_list, tools_text};
use crate::turns::{TurnView, plain_turn, roles_differ};

verus! {

/// Is the message as it is rendered: each key once, the role in lower case, no task?
pub open spec fn plain(message: JsonView) -> bool {
    &&& keys_once(message)
    &&& member(message, "task"@) is None
    &&& text_field(message, "role"@) is Some ==> lower(text_field(message, "role"@)->0)
        == text_field(message, "role"@)->0
}

/// Are all messages as they are rendered?
pub open spec fn all_plain(messages: Seq<JsonView>) -> bool {
    forall|i: int| 0 <= i < messages.len() ==> plain(#[trigger] messages[i])
}

proof fn plain_is_normal(message: JsonView)
    requires
        plain(message),
    ensures
        normalized(message) == message,
{
    if let JsonView::Object(members) = message {
        position_is_first(members, "role"@);
        position_is_first(members, "task"@);
        if let Some(role) = text_field(message, "role"@) {
            let p = position(members, "role"@);
            assert(members[p] == ("role"@, JsonView::Text(role)));
            assert(inserted(members, "role"@, JsonView::Text(role)) =~= members);
        }
    }
}

proof fn all_plain_normal(messages: Seq<JsonView>)
    requires
        all_plain(messages),
    ensures
        normalized_all(messages) == messages,
{
    assert forall|i: int| 0 <= i < messages.len() implies normalized(#[trigger] messages[i])
        == messages[i] by {
        assert(plain(messages[i]));
        plain_is_normal(messages[i]);
    }
    assert(normalized_all(messages) =~= messages);
}

/// The text of an assistant message that can be continued: its content when that is a
/// text, its text parts when it is an array, nothing when it is null or absent. Other
/// contents cannot be.
pub open spec fn continuable(message: JsonView) -> Option<Seq<char>> {
    if text_field(message, "role"@) != Some("assistant"@) {
        None
    } else {
        let content = member(message, "content"@);
        if content is None || content->0 is Null {
            Some(Seq::empty())
        } else if content->0 is Text || content->0 is Array {
            Some(content_text(content))
        } else {
            None
        }
    }
}

/// A message of the user that says this text.
pub open spec fn said_by_user(text: Seq<char>) -> JsonView {
    JsonView::Object(
        seq![("role"@, JsonView::Text("user"@)), ("content"@, JsonView::Text(text))],
    )
}

/// What the messages of a request become, and the text that follows the prompt: a last
/// assistant message that is to be continued is taken off and its text follows; one that
/// is not speaks as the user; any other list stays.
pub open spec fn becomes(
    messages: Seq<JsonView>,
    continue_final: bool,
    base: Seq<JsonView>,
    prefix: Option<Seq<char>>,
) -> bool {
    if messages.len() > 0 && continuable(messages.last()) is Some {
        let text = continuable(messages.last())->0;
        if continue_final {
            base == messages.drop_last() && prefix == Some(text)
        } else {
            base == messages.drop_last().push(said_by_user(text)) && prefix is None
        }
    } else {
        base == messages && prefix is None
    }
}

proof fn handled_becomes(
    messages: Seq<JsonView>,
    continue_final: bool,
    base: Seq<JsonView>,
    prefix: Option<Seq<char>>,
)
    requires
        all_plain(messages),
        becomes(messages, continue_final, base, prefix),
    ensures
        handled(JsonView::Array(messages), continue_final) == base,
        request_prefix(JsonView::Array(messages), continue_final) == prefix,
{
    all_plain_normal(messages);
    if messages.len() > 0 {
        let last = messages.last();
        assert(trailing_text(messages) == continuable(last));
    }
}

/// The outcome of a request without a task: no error, the prompt of what its messages
/// become, with its tools and options, and the text that follows.
pub proof fn request_outcome(
    messages: Seq<JsonView>,
    tools: Option<JsonView>,
    opts: RenderOpts,
    continue_final: bool,
    base: Seq<JsonView>,
    prefix: Option<Seq<char>>,
)
    requires
        all_plain(messages),
        becomes(messages, continue_final, base, prefix),
    ensures
        request_error(JsonView::Array(messages), continue_final, None) is None,
        request_prompt(JsonView::Array(messages), tools, opts, continue_final, None) == prompt_text(
            JsonView::Array(base),
            tools,
            opts,
        ),
        request_prefix(JsonView::Array(messages), continue_final) == prefix,
{
    handled_becomes(messages, continue_final, base, prefix);
}

/// Is message `k` the last one of a user or developer?
pub open spec fn last_spoken(messages: Seq<JsonView>, k: int) -> bool {
    &&& 0 <= k < messages.len()
    &&& text_field(messages[k], "role"@) == Some("user"@) || text_field(messages[k], "role"@)
        == Some("developer"@)
    &&& forall|i: int|
        k < i < messages.len() ==> text_field(#[trigger] messages[i], "role"@) != Some("user"@)
            && text_field(messages[i], "role"@) != Some("developer"@)
}

proof fn last_spoken_found(messages: Seq<JsonView>, k: int)
    requires
        last_spoken(messages, k),
    ensures
        last_user_message(messages) == k,
{
    last_user_message_is_last(messages);
    let l = last_user_message(messages);
    if l < k {
        assert(!user_side(messages[k]));
    }
    if l > k {
        assert(user_side(messages[l]));
    }
}

/// The outcome of a request with a valid task, when there is a message of a user or
/// developer: no error, the prompt of what its messages become with the task on the last
/// such message and everything else as it was, and the same text that follows.
pub proof fn request_outcome_with_task(
    messages: Seq<JsonView>,
    tools: Option<JsonView>,
    opts: RenderOpts,
    continue_final: bool,
    base: Seq<JsonView>,
    prefix: Option<Seq<char>>,
    task: Seq<char>,
    k: int,
    tasked: JsonView,
)
    requires
        all_plain(messages),
        becomes(messages, continue_final, base, prefix),
        names_task(task),
        last_spoken(base, k),
        member(tasked, "task"@) == Some(JsonView::Text(task)),
        forall|key: Seq<char>|
            key != "task"@ ==> #[trigger] member(tasked, key) == member(base[k], key),
    ensures
        request_error(JsonView::Array(messages), continue_final, Some(task)) is None,
        request_prompt(JsonView::Array(messages), tools, opts, continue_final, Some(task))
            == prompt_text(JsonView::Array(base.update(k, tasked)), tools, opts),
        request_prefix(JsonView::Array(messages), continue_final) == prefix,
{
    names_differ();
    handled_becomes(messages, continue_final, base, prefix);
    tokens_of_tasks(task);
    last_spoken_found(base, k);
    let value = JsonView::Text(task);
    let made = with_member(base[k], "task"@, value);
    assert(base[k] is Object);
    assert(read_same(made, tasked)) by {
        assert forall|key: Seq<char>| key != "role"@ implies #[trigger] member(made, key) == member(
            tasked,
            key,
        ) by {
            read_after_insert(base[k]->Object_0, "task"@, value, key);
            if key != "task"@ {
                assert(member(tasked, key) == member(base[k], key));
            }
        }
        read_after_insert(base[k]->Object_0, "task"@, value, "role"@);
        assert(member(tasked, "role"@) == member(base[k], "role"@));
    }
    let a = with_task(base, task);
    let b = base.update(k, tasked);
    assert(all_read_same(a, b)) by {
        assert forall|i: int| 0 <= i < a.len() implies read_same(#[trigger] a[i], b[i]) by {
            if i != k {
                assert(a[i] == b[i]);
            }
        }
    }
    merged_read_same(a, b);
}

/// The errors of a request: a task that is none of the tasks is invalid, whatever the
/// messages; a valid one is without a user when what the messages become has no message of
/// a user or developer.
pub proof fn request_refused(
    messages: Seq<JsonView>,
    continue_final: bool,
    base: Seq<JsonView>,
    prefix: Option<Seq<char>>,
    task: Seq<char>,
)
    requires
        all_plain(messages),
        becomes(messages, continue_final, base, prefix),
    ensures
        !names_task(task) ==> request_error(
            JsonView::Array(messages),
            continue_final,
            Some(task),
        ) == Some(RenderErr::InvalidTask),
        names_task(task) && (forall|i: int|
            0 <= i < base.len() ==> text_field(#[trigger] base[i], "role"@) != Some("user"@)
                && text_field(base[i], "role"@) != Some("developer"@)) ==> request_error(
            JsonView::Array(messages),
            continue_final,
            Some(task),
        ) == Some(RenderErr::TaskWithoutUser),
{
    handled_becomes(messages, continue_final, base, prefix);
    tokens_of_tasks(task);
    last_user_message_is_last(base);
    let l = last_user_message(base);
    if l >= 0 {
        assert(user_side(base[l]));
    }
}

/// A request whose messages are no array is one without messages.
pub proof fn request_without_list(
    messages: JsonView,
    tools: Option<JsonView>,
    opts: RenderOpts,
    continue_final: bool,
    task: Option<Seq<char>>,
)
    requires
        !(messages is Array),
    ensures
        request_error(messages, continue_final, task) == request_error(
            JsonView::Array(Seq::empty()),
            continue_final,
            task,
        ),
        request_prefix(messages, continue_final) is None,
        request_prompt(messages, tools, opts, continue_final, task) == request_prompt(
            JsonView::Array(Seq::empty()),
            tools,
            opts,
            continue_final,
            task,
        ),
{
    assert(normalized_all(items_of(messages)) =~= Seq::<JsonView>::empty());
}

/// What stands at the start of a prompt: the beginning-of-sequence marker, the preamble of
/// the highest effort in thinking mode, the system text, and after an empty line the
/// section of the tools when there are some.
pub open spec fn start(
    system: Seq<char>,
    tools: Option<JsonView>,
    opts: RenderOpts,
) -> Seq<char> {
    BOS@ + (if opts.thinking && opts.reasoning_effort is Max {
        REASONING_EFFORT_MAX@
    } else {
        Seq::empty()
    }) + system + (if tools is Some && tools->0 is Array && tools->0->Array_0.len() > 0 {
        "\n\n"@ + tools_text(tools->0->Array_0)
    } else {
        Seq::empty()
    })
}

proof fn first_turn(messages: Seq<JsonView>)
    requires
        messages.len() > 0,
        text_field(messages[0], "role"@) == Some("system"@),
    ensures
        merged(messages).len() > 0,
        merged(messages)[0] == turn_of(messages[0]),
    decreases messages.len(),
{
    roles_differ();
    let front = messages.drop_last();
    if front.len() > 0 {
        assert(front[0] == messages[0]);
        first_turn(front);
    } else {
        assert(merged(front) =~= Seq::<TurnView>::empty());
        assert(messages.last() == messages[0]);
    }
}

/// The prompt of a list of messages starts with the content of the system message that the
/// list begins with, or with no system text when it begins with none, and the tools.
pub proof fn prompt_starts(messages: Seq<JsonView>, tools: Option<JsonView>, opts: RenderOpts)
    ensures
        messages.len() > 0 && text_field(messages[0], "role"@) == Some("system"@) && text_field(
            messages[0],
            "task"@,
        ) is None ==> start(content_text(member(messages[0], "content"@)), tools, opts).is_prefix_of(
            prompt_text(JsonView::Array(messages), tools, opts),
        ),
        messages.len() == 0 || text_field(messages[0], "role"@) != Some("system"@) ==> start(
            Seq::empty(),
            tools,
            opts,
        ).is_prefix_of(prompt_text(JsonView::Array(messages), tools, opts)),
{
    roles_differ();
    empty_is_no_role();
    let m = JsonView::Array(messages);
    let turns = merged(messages);
    let first = with_system(turns);
    let s = ordered(first);
    ordered_keeps(first, 0);
    dropping_keeps_first(s, s.len() as int, last_user(s));
    let shown = shown_turns(m, tools, opts);
    assert(shown[0] == s[0]);
    assert(s[0].content == first[0].content && s[0].task == first[0].task);
    let list = tool_list(tools);
    if messages.len() > 0 && text_field(messages[0], "role"@) == Some("system"@) {
        first_turn(messages);
        if text_field(messages[0], "task"@) is None {
            prompt_begins(m, tools, opts);
            let text = content_text(member(messages[0], "content"@));
            assert(opening(opts) + text + tools_section(list) =~= start(text, tools, opts));
        }
    } else {
        if messages.len() > 0 {
            first_role(messages);
        } else {
            assert(turns =~= Seq::<TurnView>::empty());
        }
        assert(first[0] == plain_turn("system"@));
        prompt_begins(m, tools, opts);
        let none = Seq::<char>::empty();
        assert(opening(opts) + none + tools_section(list) =~= start(none, tools, opts));
    }
}

/// The prompt of a request starts with the content of the system message that its messages
/// begin with, or with no system text when they begin with none, and the tools of the
/// request; whatever its task, and whether or not a message is continued.
pub proof fn request_starts(
    messages: Seq<JsonView>,
    tools: Option<JsonView>,
    opts: RenderOpts,
    continue_final: bool,
    task: Option<Seq<char>>,
)
    requires
        all_keys_once(messages),
        request_error(JsonView::Array(messages), continue_final, task) is None,
    ensures
        ({
            let prompt = request_prompt(
                JsonView::Array(messages),
                tools,
                opts,
                continue_final,
                task,
            );
            let system = messages.len() > 0 && text_field(messages[0], "role"@) is Some && lower(
                text_field(messages[0], "role"@)->0,
            ) == "system"@;
            if system {
                start(content_text(member(messages[0], "content"@)), tools, opts).is_prefix_of(
                    prompt,
                )
            } else {
                start(Seq::empty(), tools, opts).is_prefix_of(prompt)
            }
        }),
{
    roles_differ();
    names_differ();
    empty_is_no_role();
    let all = normalized_all(messages);
    let h = handled(JsonView::Array(messages), continue_final);
    let f = final_messages(JsonView::Array(messages), continue_final, task);
    prompt_starts(f, tools, opts);
    if messages.len() > 0 {
        assert(keys_once(messages[0]));
        normalized_reads(messages[0], "content"@);
        assert(all[0] == normalized(messages[0]));
    }
    last_user_message_is_last(h);
    let k = last_user_message(h);
    let user = user_message(trailing_text(all)->0);
    reads_of_user(trailing_text(all)->0);
    if h.len() > 0 {
        if trailing_text(all) is Some && !continue_final && all.len() == 1 {
            assert(h[0] == user);
        } else {
            assert(h[0] == all[0]);
        }
        if task is Some && k == 0 {
            assert(h[0] is Object);
            read_after_insert(h[0]->Object_0, "task"@, JsonView::Text(task->0), "role"@);
            assert(text_field(f[0], "role"@) == text_field(h[0], "role"@));
        } else {
            assert(f[0] == h[0]);
        }
    }
}

proof fn reads_of_user(text: Seq<char>)
    ensures
        text_field(user_message(text), "role"@) == Some("user"@),
{
    position_unique(user_message(text)->Object_0, "role"@, 0);
}

/// A prompt can be written exactly when every task that leads over is one of the tasks: a
/// turn leads over when it is the last, or when an assistant's or a reminder comes next.
pub proof fn tasks_that_can_be_written(turns: Seq<TurnView>, i: int)
    ensures
        0 <= i < turns.len() && turns[i].task is Some && !names_task(turns[i].task->0) && (i
            == turns.len() - 1 || turns[i + 1].role == "assistant"@ || turns[i + 1].role
            == "latest_reminder"@) ==> !tasks_known(turns),
        (forall|j: int|
            0 <= j < turns.len() && (#[trigger] turns[j]).task is Some && (j == turns.len() - 1
                || turns[j + 1].role == "assistant"@ || turns[j + 1].role == "latest_reminder"@)
                ==> names_task(turns[j].task->0)) ==> tasks_known(turns),
{
    if 0 <= i < turns.len() && turns[i].task is Some {
        tokens_of_tasks(turns[i].task->0);
        if !names_task(turns[i].task->0) && leads_over(turns, i) {
            assert(!task_known(turns, i));
        }
    }
    if forall|j: int|
        0 <= j < turns.len() && (#[trigger] turns[j]).task is Some && (j == turns.len() - 1
            || turns[j + 1].role == "assistant"@ || turns[j + 1].role == "latest_reminder"@)
            ==> names_task(turns[j].task->0) {
        assert forall|j: int| 0 <= j < turns.len() implies #[trigger] task_known(turns, j) by {
            if turns[j].task is Some {
                tokens_of_tasks(turns[j].task->0);
            }
        }
    }
}

} // verus!
