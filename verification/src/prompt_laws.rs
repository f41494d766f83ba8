//! What holds of every prompt.

use vstd::prelude::*;
use crate::json::{JsonView, items_of, member, text_field};
use crate::markers::{ASSISTANT, BOS, EOS, REASONING_EFFORT_MAX, THINK_END, USER, task_token};
use crate::merge::{
    content_text, merge_one, merged, merged_apart, role_of, takes_tool, takes_user, tool_block,
    turn_of,
};
use crate::options::{ReasoningEffort, RenderOpts};
use crate::order::{calls_before, ordered, ordered_turn, results_of};
use crate::render::{
    Mode, after_task, block_texts, leads_over, mode_of, no_messages_shown, opening, prompt_text,
    shown_turns, think_token, tools_section, turn_body, turn_end, turn_text, turns_text,
    with_system,
};
use crate::thinking::{
    dropping_keeps_first, last_user, last_user_is_last, left_of, left_of_first, user_role,
};
use crate::tools::tool_list;
use crate::turns::{BlockView, TurnView, plain_turn, roles_differ};

verus! {

/// Ordering the tool results of the turns leaves everything but the blocks as it is.
pub proof fn ordered_keeps(turns: Seq<TurnView>, i: int)
    requires
        0 <= i < turns.len(),
    ensures
        ordered(turns)[i].role == turns[i].role,
        ordered(turns)[i].content == turns[i].content,
        ordered(turns)[i].task == turns[i].task,
        ordered(turns)[i].reasoning_content == turns[i].reasoning_content,
        ordered(turns)[i].tool_calls == turns[i].tool_calls,
        ordered(turns)[i].blocks is Some == turns[i].blocks is Some,
{
}

/// The first turn that a prompt shows is a system turn.
pub proof fn shown_system_first(messages: JsonView, tools: Option<JsonView>, opts: RenderOpts)
    ensures
        shown_turns(messages, tools, opts).len() > 0,
        shown_turns(messages, tools, opts)[0].role == "system"@,
{
    let turns = ordered(with_system(merged(items_of(messages))));
    ordered_keeps(with_system(merged(items_of(messages))), 0);
    dropping_keeps_first(turns, turns.len() as int, last_user(turns));
}

/// A longer stretch of turns starts with a shorter one.
proof fn turns_text_grows(
    turns: Seq<TurnView>,
    k: int,
    n: int,
    mode: Mode,
    tools: Option<Seq<JsonView>>,
)
    requires
        k <= n,
    ensures
        turns_text(turns, k, mode, tools).is_prefix_of(turns_text(turns, n, mode, tools)),
    decreases n - k,
{
    if k < n {
        turns_text_grows(turns, k, n - 1, mode, tools);
        let a = turns_text(turns, k, mode, tools);
        let b = turns_text(turns, n - 1, mode, tools);
        let c = turns_text(turns, n, mode, tools);
        if n > 0 {
            assert(c.subrange(0, b.len() as int) =~= b);
            assert(c.subrange(0, a.len() as int) =~= b.subrange(0, a.len() as int));
        }
    }
}

/// The prompt of a list of messages begins with the beginning-of-sequence marker, the
/// effort preamble when there is one, then the system content and, where the system turn
/// carries no task, right after it the tools section.
pub proof fn prompt_begins(messages: JsonView, tools: Option<JsonView>, opts: RenderOpts)
    requires
        messages is Array,
        shown_turns(messages, tools, opts)[0].task is None,
    ensures
        (opening(opts) + shown_turns(messages, tools, opts)[0].content + tools_section(
            tool_list(tools),
        )).is_prefix_of(prompt_text(messages, tools, opts)),
{
    roles_differ();
    shown_system_first(messages, tools, opts);
    let turns = shown_turns(messages, tools, opts);
    let mode = mode_of(turns, tools, opts);
    let list = tool_list(tools);
    let n = turns.len() as int;
    turns_text_grows(turns, 1, n, mode, list);
    let one = turns_text(turns, 1, mode, list);
    let all = turns_text(turns, n, mode, list);
    assert(turns_text(turns, 0, mode, list) =~= Seq::<char>::empty());
    assert(turn_end(turns, 0, mode) =~= Seq::<char>::empty());
    assert(one =~= turns[0].content + tools_section(list));
    let head = opening(opts) + turns[0].content + tools_section(list);
    assert(head =~= opening(opts) + one);
    let prompt = prompt_text(messages, tools, opts);
    assert(prompt.subrange(0, head.len() as int) =~= head);
}

/// Every prompt begins with the beginning-of-sequence marker.
pub proof fn prompt_begins_with_bos(messages: JsonView, tools: Option<JsonView>, opts: RenderOpts)
    ensures
        BOS@.is_prefix_of(prompt_text(messages, tools, opts)),
{
    let prompt = prompt_text(messages, tools, opts);
    assert(prompt.subrange(0, BOS@.len() as int) =~= BOS@);
}

/// What a prompt ends with when its last turn is the user's: the opening of the
/// assistant's turn, with `<think>` in thinking mode and `</think>` in chat mode; when
/// the turn carries a task, the token of the task, after that opening if the task is
/// `action` and without it otherwise.
pub open spec fn generation_opening(opts: RenderOpts, task: Option<Seq<char>>) -> Seq<char> {
    match task {
        None => ASSISTANT@ + think_token(opts.thinking),
        Some(t) => if t == "action"@ {
            ASSISTANT@ + think_token(opts.thinking) + task_token(t)->0
        } else {
            task_token(t)->0
        },
    }
}

/// A prompt whose last turn is the user's ends with the opening for what the model is
/// to write.
pub proof fn prompt_ends_open(messages: JsonView, tools: Option<JsonView>, opts: RenderOpts)
    requires
        user_role(shown_turns(messages, tools, opts).last().role),
    ensures
        generation_opening(opts, shown_turns(messages, tools, opts).last().task).is_suffix_of(
            prompt_text(messages, tools, opts),
        ),
{
    roles_differ();
    shown_system_first(messages, tools, opts);
    let turns = shown_turns(messages, tools, opts);
    let mode = mode_of(turns, tools, opts);
    let list = tool_list(tools);
    let n = turns.len() as int;
    assert(n > 1) by {
        if n == 1 {
            assert(turns.last() == turns[0]);
        }
    }
    if !(messages is Array) {
        no_messages_shown(messages, tools, opts);
    }
    assert(turns[n - 1] == turns.last());
    assert(last_user(turns) == n - 1);
    let end = turn_end(turns, n - 1, mode);
    assert(end == generation_opening(opts, turns.last().task));
    let prompt = prompt_text(messages, tools, opts);
    let all = turns_text(turns, n, mode, list);
    let before = opening(opts) + turns_text(turns, n - 1, mode, list) + turn_body(
        turns,
        n - 1,
        mode,
    );
    assert(prompt =~= before + end);
    assert(prompt.subrange(prompt.len() - end.len(), prompt.len() as int) =~= end);
}

/// A prompt whose last turn is an assistant's without a task ends with the
/// end-of-sequence marker.
pub proof fn prompt_ends_closed(messages: JsonView, tools: Option<JsonView>, opts: RenderOpts)
    requires
        shown_turns(messages, tools, opts).last().role == "assistant"@,
        shown_turns(messages, tools, opts).last().task is None,
    ensures
        EOS@.is_suffix_of(prompt_text(messages, tools, opts)),
{
    roles_differ();
    shown_system_first(messages, tools, opts);
    let turns = shown_turns(messages, tools, opts);
    let mode = mode_of(turns, tools, opts);
    let list = tool_list(tools);
    let n = turns.len() as int;
    assert(n > 1) by {
        if n == 1 {
            assert(turns.last() == turns[0]);
        }
    }
    if !(messages is Array) {
        no_messages_shown(messages, tools, opts);
    }
    assert(turns[n - 1] == turns.last());
    let body = turn_body(turns, n - 1, mode);
    assert(turn_end(turns, n - 1, mode) =~= Seq::<char>::empty());
    assert(body.subrange(body.len() - EOS@.len(), body.len() as int) =~= EOS@);
    let prompt = prompt_text(messages, tools, opts);
    assert(prompt =~= opening(opts) + turns_text(turns, n - 1, mode, list) + body);
    assert(prompt.subrange(prompt.len() - EOS@.len(), prompt.len() as int) =~= EOS@);
}

/// The prompt of an empty list of messages is its opening and the tools section.
pub proof fn empty_prompt(messages: JsonView, tools: Option<JsonView>, opts: RenderOpts)
    requires
        messages is Array,
        items_of(messages).len() == 0,
    ensures
        prompt_text(messages, tools, opts) == opening(opts) + tools_section(tool_list(tools)),
{
    roles_differ();
    no_messages_shown(messages, tools, opts);
    let turns = shown_turns(messages, tools, opts);
    let mode = mode_of(turns, tools, opts);
    let list = tool_list(tools);
    assert(turns_text(turns, 0, mode, list) =~= Seq::<char>::empty());
    assert(turn_text(turns, 0, mode) =~= Seq::<char>::empty());
    assert(turns_text(turns, 1, mode, list) =~= tools_section(list));
}

/// The prompt of a value that is no array is the beginning-of-sequence marker alone,
/// whatever the tools and the effort.
pub proof fn no_list_prompt(messages: JsonView, tools: Option<JsonView>, opts: RenderOpts)
    requires
        !(messages is Array),
    ensures
        prompt_text(messages, tools, opts) == BOS@,
{
}

/// The role of the first turn comes from the first message.
pub proof fn first_role(messages: Seq<JsonView>)
    requires
        messages.len() > 0,
    ensures
        merged(messages).len() > 0,
        merged(messages)[0].role == turn_of(messages[0]).role,
    decreases messages.len(),
{
    let front = messages.drop_last();
    if front.len() > 0 {
        first_role(front);
        assert(front[0] == messages[0]);
    } else {
        assert(merged(front) =~= Seq::<TurnView>::empty());
    }
}

/// An empty system message before messages that do not start with one changes nothing.
pub proof fn empty_system_message_is_implied(
    system: JsonView,
    messages: Seq<JsonView>,
    tools: Option<JsonView>,
    opts: RenderOpts,
)
    requires
        role_of(system) == "system"@,
        content_text(member(system, "content"@)).len() == 0,
        text_field(system, "task"@) is None,
        messages.len() > 0 ==> role_of(messages[0]) != "system"@,
    ensures
        prompt_text(JsonView::Array(seq![system] + messages), tools, opts) == prompt_text(
            JsonView::Array(messages),
            tools,
            opts,
        ),
{
    roles_differ();
    let none = Seq::<JsonView>::empty();
    assert(seq![system] + messages =~= none.push(system) + messages);
    merged_apart(none, system, messages);
    assert(merged(none) =~= Seq::<TurnView>::empty());
    let turns = merged(messages);
    if messages.len() > 0 {
        first_role(messages);
    } else {
        assert(turns =~= Seq::<TurnView>::empty());
    }
    assert(content_text(member(system, "content"@)) =~= Seq::<char>::empty());
    assert(turn_of(system) == plain_turn("system"@));
    let both = merged(seq![system] + messages);
    assert(both =~= seq![plain_turn("system"@)] + turns);
    assert(both[0].role == "system"@);
    assert(with_system(both) == with_system(turns));
}

/// A tools value that is absent, no array, or an empty array is no tools.
pub proof fn tools_that_do_not_count(
    messages: JsonView,
    tools: Option<JsonView>,
    opts: RenderOpts,
)
    requires
        tools is Some && tools->0 is Array ==> tools->0->Array_0.len() == 0,
    ensures
        prompt_text(messages, tools, opts) == prompt_text(messages, None, opts),
{
    assert(tool_list(tools) == tool_list(None));
}

/// In chat mode the effort does not matter, and in thinking mode only the highest one
/// does: it puts its preamble after the beginning-of-sequence marker and leaves the
/// rest as it is.
pub proof fn effort_is_a_preamble(
    messages: JsonView,
    tools: Option<JsonView>,
    thinking: bool,
    effort: ReasoningEffort,
)
    requires
        messages is Array,
    ensures
        ({
            let plain = prompt_text(
                messages,
                tools,
                RenderOpts { thinking, reasoning_effort: ReasoningEffort::Normal },
            );
            let rest = plain.skip(BOS@.len() as int);
            let prompt = prompt_text(
                messages,
                tools,
                RenderOpts { thinking, reasoning_effort: effort },
            );
            if thinking && effort is Max {
                prompt == BOS@ + REASONING_EFFORT_MAX@ + rest
            } else {
                prompt == plain
            }
        }),
{
    let none = RenderOpts { thinking, reasoning_effort: ReasoningEffort::Normal };
    let opts = RenderOpts { thinking, reasoning_effort: effort };
    let turns = shown_turns(messages, tools, none);
    assert(shown_turns(messages, tools, opts) == turns);
    let mode = mode_of(turns, tools, none);
    assert(mode_of(turns, tools, opts) == mode);
    let text = turns_text(turns, turns.len() as int, mode, tool_list(tools));
    assert((BOS@ + text).skip(BOS@.len() as int) =~= text);
}

/// The prompt of one user message without a task: the text between the markers of the
/// user and of the assistant, whatever the text.
pub proof fn single_user_prompt(message: JsonView, opts: RenderOpts)
    requires
        role_of(message) == "user"@,
        text_field(message, "task"@) is None,
    ensures
        prompt_text(JsonView::Array(seq![message]), None, opts) == opening(opts) + USER@
            + content_text(member(message, "content"@)) + ASSISTANT@ + think_token(opts.thinking),
{
    roles_differ();
    let run = seq![message];
    let text = content_text(member(message, "content"@));
    let user = turn_of(message);
    assert(run.drop_last() =~= Seq::<JsonView>::empty());
    assert(merged(run) =~= seq![user]) by {
        assert(merged(run.drop_last()) =~= Seq::<TurnView>::empty());
    }
    let system = plain_turn("system"@);
    let first = with_system(merged(run));
    assert(first =~= seq![system, user]);
    assert(results_of(user.blocks->0).len() == 0) by {
        assert(user.blocks->0.drop_last() =~= Seq::<BlockView>::empty());
        assert(results_of(Seq::<BlockView>::empty()).len() == 0);
    }
    assert(ordered(first) =~= first);
    assert(first.drop_last() =~= seq![system]);
    assert(last_user(first) == 1);
    assert(left_of_first(first, 0, 1) =~= Seq::<TurnView>::empty());
    assert(left_of_first(first, 1, 1) =~= seq![system]);
    assert(left_of_first(first, 2, 1) =~= first);
    let turns = shown_turns(JsonView::Array(run), None, opts);
    assert(turns == first);
    let mode = mode_of(turns, None, opts);
    assert(turns_text(turns, 0, mode, None) =~= Seq::<char>::empty());
    assert(turns_text(turns, 1, mode, None) =~= Seq::<char>::empty());
    assert(block_texts(user.blocks->0) =~= seq![text]);
    assert(prompt_text(JsonView::Array(run), None, opts) =~= opening(opts) + USER@ + text
        + ASSISTANT@ + think_token(opts.thinking));
}

/// A turn without its thinking.
pub open spec fn bare(turn: TurnView) -> TurnView {
    TurnView { reasoning_content: Seq::empty(), ..turn }
}

/// Do two messages differ in their thinking at most?
pub open spec fn same_but_thinking(a: JsonView, b: JsonView) -> bool {
    forall|key: Seq<char>|
        key != "reasoning_content"@ ==> #[trigger] member(a, key) == member(b, key)
}

proof fn same_but_thinking_reads(a: JsonView, b: JsonView)
    requires
        same_but_thinking(a, b),
    ensures
        role_of(a) == role_of(b),
        bare(turn_of(a)) == bare(turn_of(b)),
        turn_of(a).role != "assistant"@ ==> turn_of(a) == turn_of(b),
        tool_block(a) == tool_block(b),
        member(a, "content"@) == member(b, "content"@),
{
    roles_differ();
    reveal_strlit("reasoning_content");
    reveal_strlit("role");
    reveal_strlit("content");
    reveal_strlit("task");
    reveal_strlit("tool_calls");
    reveal_strlit("tool_call_id");
    assert("reasoning_content"@.len() == 17 && "role"@.len() == 4 && "content"@.len() == 7
        && "task"@.len() == 4 && "tool_calls"@.len() == 10 && "tool_call_id"@.len() == 12);
    assert(member(a, "role"@) == member(b, "role"@));
    assert(member(a, "content"@) == member(b, "content"@));
    assert(member(a, "task"@) == member(b, "task"@));
    assert(member(a, "tool_calls"@) == member(b, "tool_calls"@));
    assert(member(a, "tool_call_id"@) == member(b, "tool_call_id"@));
}

/// Two lists of turns that differ in the thinking of assistant turns before `from` at
/// most.
spec fn same_from(s: Seq<TurnView>, t: Seq<TurnView>, from: int) -> bool {
    &&& s.len() == t.len()
    &&& forall|i: int| 0 <= i < s.len() ==> bare(#[trigger] s[i]) == bare(t[i])
    &&& forall|i: int|
        0 <= i < s.len() && ((#[trigger] s[i]).role != "assistant"@ || i >= from) ==> s[i] == t[i]
}

spec fn settled(a: Seq<JsonView>, k: int, n: int) -> int {
    merged(
        a.take(
            if n <= k {
                n
            } else {
                k + 1
            },
        ),
    ).len() as int
}

proof fn merged_same(a: Seq<JsonView>, b: Seq<JsonView>, k: int, n: int)
    requires
        a.len() == b.len(),
        forall|i: int| 0 <= i < a.len() ==> same_but_thinking(#[trigger] a[i], b[i]),
        forall|i: int| k < i < a.len() ==> #[trigger] a[i] == b[i],
        0 <= k,
        0 <= n <= a.len(),
    ensures
        same_from(merged(a.take(n)), merged(b.take(n)), settled(a, k, n)),
        merged(a.take(n)).len() >= settled(a, k, n),
    decreases n,
{
    if n == 0 {
        assert(merged(a.take(0)) =~= merged(b.take(0)));
    } else {
        merged_same(a, b, k, n - 1);
        assert(a.take(n).drop_last() =~= a.take(n - 1));
        assert(b.take(n).drop_last() =~= b.take(n - 1));
        let s = merged(a.take(n - 1));
        let t = merged(b.take(n - 1));
        let ma = a[n - 1];
        let mb = b[n - 1];
        assert(a.take(n).last() == ma && b.take(n).last() == mb);
        same_but_thinking_reads(ma, mb);
        if s.len() > 0 {
            let last = s.len() - 1;
            assert(bare(s[last]) == bare(t[last]));
            assert(s[last].role == bare(s[last]).role && t[last].role == bare(t[last]).role);
            assert(s[last].blocks == bare(s[last]).blocks);
            assert(t[last].blocks == bare(t[last]).blocks);
            assert(s[last].task == bare(s[last]).task && t[last].task == bare(t[last]).task);
        }
        assert(takes_tool(s) == takes_tool(t));
        assert(takes_user(s) == takes_user(t));
        roles_differ();
        let after_s = merged(a.take(n));
        let after_t = merged(b.take(n));
        let from = settled(a, k, n);
        assert(after_s == merge_one(s, ma) && after_t == merge_one(t, mb));
        assert forall|i: int| 0 <= i < after_s.len() implies bare(#[trigger] after_s[i]) == bare(
            after_t[i],
        ) by {
            if i < s.len() {
                assert(bare(s[i]) == bare(t[i]));
            }
        }
        assert forall|i: int|
            0 <= i < after_s.len() && ((#[trigger] after_s[i]).role != "assistant"@ || i
                >= from) implies after_s[i] == after_t[i] by {
            if i < s.len() {
                assert(after_s[i].role == s[i].role);
                assert(s[i].role != "assistant"@ || i >= settled(a, k, n - 1) ==> s[i] == t[i]);
            }
        }
    }
}

proof fn with_system_same(s: Seq<TurnView>, t: Seq<TurnView>, from: int)
    requires
        same_from(s, t, from),
    ensures
        same_from(
            with_system(s),
            with_system(t),
            from + (with_system(s).len() - s.len()),
        ),
{
    if s.len() > 0 {
        assert(bare(s[0]).role == bare(t[0]).role);
        assert(s[0].role == bare(s[0]).role && t[0].role == bare(t[0]).role);
    }
    let x = with_system(s);
    let y = with_system(t);
    assert forall|i: int| 0 <= i < x.len() implies bare(#[trigger] x[i]) == bare(y[i]) by {
        let d = x.len() - s.len();
        if i >= d {
            assert(x[i] == s[i - d] && y[i] == t[i - d]);
        }
    }
    assert forall|i: int|
        0 <= i < x.len() && ((#[trigger] x[i]).role != "assistant"@ || i >= from + (x.len()
            - s.len())) implies x[i] == y[i] by {
        let d = x.len() - s.len();
        if i >= d {
            assert(x[i] == s[i - d] && y[i] == t[i - d]);
        }
    }
}

proof fn calls_before_same(s: Seq<TurnView>, t: Seq<TurnView>, from: int, i: int)
    requires
        same_from(s, t, from),
        i <= s.len(),
    ensures
        calls_before(s, i) == calls_before(t, i),
    decreases i,
{
    if i > 0 {
        calls_before_same(s, t, from, i - 1);
        assert(bare(s[i - 1]).role == bare(t[i - 1]).role);
        assert(bare(s[i - 1]).tool_calls == bare(t[i - 1]).tool_calls);
    }
}

proof fn ordered_same(s: Seq<TurnView>, t: Seq<TurnView>, from: int)
    requires
        same_from(s, t, from),
    ensures
        same_from(ordered(s), ordered(t), from),
{
    let x = ordered(s);
    let y = ordered(t);
    assert forall|i: int| 0 <= i < x.len() implies bare(#[trigger] x[i]) == bare(y[i]) && (
    x[i].role != "assistant"@ || i >= from ==> x[i] == y[i]) by {
        calls_before_same(s, t, from, i);
        let p = bare(s[i]);
        assert(p == bare(t[i]));
        assert(p.role == s[i].role && p.blocks == s[i].blocks && p.tool_calls == s[i].tool_calls);
        assert(p.role == t[i].role && p.blocks == t[i].blocks && p.tool_calls == t[i].tool_calls);
        assert(bare(x[i]) == ordered_turn(calls_before(s, i), p));
        assert(bare(y[i]) == ordered_turn(calls_before(t, i), p));
    }
}

proof fn last_user_same(s: Seq<TurnView>, t: Seq<TurnView>)
    requires
        s.len() == t.len(),
        forall|i: int| 0 <= i < s.len() ==> (#[trigger] s[i]).role == t[i].role,
    ensures
        last_user(s) == last_user(t),
    decreases s.len(),
{
    if s.len() > 0 {
        assert(s[s.len() - 1].role == t[s.len() - 1].role);
        assert forall|i: int| 0 <= i < s.len() - 1 implies (#[trigger] s.drop_last()[i]).role
            == t.drop_last()[i].role by {
            assert(s[i].role == t[i].role);
        }
        last_user_same(s.drop_last(), t.drop_last());
    }
}

proof fn same_roles(s: Seq<TurnView>, t: Seq<TurnView>, from: int)
    requires
        same_from(s, t, from),
    ensures
        forall|i: int| 0 <= i < s.len() ==> (#[trigger] s[i]).role == t[i].role,
{
    assert forall|i: int| 0 <= i < s.len() implies (#[trigger] s[i]).role == t[i].role by {
        assert(bare(s[i]).role == bare(t[i]).role);
    }
}

proof fn chat_text_same(
    s: Seq<TurnView>,
    t: Seq<TurnView>,
    from: int,
    n: int,
    mode: Mode,
    tools: Option<Seq<JsonView>>,
)
    requires
        same_from(s, t, from),
        !mode.thinking,
        n <= s.len(),
    ensures
        turns_text(s, n, mode, tools) == turns_text(t, n, mode, tools),
    decreases n,
{
    if n > 0 {
        chat_text_same(s, t, from, n - 1, mode, tools);
        let i = n - 1;
        let p = bare(s[i]);
        assert(p == bare(t[i]));
        assert(p.role == s[i].role && p.blocks == s[i].blocks && p.tool_calls == s[i].tool_calls
            && p.content == s[i].content && p.task == s[i].task);
        assert(p.role == t[i].role && p.blocks == t[i].blocks && p.tool_calls == t[i].tool_calls
            && p.content == t[i].content && p.task == t[i].task);
        same_roles(s, t, from);
        assert(leads_over(s, i) == leads_over(t, i)) by {
            if n < s.len() {
                assert(s[n].role == t[n].role);
            }
        }
        assert(turn_text(s, i, mode) == turn_text(t, i, mode));
    }
}

/// In chat mode the thinking of earlier turns does not matter.
pub proof fn chat_ignores_thinking(
    a: Seq<JsonView>,
    b: Seq<JsonView>,
    tools: Option<JsonView>,
    opts: RenderOpts,
)
    requires
        a.len() == b.len(),
        forall|i: int| 0 <= i < a.len() ==> same_but_thinking(#[trigger] a[i], b[i]),
        !opts.thinking,
    ensures
        prompt_text(JsonView::Array(a), tools, opts) == prompt_text(
            JsonView::Array(b),
            tools,
            opts,
        ),
{
    let n = a.len() as int;
    merged_same(a, b, n, n);
    assert(a.take(n) =~= a && b.take(n) =~= b);
    let from = settled(a, n, n);
    with_system_same(merged(a), merged(b), from);
    let at = from + (with_system(merged(a)).len() - merged(a).len());
    ordered_same(with_system(merged(a)), with_system(merged(b)), at);
    let s = shown_turns(JsonView::Array(a), tools, opts);
    let t = shown_turns(JsonView::Array(b), tools, opts);
    same_roles(s, t, at);
    last_user_same(s, t);
    chat_text_same(s, t, at, s.len() as int, mode_of(s, tools, opts), tool_list(tools));
}

proof fn left_same(s: Seq<TurnView>, t: Seq<TurnView>, from: int, n: int, last: int)
    requires
        same_from(s, t, from),
        from <= last + 1,
        0 <= last < s.len(),
        user_role(s[last].role),
        n <= s.len(),
    ensures
        left_of_first(s, n, last) == left_of_first(t, n, last),
    decreases n,
{
    roles_differ();
    if n > 0 {
        left_same(s, t, from, n - 1, last);
        let i = n - 1;
        assert(bare(s[i]) == bare(t[i]));
        assert(s[i].role == bare(s[i]).role && t[i].role == bare(t[i]).role);
        assert(s[i].role != "assistant"@ || i >= from ==> s[i] == t[i]);
        assert(left_of(s[i], i, last) == left_of(t[i], i, last));
    }
}

/// In thinking mode without tools, the thinking before the last message of the user's
/// side does not matter: not that of any message before `k`, where message `k` is the
/// user's, a developer's or a tool's.
pub proof fn dropped_thinking_does_not_matter(
    a: Seq<JsonView>,
    b: Seq<JsonView>,
    k: int,
    tools: Option<JsonView>,
    opts: RenderOpts,
)
    requires
        a.len() == b.len(),
        0 <= k < a.len(),
        user_role(role_of(a[k])) || role_of(a[k]) == "tool"@,
        forall|i: int| 0 <= i < a.len() ==> same_but_thinking(#[trigger] a[i], b[i]),
        forall|i: int| k < i < a.len() ==> #[trigger] a[i] == b[i],
        opts.thinking,
        tool_list(tools) is None,
    ensures
        prompt_text(JsonView::Array(a), tools, opts) == prompt_text(
            JsonView::Array(b),
            tools,
            opts,
        ),
{
    roles_differ();
    let n = a.len() as int;
    merged_same(a, b, k, n);
    merged_same(a, b, k, k + 1);
    assert(a.take(n) =~= a && b.take(n) =~= b);
    let from = settled(a, k, n);
    let x = merged(a);
    let y = merged(b);
    last_of_run(a, k);
    last_stays(a, k, n);
    assert(from >= 1 && user_role(x[from - 1].role));
    with_system_same(x, y, from);
    let shift = with_system(x).len() - x.len();
    let at = from + shift;
    assert(with_system(x)[at - 1] == x[from - 1]);
    ordered_same(with_system(x), with_system(y), at);
    let s = ordered(with_system(x));
    let t = ordered(with_system(y));
    ordered_keeps(with_system(x), at - 1);
    same_roles(s, t, at);
    last_user_same(s, t);
    last_user_is_last(s);
    let last = last_user(s);
    assert(last >= at - 1) by {
        if last < at - 1 {
            assert(!user_role(s[at - 1].role));
        }
    }
    left_same(s, t, at, s.len() as int, last);
}

/// The turn that a message of the user's side ends up in is the last one, and the
/// user's.
pub proof fn last_of_run(a: Seq<JsonView>, k: int)
    requires
        0 <= k < a.len(),
        user_role(role_of(a[k])) || role_of(a[k]) == "tool"@,
    ensures
        merged(a.take(k + 1)).len() > 0,
        user_role(merged(a.take(k + 1)).last().role),
{
    roles_differ();
    assert(a.take(k + 1).drop_last() =~= a.take(k));
    assert(a.take(k + 1).last() == a[k]);
}

/// Later messages keep the roles of the turns that are there.
pub proof fn last_stays(a: Seq<JsonView>, k: int, n: int)
    requires
        0 <= k < n <= a.len(),
    ensures
        merged(a.take(n)).len() >= merged(a.take(k + 1)).len(),
        forall|i: int|
            0 <= i < merged(a.take(k + 1)).len() ==> (#[trigger] merged(a.take(n))[i]).role
                == merged(a.take(k + 1))[i].role,
    decreases n,
{
    if n > k + 1 {
        last_stays(a, k, n - 1);
        assert(a.take(n).drop_last() =~= a.take(n - 1));
        let s = merged(a.take(n - 1));
        let after = merged(a.take(n));
        let first = merged(a.take(k + 1));
        assert forall|i: int| 0 <= i < first.len() implies (#[trigger] after[i]).role
            == first[i].role by {
            assert(s[i].role == first[i].role);
            assert(after[i].role == s[i].role);
        }
    }
}

/// With tools, a thinking-mode prompt shows every turn, and every assistant turn begins
/// with its thinking unless it is the output of a task.
pub proof fn tools_keep_thinking(
    messages: JsonView,
    tools: Option<JsonView>,
    opts: RenderOpts,
    i: int,
)
    requires
        opts.thinking,
        tool_list(tools) is Some,
        0 <= i < shown_turns(messages, tools, opts).len(),
        shown_turns(messages, tools, opts)[i].role == "assistant"@,
        !after_task(shown_turns(messages, tools, opts), i),
    ensures
        shown_turns(messages, tools, opts) == ordered(with_system(merged(items_of(messages)))),
        (shown_turns(messages, tools, opts)[i].reasoning_content + THINK_END@).is_prefix_of(
            turn_body(
                shown_turns(messages, tools, opts),
                i,
                mode_of(shown_turns(messages, tools, opts), tools, opts),
            ),
        ),
{
    roles_differ();
    let turns = shown_turns(messages, tools, opts);
    let body = turn_body(turns, i, mode_of(turns, tools, opts));
    let head = turns[i].reasoning_content + THINK_END@;
    assert(body.subrange(0, head.len() as int) =~= head);
}

/// The thinking of an assistant turn that is the output of a task is never shown: the
/// turn is as in chat mode.
pub proof fn task_output_hides_thinking(turns: Seq<TurnView>, i: int, mode: Mode)
    requires
        0 <= i < turns.len(),
        after_task(turns, i),
    ensures
        turn_body(turns, i, mode) == turn_body(turns, i, Mode { thinking: false, ..mode }),
{
}

/// In chat mode the text of the turns with tools is that without, and the tools section
/// after the first turn.
proof fn chat_section(
    turns: Seq<TurnView>,
    n: int,
    plain: Mode,
    other: Mode,
    list: Option<Seq<JsonView>>,
)
    requires
        1 <= n <= turns.len(),
        !plain.thinking,
        !other.thinking,
    ensures
        ({
            let first = turn_text(turns, 0, plain);
            let text = turns_text(turns, n, plain, None);
            &&& first.is_prefix_of(text)
            &&& turns_text(turns, n, other, list) == first + tools_section(list) + text.skip(
                first.len() as int,
            )
        }),
    decreases n,
{
    let first = turn_text(turns, 0, plain);
    let text = turns_text(turns, n, plain, None);
    let with = turns_text(turns, n, other, list);
    assert(turn_text(turns, n - 1, plain) == turn_text(turns, n - 1, other));
    if n == 1 {
        assert(turns_text(turns, 0, plain, None) =~= Seq::<char>::empty());
        assert(turns_text(turns, 0, other, list) =~= Seq::<char>::empty());
        assert(text =~= first);
        assert(text.subrange(0, first.len() as int) =~= first);
        assert(with =~= first + tools_section(list) + text.skip(first.len() as int));
    } else {
        chat_section(turns, n - 1, plain, other, list);
        let before = turns_text(turns, n - 1, plain, None);
        let last = turn_text(turns, n - 1, plain);
        assert(text =~= before + last);
        assert(before.subrange(0, first.len() as int) =~= first);
        assert(text.subrange(0, first.len() as int) =~= first);
        assert(text.skip(first.len() as int) =~= before.skip(first.len() as int) + last);
        assert(with =~= first + tools_section(list) + text.skip(first.len() as int));
    }
}

/// In chat mode a tools list does nothing but insert its section right after the system
/// content, where the system turn carries no task: what stands before and after it is the
/// prompt without tools.
pub proof fn chat_tools_insert_section(
    messages: JsonView,
    tools: Option<JsonView>,
    opts: RenderOpts,
)
    requires
        messages is Array,
        !opts.thinking,
        shown_turns(messages, None, opts)[0].task is None,
    ensures
        ({
            let before = BOS@ + shown_turns(messages, None, opts)[0].content;
            let rest = prompt_text(messages, None, opts).skip(before.len() as int);
            &&& prompt_text(messages, None, opts) == before + rest
            &&& prompt_text(messages, tools, opts) == before + tools_section(tool_list(tools))
                + rest
        }),
{
    roles_differ();
    shown_system_first(messages, None, opts);
    let turns = shown_turns(messages, None, opts);
    assert(shown_turns(messages, tools, opts) == turns);
    let list = tool_list(tools);
    let n = turns.len() as int;
    let plain = mode_of(turns, None, opts);
    let other = mode_of(turns, tools, opts);
    chat_section(turns, n, plain, other, list);
    let first = turn_text(turns, 0, plain);
    assert(first =~= turns[0].content);
    let text = turns_text(turns, n, plain, None);
    assert(text.subrange(0, first.len() as int) =~= first);
    let before = BOS@ + turns[0].content;
    let rest = text.skip(first.len() as int);
    assert(tool_list(None) == None::<Seq<JsonView>>);
    assert(prompt_text(messages, None, opts) =~= before + rest);
    assert(prompt_text(messages, None, opts).skip(before.len() as int) =~= rest);
    assert(prompt_text(messages, tools, opts) =~= before + tools_section(list) + rest);
}

} // verus!
