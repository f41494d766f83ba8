//! How a prompt grows with its messages: what each further message adds to it.

use vstd::prelude::*;
use crate::dsml::tool_calls_text;
use crate::json::{JsonView, items_of, member, text_field};
use crate::layout_laws::joined_parts;
use crate::markers::{ASSISTANT, EOS, THINK_END, THINK_START, USER, task_token};
use crate::merge::{calls_of, content_text, merged, merged_shape, turn_of, turn_shaped};
use crate::merge_laws::{
    added_block, empty_is_no_role, fresh, joins, last_turn, message_joins_turn, message_opens_turn,
    text_or_nothing,
};
use crate::options::RenderOpts;
use crate::order::{
    by_rank, calls_before, identified, ordered, ordered_blocks, ordered_turn, ordering_keeps_slots,
    refilled, results_of,
};
use crate::prompt_laws::shown_system_first;
use crate::render::{
    Mode, block_text, block_texts, mode_of, opening, prompt_text, shown_turns, tools_section,
    turn_body, turn_end, turn_text, turns_text, with_system,
};
use crate::text::joined;
use crate::thinking::{
    last_user, last_user_is_last, left_of, left_of_first, user_role, without_thinking,
};
use crate::tools::{tool_list, tools_text};
use crate::turns::{BlockView, CallView, TurnView, roles_differ};

verus! {

/// The opening of the assistant's turn: the model is to think first in thinking mode, and
/// to answer at once in chat mode.
pub open spec fn answer_opening(thinking: bool) -> Seq<char> {
    if thinking {
        ASSISTANT@ + THINK_START@
    } else {
        ASSISTANT@ + THINK_END@
    }
}

/// Is this the name of a task?
pub open spec fn names_task(task: Seq<char>) -> bool {
    task == "action"@ || task == "query"@ || task == "authority"@ || task == "domain"@ || task
        == "title"@ || task == "read_url"@
}

/// The tasks are those six, and the token of each is its name between bars.
pub proof fn tokens_of_tasks(task: Seq<char>)
    ensures
        task_token(task) is Some <==> names_task(task),
        names_task(task) ==> task_token(task) == Some("<｜"@ + task + "｜>"@),
{
    reveal_strlit("<｜");
    reveal_strlit("｜>");
    reveal_strlit("action");
    reveal_strlit("query");
    reveal_strlit("authority");
    reveal_strlit("domain");
    reveal_strlit("title");
    reveal_strlit("read_url");
    reveal_strlit("<｜action｜>");
    reveal_strlit("<｜query｜>");
    reveal_strlit("<｜authority｜>");
    reveal_strlit("<｜domain｜>");
    reveal_strlit("<｜title｜>");
    reveal_strlit("<｜read_url｜>");
    assert("action"@.len() == 6 && "query"@.len() == 5 && "authority"@.len() == 9 && "domain"@.len()
        == 6 && "title"@.len() == 5 && "read_url"@.len() == 8);
    assert("action"@[0] == 'a' && "domain"@[0] == 'd' && "query"@[0] == 'q' && "title"@[0] == 't');
    assert("<｜"@ + "action"@ + "｜>"@ =~= "<｜action｜>"@);
    assert("<｜"@ + "query"@ + "｜>"@ =~= "<｜query｜>"@);
    assert("<｜"@ + "authority"@ + "｜>"@ =~= "<｜authority｜>"@);
    assert("<｜"@ + "domain"@ + "｜>"@ =~= "<｜domain｜>"@);
    assert("<｜"@ + "title"@ + "｜>"@ =~= "<｜title｜>"@);
    assert("<｜"@ + "read_url"@ + "｜>"@ =~= "<｜read_url｜>"@);
}

/// What a prompt ends with after a turn of this role and task: the token of the task, for
/// `action` after the opening of the assistant's turn; without a task that opening after
/// the user's side, and nothing after the others.
pub open spec fn ending(role: Seq<char>, task: Option<Seq<char>>, thinking: bool) -> Seq<char> {
    match task {
        Some(name) => if name == "action"@ {
            answer_opening(thinking) + ("<｜"@ + name + "｜>"@)
        } else {
            "<｜"@ + name + "｜>"@
        },
        None => if role == "user"@ || role == "developer"@ {
            answer_opening(thinking)
        } else {
            Seq::empty()
        },
    }
}

/// The last turn that the prompt of a list of messages shows.
pub open spec fn last_shown(
    messages: Seq<JsonView>,
    tools: Option<JsonView>,
    opts: RenderOpts,
) -> TurnView {
    shown_turns(JsonView::Array(messages), tools, opts).last()
}

/// The ending of the prompt of a list of messages.
pub open spec fn prompt_ending(
    messages: Seq<JsonView>,
    tools: Option<JsonView>,
    opts: RenderOpts,
) -> Seq<char> {
    let last = last_shown(messages, tools, opts);
    ending(last.role, last.task, opts.thinking)
}

/// The prompt of a list of messages without its ending.
pub open spec fn unended(
    messages: Seq<JsonView>,
    tools: Option<JsonView>,
    opts: RenderOpts,
) -> Seq<char> {
    let prompt = prompt_text(JsonView::Array(messages), tools, opts);
    prompt.take(prompt.len() - prompt_ending(messages, tools, opts).len())
}

/// Is every task on the messages a valid one, and none on a system message that is alone?
pub open spec fn tasks_fit(
    messages: Seq<JsonView>,
    tools: Option<JsonView>,
    opts: RenderOpts,
) -> bool {
    let turns = shown_turns(JsonView::Array(messages), tools, opts);
    &&& turns.last().task is Some ==> names_task(turns.last().task->0)
    &&& turns.len() == 1 ==> turns[0].task is None
}

/// Is nothing dropped? In chat mode, and where there are tools.
pub open spec fn drops_nothing(tools: Option<JsonView>, opts: RenderOpts) -> bool {
    !opts.thinking || (tools is Some && tools->0 is Array && tools->0->Array_0.len() > 0)
}

/// Does a turn of this role take what leads over to it?
spec fn takes_lead(role: Seq<char>) -> bool {
    role == "assistant"@ || role == "latest_reminder"@
}

spec fn agree(m: Mode, k: Mode) -> bool {
    &&& m.thinking == k.thinking
    &&& m.dropping == k.dropping
    &&& m.thinking && m.dropping ==> m.last == k.last
}

proof fn earlier_same(
    s: Seq<TurnView>,
    x: TurnView,
    n: int,
    m: Mode,
    k: Mode,
    list: Option<Seq<JsonView>>,
)
    requires
        0 <= n < s.len(),
        agree(m, k),
    ensures
        turns_text(s.push(x), n, k, list) == turns_text(s, n, m, list),
    decreases n,
{
    if n > 0 {
        earlier_same(s, x, n - 1, m, k, list);
        let t = s.push(x);
        assert(t[n - 1] == s[n - 1] && t[n] == s[n]);
        if n > 1 {
            assert(t[n - 2] == s[n - 2]);
        }
        assert(turn_body(t, n - 1, k) == turn_body(s, n - 1, m));
        assert(turn_end(t, n - 1, k) == turn_end(s, n - 1, m));
    }
}

/// The text of turns with one more, and without.
proof fn pushed_text(
    s: Seq<TurnView>,
    x: TurnView,
    m: Mode,
    k: Mode,
    list: Option<Seq<JsonView>>,
)
    requires
        s.len() > 0,
        agree(m, k),
    ensures
        ({
            let n = s.len() as int;
            let base = turns_text(s, n - 1, m, list) + turn_body(s, n - 1, m);
            let section = if n == 1 {
                tools_section(list)
            } else {
                Seq::empty()
            };
            &&& turns_text(s, n, m, list) == base + turn_end(s, n - 1, m) + section
            &&& turns_text(s.push(x), n + 1, k, list) == base + (if takes_lead(x.role) {
                turn_end(s, n - 1, m)
            } else {
                Seq::empty()
            }) + section + turn_text(s.push(x), n, k)
        }),
{
    let n = s.len() as int;
    let t = s.push(x);
    earlier_same(s, x, n - 1, m, k, list);
    assert(t[n - 1] == s[n - 1] && t[n] == x);
    if n > 1 {
        assert(t[n - 2] == s[n - 2]);
    }
    assert(turn_body(t, n - 1, k) == turn_body(s, n - 1, m));
    let end = if takes_lead(x.role) {
        turn_end(s, n - 1, m)
    } else {
        Seq::<char>::empty()
    };
    assert(turn_end(t, n - 1, k) == end);
    let base = turns_text(s, n - 1, m, list) + turn_body(s, n - 1, m);
    let section = if n == 1 {
        tools_section(list)
    } else {
        Seq::<char>::empty()
    };
    assert(turns_text(s, n, m, list) =~= base + turn_end(s, n - 1, m) + section);
    assert(turns_text(t, n, k, list) =~= base + end + section);
    assert(turns_text(t, n + 1, k, list) =~= base + end + section + turn_text(t, n, k));
}

proof fn calls_before_push(turns: Seq<TurnView>, x: TurnView, i: int)
    requires
        i <= turns.len(),
    ensures
        calls_before(turns.push(x), i) == calls_before(turns, i),
    decreases i,
{
    if i > 0 {
        calls_before_push(turns, x, i - 1);
        assert(turns.push(x)[i - 1] == turns[i - 1]);
    }
}

proof fn ordered_push(turns: Seq<TurnView>, x: TurnView)
    ensures
        ordered(turns.push(x)) == ordered(turns).push(
            ordered_turn(calls_before(turns, turns.len() as int), x),
        ),
{
    assert forall|i: int| 0 <= i <= turns.len() implies #[trigger] ordered(turns.push(x))[i]
        == ordered(turns).push(ordered_turn(calls_before(turns, turns.len() as int), x))[i] by {
        calls_before_push(turns, x, i);
    }
    assert(ordered(turns.push(x)) =~= ordered(turns).push(
        ordered_turn(calls_before(turns, turns.len() as int), x),
    ));
}

proof fn left_push(s: Seq<TurnView>, x: TurnView, n: int, l: int)
    requires
        0 <= n <= s.len(),
    ensures
        left_of_first(s.push(x), n, l) == left_of_first(s, n, l),
    decreases n,
{
    if n > 0 {
        left_push(s, x, n - 1, l);
        assert(s.push(x)[n - 1] == s[n - 1]);
    }
}

/// The turns that are shown after a message that opens a turn.
#[verifier::rlimit(60)]
#[verifier::spinoff_prover]
proof fn shown_pushed(
    messages: Seq<JsonView>,
    message: JsonView,
    tools: Option<JsonView>,
    opts: RenderOpts,
)
    requires
        !joins(message) || fresh(messages),
        drops_nothing(tools, opts) || !(joins(message) || text_field(message, "role"@) == Some(
            "developer"@,
        )),
        messages.len() > 0 || text_field(message, "role"@) != Some("system"@),
    ensures
        ({
            let s = shown_turns(JsonView::Array(messages), tools, opts);
            let t = shown_turns(JsonView::Array(messages.push(message)), tools, opts);
            &&& s.len() > 0
            &&& t == s.push(turn_of(message))
            &&& agree(mode_of(s, tools, opts), mode_of(t, tools, opts))
        }),
{
    roles_differ();
    empty_is_no_role();
    reveal_strlit("developer");
    assert("developer"@.len() == 9);
    let turns = merged(messages);
    let x = turn_of(message);
    message_opens_turn(messages, message);
    assert(merged(messages.push(message)) =~= turns.push(x)) by {
        let all = merged(messages.push(message));
        assert(messages.push(message).drop_last() =~= messages);
        assert(all =~= all.drop_last().push(all.last()));
        if messages.len() > 0 {
            last_turn(messages);
        }
    }
    if messages.len() > 0 {
        last_turn(messages);
    } else {
        assert(turns =~= Seq::<TurnView>::empty());
    }
    let first = with_system(turns);
    assert(with_system(turns.push(x)) =~= first.push(x)) by {
        if turns.len() > 0 {
            assert(turns.push(x)[0] == turns[0]);
        } else {
            assert(turns.push(x)[0] == x);
        }
    }
    ordered_push(first, x);
    assert(ordered_turn(calls_before(first, first.len() as int), x) == x) by {
        if joins(message) {
            let b = x.blocks->0;
            assert(b =~= seq![added_block(message)]);
            assert(b.drop_last() =~= Seq::<BlockView>::empty());
            assert(results_of(Seq::<BlockView>::empty()).len() == 0);
            assert(results_of(b).len() <= 1);
        }
    }
    let s = ordered(first);
    let t = s.push(x);
    assert(items_of(JsonView::Array(messages.push(message))) == messages.push(message));
    shown_system_first(JsonView::Array(messages), tools, opts);
    if opts.thinking && tool_list(tools) is None {
        assert(!user_role(x.role));
        assert(t.drop_last() =~= s);
        assert(last_user(t) == last_user(s));
        let l = last_user(s);
        last_user_is_last(s);
        let n = s.len() as int;
        left_push(s, x, n, l);
        assert(t[n] == x);
        assert(left_of(x, n, l) == Some(x));
        assert(without_thinking(t) == without_thinking(s).push(x));
        let w = without_thinking(s);
        assert(w.push(x).drop_last() =~= w);
        assert(last_user(w.push(x)) == last_user(w));
    }
}

/// The parts of a prompt: its opening, the turns before the last, the body of the last, the
/// ending, and the tools section when the last turn is the first.
#[verifier::rlimit(60)]
#[verifier::spinoff_prover]
proof fn prompt_parts(messages: Seq<JsonView>, tools: Option<JsonView>, opts: RenderOpts)
    requires
        tasks_fit(messages, tools, opts),
    ensures
        ({
            let s = shown_turns(JsonView::Array(messages), tools, opts);
            let n = s.len() as int;
            let mode = mode_of(s, tools, opts);
            let list = tool_list(tools);
            let e = prompt_ending(messages, tools, opts);
            let base = turns_text(s, n - 1, mode, list) + turn_body(s, n - 1, mode);
            let section = if n == 1 {
                tools_section(list)
            } else {
                Seq::empty()
            };
            &&& n > 0
            &&& turn_end(s, n - 1, mode) == e
            &&& n == 1 ==> e == Seq::<char>::empty()
            &&& prompt_text(JsonView::Array(messages), tools, opts) == opening(opts) + base
                + section + e
            &&& unended(messages, tools, opts) == opening(opts) + base + section
        }),
{
    roles_differ();
    let m = JsonView::Array(messages);
    shown_system_first(m, tools, opts);
    let s = shown_turns(m, tools, opts);
    let n = s.len() as int;
    let mode = mode_of(s, tools, opts);
    let list = tool_list(tools);
    let last = s[n - 1];
    assert(s.last() == last);
    if last.task is Some {
        tokens_of_tasks(last.task->0);
    }
    if user_role(last.role) {
        assert(last_user(s) == n - 1);
    }
    let e = prompt_ending(messages, tools, opts);
    assert(turn_end(s, n - 1, mode) =~= e);
    let base = turns_text(s, n - 1, mode, list) + turn_body(s, n - 1, mode);
    let section = if n == 1 {
        tools_section(list)
    } else {
        Seq::<char>::empty()
    };
    if n == 1 {
        assert(e =~= Seq::<char>::empty());
    }
    let prompt = prompt_text(m, tools, opts);
    let whole = opening(opts) + base + section;
    assert(prompt =~= whole + e);
    assert(prompt.take(prompt.len() - e.len()) =~= whole);
}

/// The prompt of a list of messages ends with its ending.
pub proof fn prompt_has_ending(
    messages: Seq<JsonView>,
    tools: Option<JsonView>,
    opts: RenderOpts,
)
    requires
        tasks_fit(messages, tools, opts),
    ensures
        prompt_text(JsonView::Array(messages), tools, opts) == unended(messages, tools, opts)
            + prompt_ending(messages, tools, opts),
{
    prompt_parts(messages, tools, opts);
}

#[verifier::rlimit(60)]
#[verifier::spinoff_prover]
proof fn grown(
    messages: Seq<JsonView>,
    message: JsonView,
    tools: Option<JsonView>,
    opts: RenderOpts,
)
    requires
        tasks_fit(messages, tools, opts),
        !joins(message) || fresh(messages),
        drops_nothing(tools, opts) || !(joins(message) || text_field(message, "role"@) == Some(
            "developer"@,
        )),
        messages.len() > 0 || text_field(message, "role"@) != Some("system"@),
    ensures
        ({
            let s = shown_turns(JsonView::Array(messages), tools, opts);
            let t = s.push(turn_of(message));
            let k = mode_of(t, tools, opts);
            let added = turn_text(t, s.len() as int, k);
            &&& s.len() > 0
            &&& shown_turns(JsonView::Array(messages.push(message)), tools, opts) == t
            &&& prompt_text(JsonView::Array(messages.push(message)), tools, opts) == (if takes_lead(
                turn_of(message).role,
            ) {
                prompt_text(JsonView::Array(messages), tools, opts)
            } else {
                unended(messages, tools, opts)
            }) + added
        }),
{
    shown_pushed(messages, message, tools, opts);
    prompt_parts(messages, tools, opts);
    let s = shown_turns(JsonView::Array(messages), tools, opts);
    let x = turn_of(message);
    let t = s.push(x);
    let n = s.len() as int;
    let mode = mode_of(s, tools, opts);
    let k = mode_of(t, tools, opts);
    let list = tool_list(tools);
    pushed_text(s, x, mode, k, list);
    let e = prompt_ending(messages, tools, opts);
    let base = turns_text(s, n - 1, mode, list) + turn_body(s, n - 1, mode);
    let section = if n == 1 {
        tools_section(list)
    } else {
        Seq::<char>::empty()
    };
    let lead = if takes_lead(x.role) {
        e
    } else {
        Seq::<char>::empty()
    };
    let added = turn_text(t, n, k);
    let text = turns_text(t, n + 1, k, list);
    assert(text == base + lead + section + added);
    let o = opening(opts);
    assert(prompt_text(JsonView::Array(messages.push(message)), tools, opts) == o + text);
    if n == 1 {
        assert(lead =~= Seq::<char>::empty());
        assert(o + text =~= o + base + section + added);
        assert(o + base + section + e =~= o + base + section);
    } else {
        assert(o + text =~= o + base + section + lead + added);
        assert(o + base + section + Seq::<char>::empty() =~= o + base + section);
    }
}

/// An assistant message adds to the prompt its thinking and `</think>`, in thinking mode
/// and unless it answers a turn with a task; its content; the block of its tool calls after
/// an empty line, when it has some; the end-of-sequence marker; and the token of a task that
/// it carries. What stands before is the prompt without it.
#[verifier::rlimit(60)]
#[verifier::spinoff_prover]
pub proof fn assistant_appends(
    messages: Seq<JsonView>,
    message: JsonView,
    tools: Option<JsonView>,
    opts: RenderOpts,
)
    requires
        tasks_fit(messages, tools, opts),
        text_field(message, "role"@) == Some("assistant"@),
        text_field(message, "task"@) is Some ==> names_task(text_field(message, "task"@)->0),
    ensures
        prompt_text(JsonView::Array(messages.push(message)), tools, opts) == prompt_text(
            JsonView::Array(messages),
            tools,
            opts,
        ) + (if opts.thinking && last_shown(messages, tools, opts).task is None {
            text_or_nothing(message, "reasoning_content"@) + THINK_END@
        } else {
            Seq::empty()
        }) + content_text(member(message, "content"@)) + (if calls_of(
            member(message, "tool_calls"@),
        ) != Seq::<CallView>::empty() {
            "\n\n"@ + tool_calls_text(calls_of(member(message, "tool_calls"@)))
        } else {
            Seq::empty()
        }) + EOS@ + ending("assistant"@, text_field(message, "task"@), opts.thinking),
        last_shown(messages.push(message), tools, opts).role == "assistant"@,
        last_shown(messages.push(message), tools, opts).task == text_field(message, "task"@),
{
    roles_differ();
    grown(messages, message, tools, opts);
    let s = shown_turns(JsonView::Array(messages), tools, opts);
    let x = turn_of(message);
    let t = s.push(x);
    let n = s.len() as int;
    let k = mode_of(t, tools, opts);
    assert(t[n] == x && t[n - 1] == s.last() && t.last() == x);
    assert(t.drop_last() =~= s);
    last_user_is_last(s);
    assert(last_user(t) == last_user(s));
    let calls = calls_of(member(message, "tool_calls"@));
    assert(calls.len() == 0 ==> calls =~= Seq::<CallView>::empty());
    assistant_turn_text(t, x, s.last(), k);
    let prompt = prompt_text(JsonView::Array(messages), tools, opts);
    let thought = if opts.thinking && s.last().task is None {
        x.reasoning_content + THINK_END@
    } else {
        Seq::<char>::empty()
    };
    let block = if calls.len() > 0 {
        "\n\n"@ + tool_calls_text(calls)
    } else {
        Seq::<char>::empty()
    };
    let e = ending("assistant"@, x.task, opts.thinking);
    assert(turn_text(t, n, k) == thought + x.content + block + EOS@ + e);
    assert(prompt + (thought + x.content + block + EOS@ + e) =~= prompt + thought + x.content
        + block + EOS@ + e);
}

/// The text of an assistant turn that is the last, after another turn.
proof fn assistant_turn_text(t: Seq<TurnView>, x: TurnView, before: TurnView, k: Mode)
    requires
        t.len() > 1,
        t[t.len() - 1] == x,
        t[t.len() - 2] == before,
        x.role == "assistant"@,
        k.last < t.len() - 1,
        x.task is Some ==> names_task(x.task->0),
    ensures
        turn_text(t, t.len() - 1, k) == (if k.thinking && before.task is None {
            x.reasoning_content + THINK_END@
        } else {
            Seq::empty()
        }) + x.content + (if x.tool_calls.len() > 0 {
            "\n\n"@ + tool_calls_text(x.tool_calls)
        } else {
            Seq::empty()
        }) + EOS@ + ending("assistant"@, x.task, k.thinking),
{
    roles_differ();
    let n = t.len() - 1;
    if x.task is Some {
        tokens_of_tasks(x.task->0);
    }
    let e = ending("assistant"@, x.task, k.thinking);
    assert(turn_end(t, n, k) =~= e);
}

/// A message of a role that is neither the user's side, nor a tool's, nor the assistant's
/// adds its content, and the token of a task that it carries. A reminder adds it to the
/// prompt as it is; any other takes the ending off first.
#[verifier::rlimit(60)]
#[verifier::spinoff_prover]
pub proof fn remark_appends(
    messages: Seq<JsonView>,
    message: JsonView,
    tools: Option<JsonView>,
    opts: RenderOpts,
)
    requires
        tasks_fit(messages, tools, opts),
        !joins(message),
        text_field(message, "role"@) != Some("assistant"@),
        text_field(message, "role"@) != Some("developer"@),
        messages.len() > 0 || text_field(message, "role"@) != Some("system"@),
        text_field(message, "task"@) is Some ==> names_task(text_field(message, "task"@)->0),
    ensures
        prompt_text(JsonView::Array(messages.push(message)), tools, opts) == (if text_field(
            message,
            "role"@,
        ) == Some("latest_reminder"@) {
            prompt_text(JsonView::Array(messages), tools, opts)
        } else {
            unended(messages, tools, opts)
        }) + content_text(member(message, "content"@)) + ending(
            text_or_nothing(message, "role"@),
            text_field(message, "task"@),
            opts.thinking,
        ),
        last_shown(messages.push(message), tools, opts).role == text_or_nothing(message, "role"@),
        last_shown(messages.push(message), tools, opts).task == text_field(message, "task"@),
{
    roles_differ();
    empty_is_no_role();
    reveal_strlit("developer");
    reveal_strlit("latest_reminder");
    assert("developer"@.len() == 9 && "latest_reminder"@.len() == 15);
    grown(messages, message, tools, opts);
    let s = shown_turns(JsonView::Array(messages), tools, opts);
    let x = turn_of(message);
    let t = s.push(x);
    let n = s.len() as int;
    let k = mode_of(t, tools, opts);
    assert(t[n] == x);
    if x.task is Some {
        tokens_of_tasks(x.task->0);
    }
    let e = ending(x.role, x.task, opts.thinking);
    assert(turn_end(t, n, k) =~= e);
    assert(turn_text(t, n, k) =~= x.content + e);
    let lead = if takes_lead(x.role) {
        prompt_text(JsonView::Array(messages), tools, opts)
    } else {
        unended(messages, tools, opts)
    };
    assert(lead + turn_text(t, n, k) =~= lead + x.content + e);
}

/// What a message of the user's side shows in its turn: a text, or a tool's result in its
/// tags.
pub open spec fn spoken(message: JsonView) -> Seq<char> {
    match added_block(message) {
        BlockView::Text(text) => text,
        BlockView::ToolResult { content, tool_use_id } => "<tool_result>"@ + content
            + "</tool_result>"@,
    }
}

/// A message of the user's side that opens a turn takes the ending off the prompt and adds
/// the user marker, what it says, and the ending of its own: in chat mode and where there
/// are tools. In thinking mode without tools this holds of the chat-mode prompt, which the
/// thinking-mode prompt differs from as `thinking_without_tools` says.
#[verifier::rlimit(60)]
#[verifier::spinoff_prover]
pub proof fn user_side_opens(
    messages: Seq<JsonView>,
    message: JsonView,
    tools: Option<JsonView>,
    opts: RenderOpts,
)
    requires
        tasks_fit(messages, tools, opts),
        drops_nothing(tools, opts),
        (joins(message) && fresh(messages)) || text_field(message, "role"@) == Some("developer"@),
        text_field(message, "task"@) is Some && text_field(message, "role"@) != Some("tool"@)
            ==> names_task(text_field(message, "task"@)->0),
    ensures
        prompt_text(JsonView::Array(messages.push(message)), tools, opts) == unended(
            messages,
            tools,
            opts,
        ) + USER@ + spoken(message) + ending(
            "user"@,
            if text_field(message, "role"@) == Some("tool"@) {
                None
            } else {
                text_field(message, "task"@)
            },
            opts.thinking,
        ),
        last_shown(messages.push(message), tools, opts).role == (if joins(message) {
            "user"@
        } else {
            "developer"@
        }),
        last_shown(messages.push(message), tools, opts).task == (if text_field(message, "role"@)
            == Some("tool"@) {
            None
        } else {
            text_field(message, "task"@)
        }),
{
    roles_differ();
    grown(messages, message, tools, opts);
    let s = shown_turns(JsonView::Array(messages), tools, opts);
    let x = turn_of(message);
    let t = s.push(x);
    let n = s.len() as int;
    let k = mode_of(t, tools, opts);
    assert(t[n] == x && t.last() == x);
    assert(x.role == "user"@ || x.role == "developer"@);
    assert(last_user(t) == n);
    opened_turn(messages, message);
    last_turn_text(t, x, spoken(message), k);
    let e = ending("user"@, x.task, opts.thinking);
    assert(k.thinking == opts.thinking);
    let before = unended(messages, tools, opts);
    assert(before + (USER@ + spoken(message) + e) =~= before + USER@ + spoken(message) + e);
}

/// The turn that a message of the user's side opens.
proof fn opened_turn(messages: Seq<JsonView>, message: JsonView)
    requires
        (joins(message) && fresh(messages)) || text_field(message, "role"@) == Some("developer"@),
    ensures
        ({
            let x = turn_of(message);
            &&& x.task == (if text_field(message, "role"@) == Some("tool"@) {
                None
            } else {
                text_field(message, "task"@)
            })
            &&& x.blocks is Some ==> block_texts(x.blocks->0) == seq![spoken(message)]
            &&& x.blocks is None ==> x.content == spoken(message)
        }),
{
    roles_differ();
    empty_is_no_role();
    let x = turn_of(message);
    if x.blocks is Some {
        assert(block_texts(x.blocks->0) =~= seq![spoken(message)]);
    }
}

/// The text of a turn of the user's side that is the last.
proof fn last_turn_text(t: Seq<TurnView>, x: TurnView, said: Seq<char>, k: Mode)
    requires
        t.len() > 0,
        t.last() == x,
        x.role == "user"@ || x.role == "developer"@,
        k.last == t.len() - 1,
        x.blocks is Some ==> block_texts(x.blocks->0) == seq![said],
        x.blocks is None ==> x.content == said,
        x.task is Some ==> names_task(x.task->0),
    ensures
        turn_text(t, t.len() - 1, k) == USER@ + said + ending("user"@, x.task, k.thinking),
{
    roles_differ();
    let n = t.len() - 1;
    assert(t[n] == x);
    if x.task is Some {
        tokens_of_tasks(x.task->0);
    }
    let e = ending("user"@, x.task, k.thinking);
    assert(turn_end(t, n, k) =~= e);
    assert(turn_body(t, n, k) =~= USER@ + said);
}

/// The prompt of a system message alone is the opening, its content, and the section of
/// the tools after an empty line when there are some.
pub proof fn system_alone(message: JsonView, tools: Option<JsonView>, opts: RenderOpts)
    requires
        text_field(message, "role"@) == Some("system"@),
        text_field(message, "task"@) is None,
    ensures
        prompt_text(JsonView::Array(seq![message]), tools, opts) == opening(opts) + content_text(
            member(message, "content"@),
        ) + (if tools is Some && tools->0 is Array && tools->0->Array_0.len() > 0 {
            "\n\n"@ + tools_text(tools->0->Array_0)
        } else {
            Seq::empty()
        }),
{
    roles_differ();
    let one = seq![message];
    let x = turn_of(message);
    assert(one.drop_last() =~= Seq::<JsonView>::empty());
    assert(merged(Seq::<JsonView>::empty()) =~= Seq::<TurnView>::empty());
    assert(merged(one) =~= seq![x]);
    let first = with_system(merged(one));
    assert(first =~= seq![x]);
    assert(ordered(first) =~= seq![x]);
    assert(left_of_first(first, 0, last_user(first)) =~= Seq::<TurnView>::empty());
    let s = shown_turns(JsonView::Array(one), tools, opts);
    assert(s =~= seq![x]);
    let mode = mode_of(s, tools, opts);
    let list = tool_list(tools);
    assert(turns_text(s, 0, mode, list) =~= Seq::<char>::empty());
    assert(turn_text(s, 0, mode) =~= x.content);
    assert(turns_text(s, 1, mode, list) =~= x.content + tools_section(list));
    assert(prompt_text(JsonView::Array(one), tools, opts) =~= opening(opts) + x.content
        + tools_section(list));
}

proof fn results_push(b: Seq<BlockView>, x: BlockView)
    ensures
        results_of(b.push(x)) == (if x is ToolResult {
            results_of(b).push(x)
        } else {
            results_of(b)
        }),
{
    assert(b.push(x).drop_last() =~= b);
}

/// One block more, a text or the first result, at the end of what was put in order.
proof fn ordered_blocks_push(calls: Seq<CallView>, b: Seq<BlockView>, x: BlockView)
    requires
        x is Text || results_of(b).len() == 0,
    ensures
        ordered_blocks(calls, b.push(x)) == ordered_blocks(calls, b).push(x),
{
    results_push(b, x);
    if x is Text && results_of(b).len() > 1 && identified(calls) {
        let r = by_rank(calls, results_of(b));
        assert forall|i: int| 0 <= i <= b.len() implies #[trigger] refilled(b.push(x), r)[i]
            == refilled(b, r).push(x)[i] by {
            assert(b.push(x).take(i) =~= b.take(i));
        }
        assert(refilled(b.push(x), r) =~= refilled(b, r).push(x));
    }
}

/// A message of the user or of a tool that joins the turn before it goes between what the
/// turn says and the ending, after an empty line; whatever the mode. A tool's result may
/// change places with results that the turn has already, so this holds of the first.
#[verifier::rlimit(60)]
#[verifier::spinoff_prover]
pub proof fn user_side_joins(
    messages: Seq<JsonView>,
    message: JsonView,
    tools: Option<JsonView>,
    opts: RenderOpts,
)
    requires
        tasks_fit(messages, tools, opts),
        messages.len() > 0,
        joins(messages.last()),
        joins(message),
        text_field(message, "role"@) == Some("tool"@) || merged(messages).last().task is None,
        text_field(message, "role"@) == Some("tool"@) ==> forall|j: int|
            0 <= j < merged(messages).last().blocks->0.len() ==> #[trigger] merged(
                messages,
            ).last().blocks->0[j] is Text,
    ensures
        prompt_text(JsonView::Array(messages.push(message)), tools, opts) == unended(
            messages,
            tools,
            opts,
        ) + "\n\n"@ + spoken(message) + prompt_ending(messages, tools, opts),
        prompt_ending(messages.push(message), tools, opts) == prompt_ending(messages, tools, opts),
{
    shown_joined(messages, message, tools, opts);
    prompt_parts(messages, tools, opts);
    roles_differ();
    let x = added_block(message);
    let a = shown_turns(JsonView::Array(messages), tools, opts);
    let b = shown_turns(JsonView::Array(messages.push(message)), tools, opts);
    let w = a.drop_last();
    let o = a.last();
    let p = b.last();
    assert(a =~= w.push(o) && b =~= w.push(p));
    let z = w.len() as int;
    assert(last_user(a) == z && last_user(b) == z);
    let mode = mode_of(a, tools, opts);
    assert(mode_of(b, tools, opts) == mode);
    let list = tool_list(tools);
    same_before(w, o, p, z, mode, list);
    assert(a[z] == o && b[z] == p);
    assert(turn_end(a, z, mode) == turn_end(b, z, mode));
    joined_turn_text(a, b, o.blocks->0, x, z, mode);
    let e = prompt_ending(messages, tools, opts);
    let before = turns_text(a, z, mode, list);
    let body = turn_body(a, z, mode);
    let more = "\n\n"@ + block_text(x);
    let q = opening(opts);
    assert(unended(messages, tools, opts) =~= q + (before + body));
    assert(turns_text(b, z + 1, mode, list) =~= before + (body + more) + e);
    assert(q + (before + (body + more) + e) =~= q + (before + body) + "\n\n"@ + block_text(x) + e);
}

proof fn joined_turn_text(
    a: Seq<TurnView>,
    b: Seq<TurnView>,
    blocks: Seq<BlockView>,
    x: BlockView,
    z: int,
    mode: Mode,
)
    requires
        0 <= z < a.len(),
        z < b.len(),
        a[z].role == "user"@,
        b[z].role == "user"@,
        blocks.len() > 0,
        a[z].blocks == Some(blocks),
        b[z].blocks == Some(blocks.push(x)),
    ensures
        turn_body(b, z, mode) == turn_body(a, z, mode) + ("\n\n"@ + block_text(x)),
{
    roles_differ();
    assert(block_texts(blocks.push(x)) =~= block_texts(blocks) + seq![block_text(x)]);
    joined_parts(block_text(x), block_texts(blocks), seq![block_text(x)], "\n\n"@);
    let said = joined(block_texts(blocks), "\n\n"@);
    assert(turn_body(a, z, mode) =~= USER@ + said);
    assert(turn_body(b, z, mode) =~= USER@ + said + ("\n\n"@ + block_text(x)));
}

/// The turns that are shown after a message that joins the last.
#[verifier::rlimit(60)]
#[verifier::spinoff_prover]
proof fn shown_joined(
    messages: Seq<JsonView>,
    message: JsonView,
    tools: Option<JsonView>,
    opts: RenderOpts,
)
    requires
        messages.len() > 0,
        joins(messages.last()),
        joins(message),
        text_field(message, "role"@) == Some("tool"@) || merged(messages).last().task is None,
        text_field(message, "role"@) == Some("tool"@) ==> forall|j: int|
            0 <= j < merged(messages).last().blocks->0.len() ==> #[trigger] merged(
                messages,
            ).last().blocks->0[j] is Text,
    ensures
        ({
            let a = shown_turns(JsonView::Array(messages), tools, opts);
            let b = shown_turns(JsonView::Array(messages.push(message)), tools, opts);
            let o = a.last();
            &&& a.len() > 1
            &&& b.len() == a.len()
            &&& b.drop_last() == a.drop_last()
            &&& o.role == "user"@
            &&& o.blocks is Some && o.blocks->0.len() > 0
            &&& b.last() == TurnView {
                blocks: Some(o.blocks->0.push(added_block(message))),
                ..o
            }
        }),
{
    roles_differ();
    last_turn(messages);
    message_joins_turn(messages, message);
    let turns = merged(messages);
    let x = added_block(message);
    let old = turns.last();
    let new = TurnView { blocks: Some(old.blocks->0.push(x)), ..old };
    let after = turns.drop_last().push(new);
    merged_shape(messages);
    assert(turn_shaped(turns[turns.len() - 1]));
    if x is ToolResult {
        no_results(old.blocks->0);
    }
    let f = with_system(turns);
    let g = with_system(after);
    let front = f.drop_last();
    assert(f =~= front.push(old));
    assert(g =~= front.push(new)) by {
        if turns.len() > 1 {
            assert(after[0] == turns[0]);
        }
    }
    ordered_push(front, old);
    ordered_push(front, new);
    let calls = calls_before(front, front.len() as int);
    ordered_blocks_push(calls, old.blocks->0, x);
    let o = ordered_turn(calls, old);
    let p = ordered_turn(calls, new);
    assert(p == TurnView { blocks: Some(o.blocks->0.push(x)), ..o });
    ordering_keeps_slots(calls, old.blocks->0);
    let s = ordered(f);
    let t = ordered(g);
    let r = ordered(front);
    let n = r.len() as int;
    assert(s == r.push(o) && t == r.push(p));
    assert(s.last() == o && t.last() == p);
    assert(last_user(s) == n && last_user(t) == n);
    left_push(r, o, n, n);
    left_push(r, p, n, n);
    assert(left_of(o, n, n) == Some(o) && left_of(p, n, n) == Some(p));
    assert(s[n] == o && t[n] == p);
    let a = shown_turns(JsonView::Array(messages), tools, opts);
    let b = shown_turns(JsonView::Array(messages.push(message)), tools, opts);
    let w = if opts.thinking && tool_list(tools) is None {
        left_of_first(r, n, n)
    } else {
        r
    };
    assert(a == w.push(o));
    assert(b == w.push(p));
    assert(a.drop_last() =~= w && b.drop_last() =~= w);
    shown_system_first(JsonView::Array(messages), tools, opts);
    assert(a.len() > 1) by {
        if a.len() == 1 {
            assert(a[0] == o);
        }
    }
}

proof fn no_results(b: Seq<BlockView>)
    requires
        forall|j: int| 0 <= j < b.len() ==> #[trigger] b[j] is Text,
    ensures
        results_of(b).len() == 0,
    decreases b.len(),
{
    if b.len() > 0 {
        let front = b.drop_last();
        assert forall|j: int| 0 <= j < front.len() implies #[trigger] front[j] is Text by {
            assert(front[j] == b[j]);
        }
        no_results(front);
        assert(b[b.len() - 1] is Text);
    }
}

proof fn same_before(
    w: Seq<TurnView>,
    o: TurnView,
    p: TurnView,
    n: int,
    mode: Mode,
    list: Option<Seq<JsonView>>,
)
    requires
        0 <= n <= w.len(),
        o.role == p.role,
    ensures
        turns_text(w.push(o), n, mode, list) == turns_text(w.push(p), n, mode, list),
    decreases n,
{
    if n > 0 {
        same_before(w, o, p, n - 1, mode, list);
        let a = w.push(o);
        let b = w.push(p);
        assert(a[n - 1] == w[n - 1] && b[n - 1] == w[n - 1]);
        if n > 1 {
            assert(a[n - 2] == w[n - 2] && b[n - 2] == w[n - 2]);
        }
        if n < w.len() {
            assert(a[n] == w[n] && b[n] == w[n]);
        }
        assert(turn_body(a, n - 1, mode) == turn_body(b, n - 1, mode));
        assert(turn_end(a, n - 1, mode) == turn_end(b, n - 1, mode));
    }
}

} // verus!
