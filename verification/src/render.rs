//! Turns as text, and a list of messages as a prompt.

use vstd::prelude::*;
use crate::dsml::{render_tool_calls, tool_calls_text};
use crate::json::{Json, JsonView, items_of, json_view, opt_json, views};
use crate::markers::{
    ASSISTANT, BOS, EOS, REASONING_EFFORT_MAX, THINK_END, THINK_START, USER, task_sp_token,
    task_token,
};
use crate::merge::{merge_tool_messages, merged};
use crate::options::{ReasoningEffort, RenderOpts};
use crate::order::{ordered, sort_tool_results_by_call_order};
use crate::text::{join, joined, same, texts};
use crate::thinking::{
    drop_thinking_messages, last_user, last_user_index, left_of_first, place, user_role,
    without_thinking,
};
use crate::tools::{render_tools, tool_list, tools_text};
use crate::turns::{Block, BlockView, MergedMsg, TurnView, block_views, plain_turn, turn_views};

verus! {

/// A block as text: a text as it is, a tool result in its tags.
pub open spec fn block_text(block: BlockView) -> Seq<char> {
    match block {
        BlockView::Text(t) => t,
        BlockView::ToolResult { content, tool_use_id } => "<tool_result>"@ + content
            + "</tool_result>"@,
    }
}

/// The texts of several blocks.
pub open spec fn block_texts(blocks: Seq<BlockView>) -> Seq<Seq<char>> {
    blocks.map_values(|b: BlockView| block_text(b))
}

/// How the turns of one prompt are rendered.
pub struct Mode {
    /// Thinking mode.
    pub thinking: bool,
    /// Does the thinking before the last user turn stay out?
    pub dropping: bool,
    /// The place of the last user turn, -1 when there is none.
    pub last: int,
}

/// Does the turn before `i` carry a task?
pub open spec fn after_task(turns: Seq<TurnView>, i: int) -> bool {
    i > 0 && turns[i - 1].task is Some
}

/// Is the thinking of assistant turn `i` part of the prompt? In thinking mode alone,
/// never for the output of a task, and before the last user turn only when none is
/// dropped.
pub open spec fn shows_thinking(turns: Seq<TurnView>, i: int, mode: Mode) -> bool {
    mode.thinking && !after_task(turns, i) && (!mode.dropping || i > mode.last)
}

/// Turn `i` without what leads over to the next.
pub open spec fn turn_body(turns: Seq<TurnView>, i: int, mode: Mode) -> Seq<char> {
    let turn = turns[i];
    if turn.role == "system"@ {
        turn.content
    } else if user_role(turn.role) {
        USER@ + match turn.blocks {
            Some(blocks) => joined(block_texts(blocks), "\n\n"@),
            None => turn.content,
        }
    } else if turn.role == "assistant"@ {
        (if shows_thinking(turns, i, mode) {
            turn.reasoning_content + THINK_END@
        } else {
            Seq::empty()
        }) + turn.content + (if turn.tool_calls.len() > 0 {
            "\n\n"@ + tool_calls_text(turn.tool_calls)
        } else {
            Seq::empty()
        }) + EOS@
    } else {
        turn.content
    }
}

/// Does turn `i` lead over to what follows? The last turn does, and one before an
/// assistant turn or a reminder.
pub open spec fn leads_over(turns: Seq<TurnView>, i: int) -> bool {
    i + 1 >= turns.len() || turns[i + 1].role == "assistant"@ || turns[i + 1].role
        == "latest_reminder"@
}

/// The token that opens the assistant's side.
pub open spec fn think_token(opens: bool) -> Seq<char> {
    if opens {
        THINK_START@
    } else {
        THINK_END@
    }
}

/// What leads over from turn `i`: the token of its task, after the opening of an
/// assistant turn when the task is `action`; the opening of an assistant turn after a
/// user turn without a task; else nothing.
pub open spec fn turn_end(turns: Seq<TurnView>, i: int, mode: Mode) -> Seq<char> {
    let turn = turns[i];
    if !leads_over(turns, i) {
        Seq::empty()
    } else {
        match turn.task {
            Some(task) => if task == "action"@ {
                ASSISTANT@ + think_token(mode.thinking) + task_token(task)->0
            } else {
                task_token(task)->0
            },
            None => if user_role(turn.role) {
                ASSISTANT@ + think_token(mode.thinking && (!mode.dropping || i >= mode.last))
            } else {
                Seq::empty()
            },
        }
    }
}

/// Turn `i` as text.
pub open spec fn turn_text(turns: Seq<TurnView>, i: int, mode: Mode) -> Seq<char> {
    turn_body(turns, i, mode) + turn_end(turns, i, mode)
}

/// The tools section where it stands, after the first turn.
pub open spec fn tools_section(tools: Option<Seq<JsonView>>) -> Seq<char> {
    match tools {
        Some(list) => "\n\n"@ + tools_text(list),
        None => Seq::empty(),
    }
}

/// The first `n` turns as text, with the tools section after the first of them.
pub open spec fn turns_text(
    turns: Seq<TurnView>,
    n: int,
    mode: Mode,
    tools: Option<Seq<JsonView>>,
) -> Seq<char>
    decreases n,
{
    if n <= 0 {
        Seq::empty()
    } else {
        turns_text(turns, n - 1, mode, tools) + turn_text(turns, n - 1, mode) + (if n == 1 {
            tools_section(tools)
        } else {
            Seq::empty()
        })
    }
}

/// The turns with a system turn first: an empty one unless there is one.
pub open spec fn with_system(turns: Seq<TurnView>) -> Seq<TurnView> {
    if turns.len() > 0 && turns[0].role == "system"@ {
        turns
    } else {
        seq![plain_turn("system"@)] + turns
    }
}

/// Is the thinking before the last user turn left out? In thinking mode without tools.
pub open spec fn drops_thinking(tools: Option<JsonView>, opts: RenderOpts) -> bool {
    opts.thinking && tool_list(tools) is None
}

/// The turns that a prompt shows.
pub open spec fn shown_turns(
    messages: JsonView,
    tools: Option<JsonView>,
    opts: RenderOpts,
) -> Seq<TurnView> {
    let turns = ordered(with_system(merged(items_of(messages))));
    if drops_thinking(tools, opts) {
        without_thinking(turns)
    } else {
        turns
    }
}

/// The mode in which a prompt shows its turns.
pub open spec fn mode_of(turns: Seq<TurnView>, tools: Option<JsonView>, opts: RenderOpts) -> Mode {
    Mode {
        thinking: opts.thinking,
        dropping: tool_list(tools) is None,
        last: last_user(turns),
    }
}

/// What stands before the first turn.
pub open spec fn opening(opts: RenderOpts) -> Seq<char> {
    if opts.thinking && opts.reasoning_effort is Max {
        BOS@ + REASONING_EFFORT_MAX@
    } else {
        BOS@
    }
}

/// The prompt that shows `turns`.
pub open spec fn prompt_of(
    turns: Seq<TurnView>,
    tools: Option<JsonView>,
    opts: RenderOpts,
) -> Seq<char> {
    opening(opts) + turns_text(
        turns,
        turns.len() as int,
        mode_of(turns, tools, opts),
        tool_list(tools),
    )
}

/// The prompt of a list of messages; of a value that is no array, the
/// beginning-of-sequence marker alone.
pub open spec fn prompt_text(
    messages: JsonView,
    tools: Option<JsonView>,
    opts: RenderOpts,
) -> Seq<char> {
    if messages is Array {
        prompt_of(shown_turns(messages, tools, opts), tools, opts)
    } else {
        BOS@
    }
}

/// Is the task of turn `i`, if it carries one and leads over, a valid one?
pub open spec fn task_known(turns: Seq<TurnView>, i: int) -> bool {
    leads_over(turns, i) && turns[i].task is Some ==> task_token(turns[i].task->0) is Some
}

/// Is the task of each turn that leads over a valid one?
pub open spec fn tasks_known(turns: Seq<TurnView>) -> bool {
    forall|i: int| 0 <= i < turns.len() ==> #[trigger] task_known(turns, i)
}

/// A block as text.
pub fn render_block(b: &Block) -> (r: String)
    ensures
        r@ == block_text(b@),
{
    match b {
        Block::Text(t) => t.clone(),
        Block::ToolResult { content, .. } => {
            let mut out = "<tool_result>".to_owned();
            out.append(content.as_str());
            out.append("</tool_result>");
            out
        },
    }
}

/// The blocks of a user turn, an empty line between them.
fn render_blocks(blocks: &Vec<Block>) -> (r: String)
    ensures
        r@ == joined(block_texts(block_views(blocks@)), "\n\n"@),
{
    let ghost all = block_views(blocks@);
    let mut parts: Vec<String> = Vec::new();
    let mut i: usize = 0;
    while i < blocks.len()
        invariant
            i <= blocks@.len(),
            all == block_views(blocks@),
            texts(parts@) == block_texts(all.take(i as int)),
        decreases blocks@.len() - i,
    {
        let part = render_block(&blocks[i]);
        let ghost before = parts@;
        parts.push(part);
        proof {
            assert(all[i as int] == blocks@[i as int]@);
            assert(texts(parts@) =~= texts(before).push(part@));
            assert(block_texts(all.take(i + 1)) =~= block_texts(all.take(i as int)).push(part@));
        }
        i = i + 1;
    }
    proof {
        assert(all.take(i as int) =~= all);
    }
    join(&parts, "\n\n")
}

/// The places and flags by which turns are rendered.
struct Walk {
    thinking: bool,
    dropping: bool,
    last: Option<usize>,
}

impl Walk {
    spec fn mode(self) -> Mode {
        Mode { thinking: self.thinking, dropping: self.dropping, last: place(self.last) }
    }
}

/// Writes turn `i` without what leads over to the next.
fn render_body(i: usize, turns: &Vec<MergedMsg>, out: &mut String, walk: &Walk)
    requires
        i < turns@.len(),
    ensures
        final(out)@ == old(out)@ + turn_body(turn_views(turns@), i as int, walk.mode()),
{
    let ghost all = turn_views(turns@);
    let ghost start = out@;
    let m = &turns[i];
    proof {
        assert(all[i as int] == m@);
        if i > 0 {
            assert(all[i - 1] == turns@[i - 1]@);
        }
    }
    let role = m.role.as_str();
    if same(role, "system") {
        out.append(m.content.as_str());
    } else if same(role, "user") || same(role, "developer") {
        out.append(USER);
        match &m.blocks {
            Some(blocks) => out.append(render_blocks(blocks).as_str()),
            None => out.append(m.content.as_str()),
        }
        proof {
            assert(out@ =~= start + turn_body(all, i as int, walk.mode()));
        }
    } else if same(role, "assistant") {
        let prev_has_task = i > 0 && turns[i - 1].task.is_some();
        let after_last_user = match walk.last {
            Some(l) => i > l,
            None => true,
        };
        if walk.thinking && !prev_has_task && (!walk.dropping || after_last_user) {
            out.append(m.reasoning_content.as_str());
            out.append(THINK_END);
        }
        out.append(m.content.as_str());
        if m.tool_calls.len() > 0 {
            out.append("\n\n");
            out.append(render_tool_calls(&m.tool_calls).as_str());
        }
        out.append(EOS);
        proof {
            assert(out@ =~= start + turn_body(all, i as int, walk.mode()));
        }
    } else {
        out.append(m.content.as_str());
    }
}

/// Writes what leads over from turn `i`.
fn render_end(i: usize, turns: &Vec<MergedMsg>, out: &mut String, walk: &Walk)
    requires
        i < turns@.len(),
        task_known(turn_views(turns@), i as int),
    ensures
        final(out)@ == old(out)@ + turn_end(turn_views(turns@), i as int, walk.mode()),
{
    let ghost all = turn_views(turns@);
    let ghost start = out@;
    let m = &turns[i];
    proof {
        assert(all[i as int] == m@);
        if i + 1 < turns@.len() {
            assert(all[i + 1] == turns@[i + 1]@);
        }
    }
    let leads = if i < turns.len() - 1 {
        same(turns[i + 1].role.as_str(), "assistant") || same(
            turns[i + 1].role.as_str(),
            "latest_reminder",
        )
    } else {
        true
    };
    if leads {
        if let Some(task) = &m.task {
            let token = task_sp_token(task.as_str());
            proof {
                assert(m@.task == Some(task@));
                assert(all[i as int].task is Some && leads_over(all, i as int));
            }
            let sp = token.unwrap();
            if same(task.as_str(), "action") {
                out.append(ASSISTANT);
                if walk.thinking {
                    out.append(THINK_START);
                } else {
                    out.append(THINK_END);
                }
            }
            out.append(sp);
        } else if same(m.role.as_str(), "user") || same(m.role.as_str(), "developer") {
            out.append(ASSISTANT);
            let current = match walk.last {
                Some(l) => i >= l,
                None => true,
            };
            if walk.thinking && (!walk.dropping || current) {
                out.append(THINK_START);
            } else {
                out.append(THINK_END);
            }
        }
    }
    proof {
        assert(out@ =~= start + turn_end(all, i as int, walk.mode()));
    }
}

/// Writes turn `i`.
fn render_one(i: usize, turns: &Vec<MergedMsg>, out: &mut String, walk: &Walk)
    requires
        i < turns@.len(),
        task_known(turn_views(turns@), i as int),
    ensures
        final(out)@ == old(out)@ + turn_text(turn_views(turns@), i as int, walk.mode()),
{
    let ghost start = out@;
    render_body(i, turns, out, walk);
    render_end(i, turns, out, walk);
    proof {
        assert(out@ =~= start + turn_text(turn_views(turns@), i as int, walk.mode()));
    }
}

/// The turns that a prompt shows.
fn show_turns(messages: &Json, tools: Option<&Json>, opts: RenderOpts) -> (r: Vec<MergedMsg>)
    ensures
        turn_views(r@) == shown_turns(messages@, opt_json(tools), opts),
{
    broadcast use json_view;

    let mut turns = match messages {
        Json::Array(raw) => merge_tool_messages(raw),
        _ => {
            let none: Vec<Json> = Vec::new();
            proof {
                assert(views(none@) =~= Seq::<JsonView>::empty());
            }
            merge_tool_messages(&none)
        },
    };
    let ghost plain = turn_views(turns@);
    let has_system = turns.len() > 0 && same(turns[0].role.as_str(), "system");
    if !has_system {
        let system = MergedMsg::plain("system");
        turns.insert(0, system);
        proof {
            assert(turn_views(turns@) =~= seq![system@] + plain);
        }
    }
    sort_tool_results_by_call_order(&mut turns);
    if opts.thinking && listed_tools(tools).is_none() {
        turns = drop_thinking_messages(turns);
    }
    turns
}

/// The tools that count.
fn listed_tools(tools: Option<&Json>) -> (r: Option<&Vec<Json>>)
    ensures
        tool_list(opt_json(tools)) == (match r {
            Some(list) => Some(views(list@)),
            None => None,
        }),
{
    broadcast use json_view;

    match tools {
        Some(Json::Array(list)) => if list.len() > 0 {
            Some(list)
        } else {
            None
        },
        _ => None,
    }
}

/// The prompt that shows `turns`.
fn render_turns(turns: &Vec<MergedMsg>, tools: Option<&Json>, opts: RenderOpts) -> (r: String)
    requires
        tasks_known(turn_views(turns@)),
    ensures
        r@ == prompt_of(turn_views(turns@), opt_json(tools), opts),
{
    let list = listed_tools(tools);
    let walk = Walk {
        thinking: opts.thinking,
        dropping: list.is_none(),
        last: last_user_index(turns),
    };
    let ghost shown = turn_views(turns@);
    let ghost section = tool_list(opt_json(tools));
    let mut out = BOS.to_owned();
    if opts.thinking && opts.reasoning_effort == ReasoningEffort::Max {
        out.append(REASONING_EFFORT_MAX);
    }
    let mut i: usize = 0;
    proof {
        assert(out@ =~= opening(opts) + turns_text(shown, 0, walk.mode(), section));
    }
    while i < turns.len()
        invariant
            i <= turns@.len(),
            shown == turn_views(turns@),
            tasks_known(shown),
            section == (match list {
                Some(l) => Some(views(l@)),
                None => None,
            }),
            out@ == opening(opts) + turns_text(shown, i as int, walk.mode(), section),
        decreases turns@.len() - i,
    {
        proof {
            assert(task_known(shown, i as int));
        }
        render_one(i, turns, &mut out, &walk);
        if i == 0 {
            if let Some(l) = list {
                out.append("\n\n");
                out.append(render_tools(l).as_str());
            }
        }
        proof {
            assert(out@ =~= opening(opts) + turns_text(shown, i + 1, walk.mode(), section));
        }
        i = i + 1;
    }
    out
}

/// Is the task of each turn that leads over a valid one?
fn all_tasks_known(turns: &Vec<MergedMsg>) -> (r: bool)
    ensures
        r == tasks_known(turn_views(turns@)),
{
    let ghost all = turn_views(turns@);
    let mut i: usize = 0;
    while i < turns.len()
        invariant
            i <= turns@.len(),
            all == turn_views(turns@),
            forall|j: int| 0 <= j < i ==> #[trigger] task_known(all, j),
        decreases turns@.len() - i,
    {
        proof {
            assert(all[i as int] == turns@[i as int]@);
            if i + 1 < turns@.len() {
                assert(all[i + 1] == turns@[i + 1]@);
            }
        }
        if let Some(task) = &turns[i].task {
            let leads = i == turns.len() - 1 || same(turns[i + 1].role.as_str(), "assistant")
                || same(turns[i + 1].role.as_str(), "latest_reminder");
            if leads && task_sp_token(task.as_str()).is_none() {
                assert(!task_known(all, i as int));
                return false;
            }
        }
        i = i + 1;
    }
    true
}

/// Without messages a prompt shows an empty system turn alone.
pub proof fn no_messages_shown(messages: JsonView, tools: Option<JsonView>, opts: RenderOpts)
    requires
        items_of(messages).len() == 0,
    ensures
        shown_turns(messages, tools, opts) == seq![plain_turn("system"@)],
        tasks_known(shown_turns(messages, tools, opts)),
{
    let system = plain_turn("system"@);
    assert(merged(items_of(messages)) =~= Seq::<TurnView>::empty());
    let first = with_system(merged(items_of(messages)));
    assert(first =~= seq![system]);
    assert(ordered(first) =~= seq![system]);
    assert(left_of_first(first, 0, last_user(first)) =~= Seq::<TurnView>::empty());
    assert(shown_turns(messages, tools, opts) =~= seq![system]);
}

/// Is this an array?
fn is_array(v: &Json) -> (r: bool)
    ensures
        r == (v@ is Array),
{
    broadcast use json_view;

    matches!(v, Json::Array(_))
}

/// The prompt of a list of messages. Of `messages` that are no array it is the
/// beginning-of-sequence marker alone. `tools` that are no array, or an empty one, hold
/// no tool. The tasks that the prompt shows must be valid ones.
pub fn render_messages(messages: &Json, tools: Option<&Json>, opts: RenderOpts) -> (r: String)
    requires
        tasks_known(shown_turns(messages@, opt_json(tools), opts)),
    ensures
        r@ == prompt_text(messages@, opt_json(tools), opts),
        !(messages@ is Array) ==> r@ == BOS@,
{
    if !is_array(messages) {
        return BOS.to_owned();
    }
    let turns = show_turns(messages, tools, opts);
    render_turns(&turns, tools, opts)
}

/// The prompt of a list of messages, or `None` when it would show a task that is not
/// valid.
pub fn try_render_messages(messages: &Json, tools: Option<&Json>, opts: RenderOpts) -> (r: Option<
    String,
>)
    ensures
        r is Some <==> tasks_known(shown_turns(messages@, opt_json(tools), opts)),
        r is Some ==> r->0@ == prompt_text(messages@, opt_json(tools), opts),
        !(messages@ is Array) ==> r is Some && r->0@ == BOS@,
{
    if !is_array(messages) {
        proof {
            no_messages_shown(messages@, opt_json(tools), opts);
        }
        return Some(BOS.to_owned());
    }
    let turns = show_turns(messages, tools, opts);
    if all_tasks_known(&turns) {
        Some(render_turns(&turns, tools, opts))
    } else {
        None
    }
}

} // verus!
