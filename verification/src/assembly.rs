//! A whole prompt from its turns: what each turn shows, in every mode.

use vstd::prelude::*;
use crate::conversation::{answer_opening, drops_nothing, names_task, tokens_of_tasks};
use crate::dsml::tool_calls_text;
use crate::json::JsonView;
use crate::layout_laws::joined_parts;
use crate::markers::{EOS, REASONING_EFFORT_MAX, THINK_END, USER};
use crate::merge::merged;
use crate::merge_laws::last_of_users;
use crate::options::RenderOpts;
use crate::order::ordered;
use crate::prompt_laws::shown_system_first;
use crate::render::{
    Mode, block_texts, mode_of, opening, prompt_text, shown_turns, tools_section, turn_body,
    turn_end, turns_text,
};
use crate::request_outcomes::start;
use crate::text::joined;
use crate::thinking::{last_user, last_user_is_last, user_role, without_thinking};
use crate::tools::tool_list;
use crate::turns::{BlockView, TurnView, roles_differ};

verus! {

/// The text of the highest effort's preamble.
pub proof fn preamble_text()
    ensures
        REASONING_EFFORT_MAX@ == "Reasoning Effort: Absolute maximum with no shortcuts permitted.\nYou MUST be very thorough in your thinking and comprehensively decompose the problem to resolve the root cause, rigorously stress-testing your logic against all potential paths, edge cases, and adversarial scenarios.\nExplicitly write out your entire deliberation process, documenting every intermediate step, considered alternative, and rejected hypothesis to ensure absolutely no assumption is left unchecked.\n\n"@,
{
}

/// What one block says: a text itself, a result in its tags.
pub open spec fn block_says(block: BlockView) -> Seq<char> {
    match block {
        BlockView::Text(text) => text,
        BlockView::ToolResult { content, tool_use_id } => "<tool_result>"@ + content
            + "</tool_result>"@,
    }
}

/// What blocks say, an empty line between each two.
pub open spec fn blocks_say(blocks: Seq<BlockView>) -> Seq<char>
    decreases blocks.len(),
{
    if blocks.len() == 0 {
        Seq::empty()
    } else if blocks.len() == 1 {
        block_says(blocks[0])
    } else {
        blocks_say(blocks.drop_last()) + "\n\n"@ + block_says(blocks.last())
    }
}

proof fn blocks_joined(blocks: Seq<BlockView>)
    ensures
        joined(block_texts(blocks), "\n\n"@) == blocks_say(blocks),
    decreases blocks.len(),
{
    let texts = block_texts(blocks);
    if blocks.len() == 0 {
        assert(texts =~= Seq::<Seq<char>>::empty());
    } else if blocks.len() == 1 {
        assert(texts =~= seq![block_says(blocks[0])]);
    } else {
        let front = blocks.drop_last();
        let last = block_says(blocks.last());
        blocks_joined(front);
        assert(texts =~= block_texts(front) + seq![last]);
        joined_parts(last, block_texts(front), seq![last], "\n\n"@);
    }
}

/// What turn `i` says, where turn `last` is the last of the user's side. The assistant's
/// thinking is there in thinking mode, unless a task was asked before, or it is dropped.
pub open spec fn says(
    turns: Seq<TurnView>,
    i: int,
    thinking: bool,
    dropping: bool,
    last: int,
) -> Seq<char> {
    let turn = turns[i];
    if turn.role == "assistant"@ {
        let asked = i > 0 && turns[i - 1].task is Some;
        let thought = if thinking && !asked && (i > last || !dropping) {
            turn.reasoning_content + THINK_END@
        } else {
            Seq::empty()
        };
        let block = if turn.tool_calls.len() == 0 {
            Seq::empty()
        } else {
            "\n\n"@ + tool_calls_text(turn.tool_calls)
        };
        thought + turn.content + block + EOS@
    } else if turn.role == "user"@ || turn.role == "developer"@ {
        match turn.blocks {
            None => USER@ + turn.content,
            Some(blocks) => USER@ + blocks_say(blocks),
        }
    } else {
        turn.content
    }
}

/// What leads over from turn `i`: nothing, unless it is the last turn or an assistant's or
/// a reminder comes next.
pub open spec fn leads(
    turns: Seq<TurnView>,
    i: int,
    thinking: bool,
    dropping: bool,
    last: int,
) -> Seq<char> {
    let turn = turns[i];
    let open = i == turns.len() - 1 || turns[i + 1].role == "assistant"@ || turns[i + 1].role
        == "latest_reminder"@;
    if !open {
        Seq::empty()
    } else if turn.task is Some {
        let token = "<｜"@ + turn.task->0 + "｜>"@;
        if turn.task->0 == "action"@ {
            answer_opening(thinking) + token
        } else {
            token
        }
    } else if turn.role == "user"@ || turn.role == "developer"@ {
        answer_opening(thinking && (i >= last || !dropping))
    } else {
        Seq::empty()
    }
}

/// The first `n` turns one after the other.
pub open spec fn spoken_turns(
    turns: Seq<TurnView>,
    n: int,
    thinking: bool,
    dropping: bool,
    last: int,
) -> Seq<char>
    decreases n,
{
    if n <= 1 {
        Seq::empty()
    } else {
        spoken_turns(turns, n - 1, thinking, dropping, last) + says(
            turns,
            n - 1,
            thinking,
            dropping,
            last,
        ) + leads(turns, n - 1, thinking, dropping, last)
    }
}

proof fn turn_agrees(turns: Seq<TurnView>, i: int, mode: Mode)
    requires
        0 <= i < turns.len(),
        turns[i].task is Some ==> names_task(turns[i].task->0),
    ensures
        turn_body(turns, i, mode) == says(turns, i, mode.thinking, mode.dropping, mode.last),
        turn_end(turns, i, mode) == leads(turns, i, mode.thinking, mode.dropping, mode.last),
{
    roles_differ();
    if turns[i].task is Some {
        tokens_of_tasks(turns[i].task->0);
    }
    if turns[i].blocks is Some {
        blocks_joined(turns[i].blocks->0);
    }
    assert(turn_end(turns, i, mode) =~= leads(
        turns,
        i,
        mode.thinking,
        mode.dropping,
        mode.last,
    ));
    assert(turn_body(turns, i, mode) =~= says(turns, i, mode.thinking, mode.dropping, mode.last));
}

#[verifier::rlimit(60)]
proof fn turns_assembled(
    turns: Seq<TurnView>,
    n: int,
    mode: Mode,
    list: Option<Seq<JsonView>>,
)
    requires
        1 <= n <= turns.len(),
        forall|i: int|
            0 <= i < turns.len() && (#[trigger] turns[i]).task is Some ==> names_task(
                turns[i].task->0,
            ),
    ensures
        turns_text(turns, n, mode, list) == says(
            turns,
            0,
            mode.thinking,
            mode.dropping,
            mode.last,
        ) + leads(turns, 0, mode.thinking, mode.dropping, mode.last) + tools_section(list)
            + spoken_turns(turns, n, mode.thinking, mode.dropping, mode.last),
    decreases n,
{
    assert(turns[n - 1].task is Some ==> names_task(turns[n - 1].task->0));
    turn_agrees(turns, n - 1, mode);
    let head = says(turns, 0, mode.thinking, mode.dropping, mode.last) + leads(
        turns,
        0,
        mode.thinking,
        mode.dropping,
        mode.last,
    ) + tools_section(list);
    let rest = spoken_turns(turns, n, mode.thinking, mode.dropping, mode.last);
    if n == 1 {
        assert(turns_text(turns, 0, mode, list) =~= Seq::<char>::empty());
        assert(turns_text(turns, n, mode, list) =~= head + rest);
    } else {
        turns_assembled(turns, n - 1, mode, list);
        assert(turns_text(turns, n, mode, list) =~= head + rest);
    }
}

/// The prompt of a list of messages: the marker and the preamble, what the first turn says,
/// the section of the tools, and then what each further turn says and what leads over from
/// it. The thinking before the last turn of the user's side, and the opening of an answer
/// that thinks, are dropped where there are no tools.
#[verifier::rlimit(60)]
#[verifier::spinoff_prover]
pub proof fn prompt_assembled(
    messages: Seq<JsonView>,
    tools: Option<JsonView>,
    opts: RenderOpts,
    last: int,
)
    requires
        ({
            let turns = shown_turns(JsonView::Array(messages), tools, opts);
            &&& forall|i: int|
                0 <= i < turns.len() && (#[trigger] turns[i]).task is Some ==> names_task(
                    turns[i].task->0,
                )
            &&& last_of_users(turns, last) || (last == -1 && forall|i: int|
                0 <= i < turns.len() ==> (#[trigger] turns[i]).role != "user"@ && turns[i].role
                    != "developer"@)
        }),
    ensures
        ({
            let turns = shown_turns(JsonView::Array(messages), tools, opts);
            let counted = tools is Some && tools->0 is Array && tools->0->Array_0.len() > 0;
            let first = says(turns, 0, opts.thinking, !counted, last) + leads(
                turns,
                0,
                opts.thinking,
                !counted,
                last,
            );
            &&& turns.len() > 0
            &&& prompt_text(JsonView::Array(messages), tools, opts) == start(first, tools, opts)
                + spoken_turns(turns, turns.len() as int, opts.thinking, !counted, last)
        }),
{
    let m = JsonView::Array(messages);
    let turns = shown_turns(m, tools, opts);
    let mode = mode_of(turns, tools, opts);
    let list = tool_list(tools);
    shown_system_first(m, tools, opts);
    last_user_is_last(turns);
    assert(mode.last == last) by {
        let l = last_user(turns);
        if l >= 0 {
            assert(user_role(turns[l].role));
        }
        if last >= 0 && l < last {
            assert(!user_role(turns[last].role));
        }
    }
    let n = turns.len() as int;
    turns_assembled(turns, n, mode, list);
    let first = says(turns, 0, mode.thinking, mode.dropping, mode.last) + leads(
        turns,
        0,
        mode.thinking,
        mode.dropping,
        mode.last,
    );
    let rest = spoken_turns(turns, n, mode.thinking, mode.dropping, mode.last);
    assert(opening(opts) + (first + tools_section(list) + rest) =~= start(first, tools, opts)
        + rest);
}

/// The turns that a prompt shows: the merged ones, after an empty system turn unless they
/// begin with a system turn, with their tool results in order; in thinking mode without
/// tools less what is dropped.
pub proof fn shown_by_mode(messages: Seq<JsonView>, tools: Option<JsonView>, opts: RenderOpts)
    ensures
        ({
            let turns = merged(messages);
            let system = TurnView {
                role: "system"@,
                content: Seq::empty(),
                tool_calls: Seq::empty(),
                blocks: None,
                reasoning_content: Seq::empty(),
                task: None,
            };
            let all = if turns.len() > 0 && turns[0].role == "system"@ {
                turns
            } else {
                seq![system] + turns
            };
            shown_turns(JsonView::Array(messages), tools, opts) == (if drops_nothing(tools, opts) {
                ordered(all)
            } else {
                without_thinking(ordered(all))
            })
        }),
{
}

} // verus!
