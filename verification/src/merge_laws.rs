//! Which turn a message becomes or joins, and which turns are left of a conversation
//! whose earlier thinking is dropped.

use vstd::prelude::*;
use crate::json::{JsonView, member, text_field};
use crate::merge::{calls_of, content_text, merged, takes_tool, tool_text, turn_of};
use crate::thinking::{
    dropping_needs_user, last_user, last_user_is_last, left_of, left_of_first, user_role, without_thinking,
};
use crate::turns::{BlockView, CallView, TurnView, roles_differ};

verus! {

/// The text of a member, empty when there is none.
pub open spec fn text_or_nothing(message: JsonView, key: Seq<char>) -> Seq<char> {
    match text_field(message, key) {
        Some(t) => t,
        None => Seq::empty(),
    }
}

/// Is this a message of the user or of a tool?
pub open spec fn joins(message: JsonView) -> bool {
    text_field(message, "role"@) == Some("user"@) || text_field(message, "role"@) == Some("tool"@)
}

/// Can a message of the user or of a tool not join what stands before it?
pub open spec fn fresh(messages: Seq<JsonView>) -> bool {
    messages.len() == 0 || !joins(messages.last())
}

/// What a message of the user or of a tool adds to its turn: the text of its content, or
/// the text of the result with the identifier of the call.
pub open spec fn added_block(message: JsonView) -> BlockView {
    if text_field(message, "role"@) == Some("tool"@) {
        BlockView::ToolResult {
            content: tool_text(member(message, "content"@)),
            tool_use_id: text_or_nothing(message, "tool_call_id"@),
        }
    } else {
        BlockView::Text(content_text(member(message, "content"@)))
    }
}

pub(crate) proof fn last_turn(messages: Seq<JsonView>)
    requires
        messages.len() > 0,
    ensures
        merged(messages).len() > 0,
        joins(messages.last()) <==> merged(messages).last().role == "user"@,
        joins(messages.last()) <==> takes_tool(merged(messages)),
{
    roles_differ();
    empty_is_no_role();
}

pub(crate) proof fn empty_is_no_role()
    ensures
        Seq::<char>::empty() != "user"@,
        Seq::<char>::empty() != "tool"@,
        Seq::<char>::empty() != "assistant"@,
        Seq::<char>::empty() != "system"@,
{
    reveal_strlit("user");
    reveal_strlit("tool");
    reveal_strlit("assistant");
    reveal_strlit("system");
    assert("user"@.len() == 4 && "tool"@.len() == 4 && "assistant"@.len() == 9 && "system"@.len()
        == 6);
}

/// A message opens a turn at the end when it is neither the user's nor a tool's, or when
/// the message before it is neither. The turn has the role of the message, the user's for a
/// tool; its content as text, except for a tool; one block when it is the user's or a
/// tool's; the tool calls and the thinking of an assistant; and the task, except for a tool.
pub proof fn message_opens_turn(messages: Seq<JsonView>, message: JsonView)
    requires
        !joins(message) || fresh(messages),
    ensures
        ({
            let turns = merged(messages.push(message));
            let turn = turns.last();
            let role = text_or_nothing(message, "role"@);
            &&& turns.len() == merged(messages).len() + 1
            &&& turns.drop_last() == merged(messages)
            &&& turn.role == (if role == "tool"@ { "user"@ } else { role })
            &&& role != "tool"@ ==> turn.content == content_text(member(message, "content"@))
            &&& turn.blocks == (if joins(message) {
                Some(seq![added_block(message)])
            } else {
                None
            })
            &&& turn.tool_calls == (if role == "assistant"@ {
                calls_of(member(message, "tool_calls"@))
            } else {
                Seq::<CallView>::empty()
            })
            &&& turn.reasoning_content == (if role == "assistant"@ {
                text_or_nothing(message, "reasoning_content"@)
            } else {
                Seq::<char>::empty()
            })
            &&& turn.task == (if role == "tool"@ {
                None
            } else {
                text_field(message, "task"@)
            })
        }),
{
    roles_differ();
    empty_is_no_role();
    if messages.len() > 0 {
        last_turn(messages);
    } else {
        assert(merged(messages) =~= Seq::<TurnView>::empty());
    }
    assert(messages.push(message).drop_last() =~= messages);
    assert(merged(messages.push(message)) == merged(messages).push(turn_of(message)));
    assert(merged(messages).push(turn_of(message)).drop_last() =~= merged(messages));
}

/// A tool message joins the turn of the user's or tool's message before it, and so does a
/// user message unless that turn carries a task: the turn gets one block more and is else
/// as it was.
pub proof fn message_joins_turn(messages: Seq<JsonView>, message: JsonView)
    requires
        messages.len() > 0,
        joins(messages.last()),
        joins(message),
        text_field(message, "role"@) == Some("tool"@) || merged(messages).last().task is None,
    ensures
        merged(messages).last().blocks is Some,
        merged(messages.push(message)) == merged(messages).drop_last().push(
            TurnView {
                blocks: Some(merged(messages).last().blocks->0.push(added_block(message))),
                ..merged(messages).last()
            },
        ),
{
    roles_differ();
    last_turn(messages);
    assert(messages.push(message).drop_last() =~= messages);
}

/// A user message after a turn that carries a task opens a turn of its own.
pub proof fn task_ends_turn(messages: Seq<JsonView>, message: JsonView)
    requires
        messages.len() > 0,
        merged(messages).last().task is Some,
        text_field(message, "role"@) == Some("user"@),
    ensures
        merged(messages.push(message)) == merged(messages) + merged(seq![message]),
{
    roles_differ();
    assert(messages.push(message).drop_last() =~= messages);
    assert(seq![message].drop_last() =~= Seq::<JsonView>::empty());
    assert(merged(Seq::<JsonView>::empty()) =~= Seq::<TurnView>::empty());
    assert(merged(seq![message]) =~= seq![turn_of(message)]);
    assert(merged(messages.push(message)) =~= merged(messages) + merged(seq![message]));
}

/// Do turns of this role stay, as they are, before the last turn of the user's side?
pub open spec fn stays(role: Seq<char>) -> bool {
    role == "user"@ || role == "system"@ || role == "tool"@ || role == "latest_reminder"@ || role
        == "direct_search_results"@
}

/// Is turn `l` the last one of a user or developer?
pub open spec fn last_of_users(turns: Seq<TurnView>, l: int) -> bool {
    &&& 0 <= l < turns.len()
    &&& turns[l].role == "user"@ || turns[l].role == "developer"@
    &&& forall|i: int|
        l < i < turns.len() ==> (#[trigger] turns[i]).role != "user"@ && turns[i].role
            != "developer"@
}

proof fn last_found(turns: Seq<TurnView>, l: int)
    requires
        last_of_users(turns, l),
    ensures
        last_user(turns) == l,
{
    last_user_is_last(turns);
    if last_user(turns) < l {
        assert(!user_role(turns[l].role));
    }
    if last_user(turns) > l {
        assert(user_role(turns[last_user(turns)].role));
    }
}

proof fn kept_one_by_one(turns: Seq<TurnView>, n: int, l: int)
    requires
        0 <= n <= turns.len(),
        forall|j: int|
            0 <= j < l && j < n ==> stays((#[trigger] turns[j]).role) || turns[j].role
                == "assistant"@,
    ensures
        left_of_first(turns, n, l).len() == n,
        forall|j: int|
            #![trigger left_of_first(turns, n, l)[j]]
            0 <= j < n ==> left_of_first(turns, n, l)[j] == (if j < l && turns[j].role
                == "assistant"@ {
                TurnView { reasoning_content: Seq::empty(), ..turns[j] }
            } else {
                turns[j]
            }),
    decreases n,
{
    roles_differ();
    if n > 0 {
        kept_one_by_one(turns, n - 1, l);
    }
}

/// Without turns of a developer or of an unknown role before the last turn of the user's
/// side, dropping keeps every turn: an assistant turn before it loses its thinking and
/// nothing else, every other turn is as it was.
pub proof fn dropping_takes_thinking_alone(turns: Seq<TurnView>, l: int, i: int)
    requires
        last_of_users(turns, l),
        forall|j: int|
            0 <= j < l ==> stays((#[trigger] turns[j]).role) || turns[j].role == "assistant"@,
        0 <= i < turns.len(),
    ensures
        without_thinking(turns).len() == turns.len(),
        without_thinking(turns)[i] == (if i < l && turns[i].role == "assistant"@ {
            TurnView { reasoning_content: Seq::empty(), ..turns[i] }
        } else {
            turns[i]
        }),
{
    last_found(turns, l);
    kept_one_by_one(turns, turns.len() as int, l);
    assert(left_of_first(turns, turns.len() as int, l)[i] == without_thinking(turns)[i]);
}

proof fn left_without(a: Seq<TurnView>, d: TurnView, b: Seq<TurnView>, n: int, l: int)
    requires
        0 <= n <= a.len() + b.len(),
        l > a.len(),
        !stays(d.role),
        d.role != "assistant"@,
    ensures
        left_of_first(a.push(d) + b, if n <= a.len() { n } else { n + 1 }, l) == left_of_first(
            a + b,
            n,
            l - 1,
        ),
    decreases n,
{
    let with = a.push(d) + b;
    let without = a + b;
    if n > 0 {
        left_without(a, d, b, n - 1, l);
        if n <= a.len() {
            assert(with[n - 1] == without[n - 1]);
        } else {
            assert(with[n] == without[n - 1]);
            if n == a.len() + 1 {
                assert(with[n - 1] == d);
                assert(left_of(d, n - 1, l) is None);
                assert(left_of_first(with, n, l) == left_of_first(with, n - 1, l));
            }
        }
    }
}

/// A turn of a developer or of an unknown role before the last turn of the user's side is
/// dropped: the rest is as if it had never been there.
pub proof fn dropping_takes_turn(a: Seq<TurnView>, d: TurnView, b: Seq<TurnView>, l: int)
    requires
        last_of_users(b, l),
        !stays(d.role),
        d.role != "assistant"@,
    ensures
        without_thinking(a.push(d) + b) == without_thinking(a + b),
{
    let with = a.push(d) + b;
    let without = a + b;
    let k = a.len() as int;
    assert(with[k + 1 + l] == b[l]);
    assert forall|i: int| k + 1 + l < i < with.len() implies (#[trigger] with[i]).role != "user"@
        && with[i].role != "developer"@ by {
        assert(with[i] == b[i - k - 1]);
    }
    assert forall|i: int| k + l < i < without.len() implies (#[trigger] without[i]).role != "user"@
        && without[i].role != "developer"@ by {
        assert(without[i] == b[i - k]);
    }
    assert(without[k + l] == b[l]);
    last_found(with, k + 1 + l);
    last_found(without, k + l);
    left_without(a, d, b, without.len() as int, k + 1 + l);
}

/// Without a turn of a user or developer nothing is dropped.
pub proof fn nothing_to_drop(turns: Seq<TurnView>)
    requires
        forall|i: int|
            0 <= i < turns.len() ==> (#[trigger] turns[i]).role != "user"@ && turns[i].role
                != "developer"@,
    ensures
        without_thinking(turns) == turns,
{
    last_user_is_last(turns);
    let l = last_user(turns);
    if l >= 0 {
        assert(user_role(turns[l].role));
    }
    dropping_needs_user(turns);
}

} // verus!
