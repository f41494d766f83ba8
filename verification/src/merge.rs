//! From messages to turns: content flattened to text, tool results folded into user
//! turns, consecutive user messages in one turn.

use vstd::prelude::*;
use crate::json::{
    Json, JsonView, field_is, json_view, member, opt_json, or_empty, str_field, str_field_opt,
    text_field, text_of, views,
};
use crate::pyjson::{number_text, number_to_string};
use crate::text::{join, joined, same, texts};
use crate::turns::{
    Block, BlockView, CallView, MergedMsg, ToolCall, TurnView, block_views, call_views, plain_turn,
    roles_differ, turn_views,
};

verus! {

/// The text of a content part, when the part says that it is a text and has one.
pub open spec fn part_text(part: JsonView) -> Option<Seq<char>> {
    if text_field(part, "type"@) == Some("text"@) {
        text_field(part, "text"@)
    } else {
        None
    }
}

/// The texts of the text parts of an array content, in their order.
pub open spec fn part_texts(parts: Seq<JsonView>) -> Seq<Seq<char>>
    decreases parts.len(),
{
    if parts.len() == 0 {
        Seq::empty()
    } else {
        match part_text(parts.last()) {
            Some(t) => part_texts(parts.drop_last()).push(t),
            None => part_texts(parts.drop_last()),
        }
    }
}

/// An array content as one text: its text parts with a space between them.
pub open spec fn parts_text(parts: Seq<JsonView>) -> Seq<char> {
    joined(part_texts(parts), " "@)
}

/// A message's content as one text: a text as it is, a number in digits, an array by
/// its parts of type `text`, anything else as the empty text.
pub open spec fn content_text(content: Option<JsonView>) -> Seq<char> {
    match content {
        Some(JsonView::Text(s)) => s,
        Some(JsonView::Number(n)) => number_text(n),
        Some(JsonView::Array(parts)) => parts_text(parts),
        _ => Seq::empty(),
    }
}

/// A tool message's content as one text: a text as it is, an array by its parts of type
/// `text`, anything else as the empty text.
pub open spec fn tool_text(content: Option<JsonView>) -> Seq<char> {
    match content {
        Some(JsonView::Text(s)) => s,
        Some(JsonView::Array(parts)) => parts_text(parts),
        _ => Seq::empty(),
    }
}

/// A member of the `function` of a tool call.
pub open spec fn function_member(call: JsonView, key: Seq<char>) -> Option<JsonView> {
    match member(call, "function"@) {
        Some(f) => member(f, key),
        None => None,
    }
}

/// One entry of `tool_calls`: absent texts are empty, absent arguments null, and the
/// identifier is that of the call or, when it has none, that of its function.
pub open spec fn call_of(call: JsonView) -> CallView {
    let id = or_empty(text_field(call, "id"@));
    CallView {
        name: or_empty(text_of(function_member(call, "name"@))),
        arguments: match function_member(call, "arguments"@) {
            Some(a) => a,
            None => JsonView::Null,
        },
        id: if id.len() == 0 {
            or_empty(text_of(function_member(call, "id"@)))
        } else {
            id
        },
    }
}

/// The calls of a `tool_calls` value; a value that is no array has none.
pub open spec fn calls_of(v: Option<JsonView>) -> Seq<CallView> {
    match v {
        Some(JsonView::Array(calls)) => calls.map_values(|c: JsonView| call_of(c)),
        _ => Seq::empty(),
    }
}

/// The role of a message, empty when it has none.
pub open spec fn role_of(message: JsonView) -> Seq<char> {
    or_empty(text_field(message, "role"@))
}

/// Is the last turn a user turn that takes further tool results?
pub open spec fn takes_tool(turns: Seq<TurnView>) -> bool {
    turns.len() > 0 && turns.last().role == "user"@ && turns.last().blocks is Some
}

/// Is the last turn a user turn that takes further user messages? One that carries a
/// task does not.
pub open spec fn takes_user(turns: Seq<TurnView>) -> bool {
    takes_tool(turns) && turns.last().task is None
}

/// The turns with one block more in the last one.
pub open spec fn with_block(turns: Seq<TurnView>, block: BlockView) -> Seq<TurnView> {
    turns.drop_last().push(
        TurnView { blocks: Some(turns.last().blocks->0.push(block)), ..turns.last() },
    )
}

/// The block of a tool message.
pub open spec fn tool_block(message: JsonView) -> BlockView {
    BlockView::ToolResult {
        content: tool_text(member(message, "content"@)),
        tool_use_id: or_empty(text_field(message, "tool_call_id"@)),
    }
}

/// The turn that a message opens.
pub open spec fn turn_of(message: JsonView) -> TurnView {
    let role = role_of(message);
    let text = content_text(member(message, "content"@));
    let task = text_field(message, "task"@);
    if role == "tool"@ {
        TurnView { blocks: Some(seq![tool_block(message)]), ..plain_turn("user"@) }
    } else if role == "user"@ {
        TurnView {
            content: text,
            blocks: Some(seq![BlockView::Text(text)]),
            task,
            ..plain_turn("user"@)
        }
    } else if role == "assistant"@ {
        TurnView {
            content: text,
            tool_calls: calls_of(member(message, "tool_calls"@)),
            reasoning_content: or_empty(text_field(message, "reasoning_content"@)),
            task,
            ..plain_turn("assistant"@)
        }
    } else {
        TurnView { content: text, task, ..plain_turn(role) }
    }
}

/// The turns after one message more: a tool message joins the user turn before it, a
/// user message the user turn before it unless that one carries a task, every other
/// message opens a turn.
pub open spec fn merge_one(turns: Seq<TurnView>, message: JsonView) -> Seq<TurnView> {
    let role = role_of(message);
    if role == "tool"@ && takes_tool(turns) {
        with_block(turns, tool_block(message))
    } else if role == "user"@ && takes_user(turns) {
        with_block(turns, BlockView::Text(content_text(member(message, "content"@))))
    } else {
        turns.push(turn_of(message))
    }
}

/// The turns of a list of messages.
pub open spec fn merged(messages: Seq<JsonView>) -> Seq<TurnView>
    decreases messages.len(),
{
    if messages.len() == 0 {
        Seq::empty()
    } else {
        merge_one(merged(messages.drop_last()), messages.last())
    }
}

/// An array content as one text.
fn flatten_parts(parts: &Vec<Json>) -> (r: String)
    ensures
        r@ == parts_text(views(parts@)),
{
    let ghost all = views(parts@);
    let mut found: Vec<String> = Vec::new();
    let mut i: usize = 0;
    proof {
        assert(texts(found@) =~= part_texts(all.take(0)));
    }
    while i < parts.len()
        invariant
            i <= parts@.len(),
            all == views(parts@),
            texts(found@) == part_texts(all.take(i as int)),
        decreases parts@.len() - i,
    {
        proof {
            assert(all[i as int] == parts@[i as int]@);
            assert(all.take(i + 1).drop_last() =~= all.take(i as int));
        }
        if field_is(&parts[i], "type", "text") {
            if let Some(t) = str_field_opt(&parts[i], "text") {
                let ghost before = found@;
                found.push(t);
                proof {
                    assert(texts(found@) =~= texts(before).push(t@));
                }
            }
        }
        i = i + 1;
    }
    proof {
        assert(all.take(i as int) =~= all);
    }
    join(&found, " ")
}

/// A message's content as one text.
pub fn content_to_string(content: Option<&Json>) -> (r: String)
    ensures
        r@ == content_text(opt_json(content)),
{
    broadcast use json_view;

    match content {
        Some(Json::Text(s)) => s.clone(),
        Some(Json::Number(n)) => number_to_string(n),
        Some(Json::Array(parts)) => flatten_parts(parts),
        _ => String::new(),
    }
}

/// A tool message's content as one text.
pub fn tool_result_content(content: Option<&Json>) -> (r: String)
    ensures
        r@ == tool_text(opt_json(content)),
{
    broadcast use json_view;

    match content {
        Some(Json::Text(s)) => s.clone(),
        Some(Json::Array(parts)) => flatten_parts(parts),
        _ => String::new(),
    }
}

/// One entry of `tool_calls`.
fn parse_tool_call(call: &Json) -> (r: ToolCall)
    ensures
        r@ == call_of(call@),
{
    let func = call.get("function");
    let top = str_field(call, "id");
    let id = if top.as_str().is_empty() {
        match func {
            Some(f) => str_field(f, "id"),
            None => String::new(),
        }
    } else {
        top
    };
    let name = match func {
        Some(f) => str_field(f, "name"),
        None => String::new(),
    };
    let arguments = match func {
        Some(f) => match f.get("arguments") {
            Some(a) => a.clone(),
            None => Json::Null,
        },
        None => Json::Null,
    };
    proof {
        json_view(arguments);
    }
    ToolCall { name, arguments, id }
}

/// The calls of a `tool_calls` value.
pub fn parse_tool_calls(v: Option<&Json>) -> (r: Vec<ToolCall>)
    ensures
        call_views(r@) == calls_of(opt_json(v)),
{
    broadcast use json_view;

    let mut out: Vec<ToolCall> = Vec::new();
    if let Some(Json::Array(calls)) = v {
        let ghost all = views(calls@);
        let mut i: usize = 0;
        while i < calls.len()
            invariant
                i <= calls@.len(),
                all == views(calls@),
                call_views(out@) == all.take(i as int).map_values(|c: JsonView| call_of(c)),
            decreases calls@.len() - i,
        {
            let call = parse_tool_call(&calls[i]);
            let ghost before = out@;
            out.push(call);
            proof {
                assert(all[i as int] == calls@[i as int]@);
                assert(call_views(out@) =~= call_views(before).push(call@));
                assert(all.take(i + 1).map_values(|c: JsonView| call_of(c)) =~= all.take(
                    i as int,
                ).map_values(|c: JsonView| call_of(c)).push(call@));
            }
            i = i + 1;
        }
        proof {
            assert(all.take(i as int) =~= all);
        }
    } else {
        proof {
            assert(call_views(out@) =~= Seq::<CallView>::empty());
        }
    }
    out
}

/// The place of the last turn, when it is a user turn that takes further user
/// messages: one that has blocks and carries no task.
pub fn open_user_idx(turns: &Vec<MergedMsg>) -> (r: Option<usize>)
    ensures
        r is Some <==> takes_user(turn_views(turns@)),
        r matches Some(i) ==> i == turns@.len() - 1,
{
    if turns.len() == 0 {
        return None;
    }
    let last = &turns[turns.len() - 1];
    proof {
        assert(turn_views(turns@).last() == last@);
    }
    if same(last.role.as_str(), "user") && last.blocks.is_some() && last.task.is_none() {
        Some(turns.len() - 1)
    } else {
        None
    }
}

/// The place of the last turn, when it is a user turn that takes further tool
/// results: one that has blocks, with a task or without.
pub fn open_tool_fold_idx(turns: &Vec<MergedMsg>) -> (r: Option<usize>)
    ensures
        r is Some <==> takes_tool(turn_views(turns@)),
        r matches Some(i) ==> i == turns@.len() - 1,
{
    if turns.len() == 0 {
        return None;
    }
    let last = &turns[turns.len() - 1];
    proof {
        assert(turn_views(turns@).last() == last@);
    }
    if same(last.role.as_str(), "user") && last.blocks.is_some() {
        Some(turns.len() - 1)
    } else {
        None
    }
}

/// Adds a block to the last turn.
fn add_block(turns: &mut Vec<MergedMsg>, block: Block)
    requires
        old(turns)@.len() > 0,
        old(turns)@.last().blocks is Some,
    ensures
        turn_views(final(turns)@) == with_block(turn_views(old(turns)@), block@),
{
    let ghost before = turns@;
    let mut last = turns.pop().unwrap();
    let ghost prior = last;
    let mut blocks = last.blocks.unwrap();
    let ghost had = blocks@;
    blocks.push(block);
    last.blocks = Some(blocks);
    proof {
        assert(block_views(blocks@) =~= block_views(had).push(block@));
        assert(turn_views(before).last() == prior@);
        assert(last@ == TurnView {
            blocks: Some(block_views(had).push(block@)),
            ..prior@
        });
    }
    turns.push(last);
    proof {
        assert(turn_views(turns@) =~= with_block(turn_views(before), block@));
    }
}

/// The turn that a message opens.
fn open_turn(m: &Json) -> (r: MergedMsg)
    ensures
        r@ == turn_of(m@),
{
    let role = str_field(m, "role");
    if same(role.as_str(), "tool") {
        let block = Block::ToolResult {
            content: tool_result_content(m.get("content")),
            tool_use_id: str_field(m, "tool_call_id"),
        };
        let mut um = MergedMsg::plain("user");
        let ghost plain = um;
        um.blocks = Some(vec![block]);
        proof {
            assert(block_views(um.blocks->0@) =~= seq![block@]);
            assert(um@ == TurnView { blocks: Some(seq![block@]), ..plain@ });
        }
        um
    } else if same(role.as_str(), "user") {
        let text = content_to_string(m.get("content"));
        let mut um = MergedMsg::plain("user");
        let ghost plain = um;
        um.content = text.clone();
        um.blocks = Some(vec![Block::Text(text)]);
        um.task = str_field_opt(m, "task");
        proof {
            assert(block_views(um.blocks->0@) =~= seq![BlockView::Text(text@)]);
        }
        um
    } else if same(role.as_str(), "assistant") {
        let mut am = MergedMsg::plain("assistant");
        am.content = content_to_string(m.get("content"));
        am.tool_calls = parse_tool_calls(m.get("tool_calls"));
        am.reasoning_content = str_field(m, "reasoning_content");
        am.task = str_field_opt(m, "task");
        am
    } else {
        let mut om = MergedMsg::plain(role.as_str());
        om.content = content_to_string(m.get("content"));
        om.task = str_field_opt(m, "task");
        om
    }
}

/// The turns of a list of messages: tool messages fold into user turns as result
/// blocks, consecutive user messages merge, other messages pass through.
pub fn merge_tool_messages(raw: &Vec<Json>) -> (r: Vec<MergedMsg>)
    ensures
        turn_views(r@) == merged(views(raw@)),
{
    let ghost all = views(raw@);
    let mut turns: Vec<MergedMsg> = Vec::new();
    let mut i: usize = 0;
    proof {
        assert(turn_views(turns@) =~= merged(all.take(0)));
    }
    while i < raw.len()
        invariant
            i <= raw@.len(),
            all == views(raw@),
            turn_views(turns@) == merged(all.take(i as int)),
        decreases raw@.len() - i,
    {
        let m = &raw[i];
        proof {
            assert(all[i as int] == m@);
            assert(all.take(i + 1).drop_last() =~= all.take(i as int));
            assert(all.take(i + 1).last() == m@);
            if turns@.len() > 0 {
                assert(turn_views(turns@).last() == turns@.last()@);
            }
        }
        let role = str_field(m, "role");
        if same(role.as_str(), "tool") && open_tool_fold_idx(&turns).is_some() {
            let block = Block::ToolResult {
                content: tool_result_content(m.get("content")),
                tool_use_id: str_field(m, "tool_call_id"),
            };
            add_block(&mut turns, block);
        } else if same(role.as_str(), "user") && open_user_idx(&turns).is_some() {
            let text = content_to_string(m.get("content"));
            add_block(&mut turns, Block::Text(text));
        } else {
            let turn = open_turn(m);
            let ghost before = turns@;
            turns.push(turn);
            proof {
                assert(turn_views(turns@) =~= turn_views(before).push(turn@));
            }
        }
        i = i + 1;
    }
    proof {
        assert(all.take(i as int) =~= all);
    }
    turns
}

/// Does the turn hold only what its role allows?
pub open spec fn turn_shaped(turn: TurnView) -> bool {
    &&& turn.role != "tool"@
    &&& turn.blocks is Some <==> turn.role == "user"@
    &&& turn.blocks is Some ==> turn.blocks->0.len() > 0
    &&& turn.role != "assistant"@ ==> turn.tool_calls.len() == 0 && turn.reasoning_content.len()
        == 0
}

/// What merging brings about, whatever the messages: no turn has the tool role, user
/// turns and no others have blocks, at least one each, only assistant turns have tool
/// calls or thinking, and of two user turns in a row the first carries a task.
pub proof fn merged_shape(messages: Seq<JsonView>)
    ensures
        forall|i: int|
            0 <= i < merged(messages).len() ==> turn_shaped(#[trigger] merged(messages)[i]),
        forall|i: int, j: int|
            #![trigger merged(messages)[i], merged(messages)[j]]
            0 <= i && j == i + 1 && j < merged(messages).len() && merged(messages)[i].role
                == "user"@ && merged(messages)[j].role == "user"@ ==> merged(
                messages,
            )[i].task is Some,
    decreases messages.len(),
{
    roles_differ();
    if messages.len() > 0 {
        let turns = merged(messages.drop_last());
        let m = messages.last();
        let after = merged(messages);
        merged_shape(messages.drop_last());
        if turns.len() > 0 {
            assert(turn_shaped(turns[turns.len() - 1]));
        }
        assert forall|i: int| 0 <= i < after.len() implies turn_shaped(#[trigger] after[i]) by {
            if i < turns.len() {
                assert(turn_shaped(turns[i]));
            }
        }
        assert forall|i: int, j: int|
            #![trigger after[i], after[j]]
            0 <= i && j == i + 1 && j < after.len() && after[i].role == "user"@ && after[j].role
                == "user"@ implies after[i].task is Some by {
            if j < turns.len() {
                assert(turns[i].role == after[i].role && turns[j].role == after[j].role);
                assert(turns[i].task is Some);
                assert(after[i].task == turns[i].task);
            } else {
                assert(after[i] == turns[i]);
            }
        }
    }
}

/// A message that is neither the user's nor a tool's parts the messages: those before
/// it and those after it merge on their own.
pub proof fn merged_apart(before: Seq<JsonView>, message: JsonView, after: Seq<JsonView>)
    requires
        role_of(message) != "user"@,
        role_of(message) != "tool"@,
    ensures
        merged(before.push(message) + after) == merged(before).push(turn_of(message)) + merged(
            after,
        ),
    decreases after.len(),
{
    let head = merged(before).push(turn_of(message));
    if after.len() == 0 {
        assert(before.push(message) + after =~= before.push(message));
        assert(before.push(message).drop_last() =~= before);
        assert(head + merged(after) =~= head);
    } else {
        let front = after.drop_last();
        let all = before.push(message) + after;
        merged_apart(before, message, front);
        assert(all.drop_last() =~= before.push(message) + front);
        let tail = merged(front);
        let m = after.last();
        if tail.len() > 0 {
            assert((head + tail).last() == tail.last());
            assert((head + tail).drop_last() =~= head + tail.drop_last());
        } else {
            assert((head + tail).last() == turn_of(message));
        }
        assert(merge_one(head + tail, m) =~= head + merge_one(tail, m));
    }
}

/// The block that a user or tool message becomes.
pub open spec fn message_block(message: JsonView) -> BlockView {
    if role_of(message) == "tool"@ {
        tool_block(message)
    } else {
        BlockView::Text(content_text(member(message, "content"@)))
    }
}

/// Messages of the user and of tools, one after the other, are one user turn with a
/// block for each, in their order, unless the first is the user's and carries a task.
pub proof fn run_is_one_turn(run: Seq<JsonView>)
    requires
        run.len() > 0,
        forall|i: int|
            0 <= i < run.len() ==> role_of(#[trigger] run[i]) == "user"@ || role_of(run[i])
                == "tool"@,
        role_of(run[0]) == "user"@ ==> text_field(run[0], "task"@) is None,
    ensures
        merged(run).len() == 1,
        merged(run)[0].role == "user"@,
        merged(run)[0].task is None,
        merged(run)[0].blocks == Some(run.map_values(|m: JsonView| message_block(m))),
    decreases run.len(),
{
    roles_differ();
    let front = run.drop_last();
    let m = run.last();
    assert(run[run.len() - 1] == m);
    if front.len() == 0 {
        assert(merged(front) =~= Seq::<TurnView>::empty());
        assert(merged(run) =~= seq![turn_of(m)]);
        assert(run.map_values(|m: JsonView| message_block(m)) =~= seq![message_block(m)]);
    } else {
        assert forall|i: int| 0 <= i < front.len() implies role_of(#[trigger] front[i]) == "user"@
            || role_of(front[i]) == "tool"@ by {
            assert(front[i] == run[i]);
        }
        run_is_one_turn(front);
        assert(run.map_values(|m: JsonView| message_block(m)) =~= front.map_values(
            |m: JsonView| message_block(m),
        ).push(message_block(m)));
    }
}

} // verus!
