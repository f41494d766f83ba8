//! A whole request: roles and tasks of its messages put in order, a trailing assistant
//! message taken off or turned into a user message, the task attached, then the prompt.

use vstd::prelude::*;
use crate::json::{
    Json, JsonObject, JsonView, Members, inserted, items_of, json_view, member, opt_json,
    position_unique, read_after_insert, removed, str_field_opt, text_field, views,
};
use crate::markers::{task_sp_token, task_token};
use crate::merge::{content_to_string, merge_one, merged, parts_text, turn_of};
use crate::options::RenderOpts;
use crate::order::ordered;
use crate::render::{prompt_text, render_messages, shown_turns, tasks_known, with_system};
use crate::text::{lower, opt_string, opt_text, same};
use crate::thinking::{last_user, left_of, left_of_first, user_role};
use crate::turns::TurnView;

verus! {

/// What a request says beyond its messages and tools.
#[derive(Clone, Copy, Debug)]
pub struct RequestParts<'a> {
    /// The task of the request: it goes to the last user or developer message and is
    /// rendered as a special token.
    pub task: Option<&'a str>,
    /// Is a trailing assistant message to be continued? It is then taken off the
    /// messages, and its text follows the generation prompt.
    pub continue_final_message: bool,
}

impl<'a> Default for RequestParts<'a> {
    fn default() -> (r: RequestParts<'a>)
        ensures
            r.task is None,
            !r.continue_final_message,
    {
        RequestParts { task: None, continue_final_message: false }
    }
}

/// Why a request has no prompt.
#[derive(Debug, Clone, Copy, PartialEq, Eq, Structural)]
pub enum RenderErr {
    /// There is a task, but no user or developer message to carry it.
    TaskWithoutUser,
    /// There is no such task.
    InvalidTask,
}

impl RenderErr {
    /// The error in words.
    pub fn message(&self) -> (r: &'static str)
        ensures
            r@ == match self {
                RenderErr::TaskWithoutUser => "`task` requires a user/developer message"@,
                RenderErr::InvalidTask => "task outside encoding_dsv4.VALID_TASKS"@,
            },
    {
        match self {
            RenderErr::TaskWithoutUser => "`task` requires a user/developer message",
            RenderErr::InvalidTask => "task outside encoding_dsv4.VALID_TASKS",
        }
    }
}

/// A value with a member set, when it is an object.
pub open spec fn with_member(v: JsonView, key: Seq<char>, value: JsonView) -> JsonView {
    match v {
        JsonView::Object(members) => JsonView::Object(inserted(members, key, value)),
        _ => v,
    }
}

/// A value without a member.
pub open spec fn without_member(v: JsonView, key: Seq<char>) -> JsonView {
    match v {
        JsonView::Object(members) => JsonView::Object(removed(members, key)),
        _ => v,
    }
}

/// A client's message as it is rendered: its role in lower case, and without a task.
pub open spec fn normalized(message: JsonView) -> JsonView {
    without_member(
        match text_field(message, "role"@) {
            Some(role) => with_member(message, "role"@, JsonView::Text(lower(role))),
            None => message,
        },
        "task"@,
    )
}

/// The messages of a request as they are rendered.
pub open spec fn normalized_all(messages: Seq<JsonView>) -> Seq<JsonView> {
    messages.map_values(|m: JsonView| normalized(m))
}

/// The content of a message as one text; `None` when it is neither a text, nor an
/// array, nor null, nor absent.
pub open spec fn flattened(message: JsonView) -> Option<Seq<char>> {
    match member(message, "content"@) {
        Some(JsonView::Text(s)) => Some(s),
        Some(JsonView::Null) => Some(Seq::empty()),
        Some(JsonView::Array(parts)) => Some(parts_text(parts)),
        Some(_) => None,
        None => Some(Seq::empty()),
    }
}

/// The text of the last message, when it is an assistant message whose content can be
/// flattened.
pub open spec fn trailing_text(messages: Seq<JsonView>) -> Option<Seq<char>> {
    if messages.len() > 0 && text_field(messages.last(), "role"@) == Some("assistant"@) {
        flattened(messages.last())
    } else {
        None
    }
}

/// A user message with nothing but its text.
pub open spec fn user_message(text: Seq<char>) -> JsonView {
    JsonView::Object(
        seq![("role"@, JsonView::Text("user"@)), ("content"@, JsonView::Text(text))],
    )
}

/// A user message with nothing but its text has no task.
pub proof fn user_message_taskless(text: Seq<char>)
    ensures
        member(user_message(text), "task"@) is None,
{
    reveal_strlit("role");
    reveal_strlit("content");
    reveal_strlit("task");
    assert("role"@[0] == 'r' && "task"@[0] == 't');
    position_unique(user_message(text)->Object_0, "task"@, 2);
}

/// The messages after the trailing assistant message was handled: taken off when it is
/// to be continued, else a user message in its place.
pub open spec fn trimmed(messages: Seq<JsonView>, continue_final: bool) -> Seq<JsonView> {
    match trailing_text(messages) {
        Some(text) => if continue_final {
            messages.drop_last()
        } else {
            messages.drop_last().push(user_message(text))
        },
        None => messages,
    }
}

/// The text to be continued.
pub open spec fn prefix_of(messages: Seq<JsonView>, continue_final: bool) -> Option<Seq<char>> {
    if continue_final {
        trailing_text(messages)
    } else {
        None
    }
}

/// Is this a message of the user's side?
pub open spec fn user_side(message: JsonView) -> bool {
    match text_field(message, "role"@) {
        Some(role) => user_role(role),
        None => false,
    }
}

/// The place of the last user or developer message, or -1 when there is none.
pub open spec fn last_user_message(messages: Seq<JsonView>) -> int
    decreases messages.len(),
{
    if messages.len() == 0 {
        -1
    } else if user_side(messages.last()) {
        messages.len() - 1
    } else {
        last_user_message(messages.drop_last())
    }
}

/// `last_user_message` is a user or developer message with none after it.
pub proof fn last_user_message_is_last(messages: Seq<JsonView>)
    ensures
        -1 <= last_user_message(messages) < messages.len(),
        last_user_message(messages) >= 0 ==> user_side(messages[last_user_message(messages)]),
        forall|i: int|
            last_user_message(messages) < i < messages.len() ==> !user_side(#[trigger] messages[i]),
    decreases messages.len(),
{
    if messages.len() > 0 && !user_side(messages.last()) {
        let front = messages.drop_last();
        last_user_message_is_last(front);
        assert forall|i: int| last_user_message(messages) < i < messages.len() implies !user_side(
            #[trigger] messages[i],
        ) by {
            if i < front.len() {
                assert(front[i] == messages[i]);
            }
        }
    }
}

/// The messages with a task on the last user or developer message.
pub open spec fn with_task(messages: Seq<JsonView>, task: Seq<char>) -> Seq<JsonView> {
    let i = last_user_message(messages);
    messages.update(i, with_member(messages[i], "task"@, JsonView::Text(task)))
}

/// The error of attaching a task.
pub open spec fn task_error(messages: Seq<JsonView>, task: Seq<char>) -> Option<RenderErr> {
    if task_token(task) is None {
        Some(RenderErr::InvalidTask)
    } else if last_user_message(messages) < 0 {
        Some(RenderErr::TaskWithoutUser)
    } else {
        None
    }
}

/// The messages of a request before its task is attached.
pub open spec fn handled(messages: JsonView, continue_final: bool) -> Seq<JsonView> {
    trimmed(normalized_all(items_of(messages)), continue_final)
}

/// The error of a request.
pub open spec fn request_error(
    messages: JsonView,
    continue_final: bool,
    task: Option<Seq<char>>,
) -> Option<RenderErr> {
    match task {
        Some(t) => task_error(handled(messages, continue_final), t),
        None => None,
    }
}

/// The messages that a request without error renders.
pub open spec fn final_messages(
    messages: JsonView,
    continue_final: bool,
    task: Option<Seq<char>>,
) -> Seq<JsonView> {
    match task {
        Some(t) => with_task(handled(messages, continue_final), t),
        None => handled(messages, continue_final),
    }
}

/// The prompt of a request without error.
pub open spec fn request_prompt(
    messages: JsonView,
    tools: Option<JsonView>,
    opts: RenderOpts,
    continue_final: bool,
    task: Option<Seq<char>>,
) -> Seq<char> {
    prompt_text(JsonView::Array(final_messages(messages, continue_final, task)), tools, opts)
}

/// The text that follows the prompt of a request.
pub open spec fn request_prefix(messages: JsonView, continue_final: bool) -> Option<Seq<char>> {
    prefix_of(normalized_all(items_of(messages)), continue_final)
}

/// Does the message carry no task, or a valid one?
pub open spec fn task_valid(message: JsonView) -> bool {
    match text_field(message, "task"@) {
        Some(t) => task_token(t) is Some,
        None => true,
    }
}

/// Do all turns carry no task, or a valid one?
spec fn turn_tasks_valid(turns: Seq<TurnView>) -> bool {
    forall|i: int|
        0 <= i < turns.len() && (#[trigger] turns[i]).task is Some ==> task_token(
            turns[i].task->0,
        ) is Some
}

proof fn merged_tasks_valid(messages: Seq<JsonView>)
    requires
        forall|i: int| 0 <= i < messages.len() ==> task_valid(#[trigger] messages[i]),
    ensures
        turn_tasks_valid(merged(messages)),
    decreases messages.len(),
{
    if messages.len() > 0 {
        let front = messages.drop_last();
        assert forall|i: int| 0 <= i < front.len() implies task_valid(#[trigger] front[i]) by {
            assert(front[i] == messages[i]);
        }
        merged_tasks_valid(front);
        let turns = merged(front);
        let m = messages[messages.len() - 1];
        assert(task_valid(m));
        let after = merge_one(turns, m);
        assert forall|i: int| 0 <= i < after.len() && (#[trigger] after[i]).task is Some implies task_token(
            after[i].task->0,
        ) is Some by {
            if i < turns.len() {
                assert(after[i].task == turns[i].task);
            } else {
                assert(after[i] == turn_of(m));
            }
        }
    }
}

proof fn left_tasks_valid(turns: Seq<TurnView>, n: int, last: int)
    requires
        0 <= n <= turns.len(),
        turn_tasks_valid(turns),
    ensures
        turn_tasks_valid(left_of_first(turns, n, last)),
    decreases n,
{
    if n > 0 {
        left_tasks_valid(turns, n - 1, last);
        let before = left_of_first(turns, n - 1, last);
        if left_of(turns[n - 1], n - 1, last) is Some {
            let t = left_of(turns[n - 1], n - 1, last)->0;
            assert(t.task == turns[n - 1].task);
            assert forall|i: int| 0 <= i < before.push(t).len() && (
            #[trigger] before.push(t)[i]).task is Some implies task_token(
                before.push(t)[i].task->0,
            ) is Some by {
                if i < before.len() {
                    assert(before.push(t)[i] == before[i]);
                }
            }
        }
    }
}

/// A prompt can show messages whose tasks are valid.
pub proof fn valid_tasks_known(messages: Seq<JsonView>, tools: Option<JsonView>, opts: RenderOpts)
    requires
        forall|i: int| 0 <= i < messages.len() ==> task_valid(#[trigger] messages[i]),
    ensures
        tasks_known(shown_turns(JsonView::Array(messages), tools, opts)),
{
    merged_tasks_valid(messages);
    let turns = merged(messages);
    let first = with_system(turns);
    assert forall|i: int| 0 <= i < first.len() && (#[trigger] first[i]).task is Some implies task_token(
        first[i].task->0,
    ) is Some by {
        if first.len() > turns.len() && i > 0 {
            assert(first[i] == turns[i - 1]);
        } else if first.len() == turns.len() {
            assert(first[i] == turns[i]);
        }
    }
    let sorted = ordered(first);
    assert forall|i: int| 0 <= i < sorted.len() && (#[trigger] sorted[i]).task is Some implies task_token(
        sorted[i].task->0,
    ) is Some by {
        assert(sorted[i].task == first[i].task);
    }
    left_tasks_valid(sorted, sorted.len() as int, last_user(sorted));
}

/// Writes a member, when the value is an object.
fn set_member(v: Json, key: &str, value: Json) -> (r: Json)
    ensures
        r@ == with_member(v@, key@, value@),
{
    broadcast use json_view;

    match v {
        Json::Object(o) => Json::Object(o.insert(key, value)),
        other => other,
    }
}

/// A client's message as it is rendered.
fn normalize(m: &Json) -> (r: Json)
    ensures
        r@ == normalized(m@),
        member(r@, "task"@) is None,
{
    broadcast use json_view;

    let mut out = m.clone();
    if let Some(role) = str_field_opt(m, "role") {
        let lowered = role.as_str().to_ascii_lowercase();
        out = set_member(out, "role", Json::Text(lowered));
    }
    match out {
        Json::Object(o) => Json::Object(o.remove("task")),
        other => other,
    }
}

/// A user message with nothing but its text.
fn make_user_message(text: String) -> (r: Json)
    ensures
        r@ == user_message(text@),
{
    broadcast use json_view;

    let role = Json::Text("user".to_owned());
    let content = Json::Text(text);
    proof {
        reveal_strlit("role");
        reveal_strlit("content");
        assert("role"@.len() == 4 && "content"@.len() == 7);
        let one = seq![("role"@, role@)];
        position_unique(Members::empty(), "role"@, 0);
        assert(Members::empty().push(("role"@, role@)) =~= one);
        position_unique(one, "content"@, 1);
        assert(one.push(("content"@, content@)) =~= seq![
            ("role"@, role@),
            ("content"@, content@),
        ]);
    }
    Json::Object(JsonObject::new().insert("role", role).insert("content", content))
}

/// Handles a trailing assistant message. When it is to be continued it is taken off
/// and its text comes back; else a user message with its text takes its place. A
/// message of another role, or one whose content cannot be flattened, stays.
pub fn handle_trailing_assistant(
    messages: &mut Vec<Json>,
    continue_final_message: bool,
) -> (r: Option<String>)
    ensures
        views(final(messages)@) == trimmed(views(old(messages)@), continue_final_message),
        opt_string(r) == prefix_of(views(old(messages)@), continue_final_message),
{
    broadcast use json_view;

    let ghost given = messages@;
    let ghost all = views(messages@);
    if messages.len() == 0 {
        return None;
    }
    let last = &messages[messages.len() - 1];
    proof {
        assert(all.last() == last@);
    }
    match str_field_opt(last, "role") {
        Some(role) => if !same(role.as_str(), "assistant") {
            return None;
        },
        None => {
            return None;
        },
    }
    let content = last.get("content");
    let text = match content {
        Some(Json::Text(s)) => s.clone(),
        Some(Json::Null) => String::new(),
        Some(Json::Array(_)) => content_to_string(content),
        Some(_) => {
            return None;
        },
        None => String::new(),
    };
    let _ = messages.pop();
    proof {
        assert(views(messages@) =~= all.drop_last());
    }
    if continue_final_message {
        Some(text)
    } else {
        let ghost front = messages@;
        let user = make_user_message(text);
        messages.push(user);
        proof {
            assert(views(messages@) =~= views(front).push(user@));
        }
        None
    }
}

/// Puts a task on the last user or developer message. An invalid task, or the lack of
/// such a message, is an error that leaves the messages as they were.
pub fn attach_task(messages: &mut Vec<Json>, task: &str) -> (r: Result<(), RenderErr>)
    ensures
        match task_error(views(old(messages)@), task@) {
            Some(e) => r == Err::<(), RenderErr>(e) && final(messages)@ == old(messages)@,
            None => r is Ok && views(final(messages)@) == with_task(views(old(messages)@), task@),
        },
{
    broadcast use json_view;

    if task_sp_token(task).is_none() {
        return Err(RenderErr::InvalidTask);
    }
    let ghost all = views(messages@);
    let mut i: usize = messages.len();
    proof {
        assert(all.take(i as int) =~= all);
    }
    while i > 0
        invariant
            i <= messages@.len(),
            messages@ == old(messages)@,
            all == views(messages@),
            task_token(task@) is Some,
            last_user_message(all) == last_user_message(all.take(i as int)),
        decreases i,
    {
        proof {
            assert(all.take(i as int).last() == messages@[i - 1]@);
            assert(all.take(i as int).drop_last() =~= all.take(i - 1));
        }
        let found = match str_field_opt(&messages[i - 1], "role") {
            Some(role) => same(role.as_str(), "user") || same(role.as_str(), "developer"),
            None => false,
        };
        if found {
            let message = messages[i - 1].clone();
            let value = Json::Text(task.to_owned());
            proof {
                json_view(value);
            }
            messages[i - 1] = set_member(message, "task", value);
            proof {
                assert(views(messages@) =~= with_task(all, task@));
            }
            return Ok(());
        }
        i = i - 1;
    }
    Err(RenderErr::TaskWithoutUser)
}

/// The prompt of a whole request, and the text that follows it when a trailing
/// assistant message is to be continued.
pub fn render_request(
    messages: &Json,
    tools: Option<&Json>,
    opts: RenderOpts,
    parts: RequestParts<'_>,
) -> (r: Result<(String, Option<String>), RenderErr>)
    ensures
        match request_error(messages@, parts.continue_final_message, opt_text(parts.task)) {
            Some(e) => r == Err::<(String, Option<String>), RenderErr>(e),
            None => {
                &&& r is Ok
                &&& r->Ok_0.0@ == request_prompt(
                    messages@,
                    opt_json(tools),
                    opts,
                    parts.continue_final_message,
                    opt_text(parts.task),
                )
                &&& opt_string(r->Ok_0.1) == request_prefix(
                    messages@,
                    parts.continue_final_message,
                )
            },
        },
{
    broadcast use json_view;

    let ghost given = items_of(messages@);
    let mut raw: Vec<Json> = Vec::new();
    proof {
        assert(views(raw@) =~= normalized_all(given.take(0)));
    }
    match messages {
        Json::Array(items) => {
            let mut i: usize = 0;
            while i < items.len()
                invariant
                    i <= items@.len(),
                    given == views(items@),
                    views(raw@) == normalized_all(given.take(i as int)),
                    forall|j: int|
                        0 <= j < raw@.len() ==> member((#[trigger] raw@[j])@, "task"@) is None,
                decreases items@.len() - i,
            {
                let m = normalize(&items[i]);
                let ghost before = raw@;
                raw.push(m);
                proof {
                    assert(given[i as int] == items@[i as int]@);
                    assert(views(raw@) =~= views(before).push(m@));
                    assert(normalized_all(given.take(i + 1)) =~= normalized_all(
                        given.take(i as int),
                    ).push(m@));
                }
                i = i + 1;
            }
            proof {
                assert(given.take(i as int) =~= given);
            }
        },
        _ => {
            proof {
                assert(given.take(0) =~= given);
            }
        },
    }
    let ghost stripped = views(raw@);
    proof {
        assert forall|j: int| 0 <= j < stripped.len() implies member(
            #[trigger] stripped[j],
            "task"@,
        ) is None by {
            assert(stripped[j] == raw@[j]@);
        }
    }
    let prefix = handle_trailing_assistant(&mut raw, parts.continue_final_message);
    let ghost kept = views(raw@);
    proof {
        assert forall|j: int| 0 <= j < kept.len() implies member(
            #[trigger] kept[j],
            "task"@,
        ) is None by {
            if j < stripped.len() && kept[j] == stripped[j] {
            } else {
                user_message_taskless(trailing_text(stripped)->0);
            }
        }
    }
    if let Some(task) = parts.task {
        match attach_task(&mut raw, task) {
            Ok(_) => {
                proof {
                    last_user_message_is_last(kept);
                    read_after_insert(
                        kept[last_user_message(kept)]->Object_0,
                        "task"@,
                        JsonView::Text(task@),
                        "task"@,
                    );
                }
            },
            Err(e) => {
                return Err(e);
            },
        }
    }
    let ghost all = views(raw@);
    proof {
        assert forall|j: int| 0 <= j < all.len() implies task_valid(#[trigger] all[j]) by {
            if parts.task is Some && j == last_user_message(kept) {
                assert(kept[j] is Object);
            } else {
                assert(all[j] == kept[j]);
            }
        }
    }
    let mut i: usize = 0;
    while i < raw.len()
        invariant
            i <= raw@.len(),
            all == views(raw@),
            forall|j: int| 0 <= j < all.len() ==> task_valid(#[trigger] all[j]),
        decreases raw@.len() - i,
    {
        assert(all[i as int] == raw@[i as int]@);
        if let Some(t) = str_field_opt(&raw[i], "task") {
            if task_sp_token(t.as_str()).is_none() {
                return Err(RenderErr::InvalidTask);
            }
        }
        i = i + 1;
    }
    proof {
        valid_tasks_known(all, opt_json(tools), opts);
    }
    let prepared = Json::Array(raw);
    let prompt = render_messages(&prepared, tools, opts);
    Ok((prompt, prefix))
}

} // verus!
