//! What holds of every request.

use vstd::prelude::*;
use crate::json::{
    JsonView, inserted, items_of, keys_unique, member, position, position_is_first, position_unique,
    read_after_insert, read_after_remove, text_field,
};
use crate::merge::{merge_one, merged, role_of, takes_user, turn_of};
use crate::options::RenderOpts;
use crate::order::ordered;
use crate::prompt_laws::{generation_opening, last_of_run, ordered_keeps, prompt_ends_open};
use crate::render::{shown_turns, with_system};
use crate::request::{
    final_messages, flattened, handled, last_user_message, last_user_message_is_last, normalized,
    normalized_all, request_error, request_prefix, request_prompt, trailing_text, trimmed,
    user_message, user_message_taskless, user_side, with_member, with_task,
};
use crate::text::{lower, lower_char};
use crate::thinking::{last_user, left_of, left_of_first, user_role};
use crate::turns::{TurnView, roles_differ};

verus! {

/// Does every key of an object occur once? Other values have none.
pub open spec fn keys_once(v: JsonView) -> bool {
    v is Object ==> keys_unique(v->Object_0)
}

/// Does every key of every message occur once?
pub open spec fn all_keys_once(messages: Seq<JsonView>) -> bool {
    forall|i: int| 0 <= i < messages.len() ==> keys_once(#[trigger] messages[i])
}

/// Lower case twice is lower case once.
pub proof fn lower_twice(s: Seq<char>)
    ensures
        lower(lower(s)) == lower(s),
{
    assert forall|i: int| 0 <= i < s.len() implies lower(lower(s))[i] == lower(s)[i] by {
        let c = s[i];
        if 'A' <= c <= 'Z' {
            assert(lower_char(c) as int == c as int + 32);
        }
    }
    assert(lower(lower(s)) =~= lower(s));
}

/// The names of the members that are read of a message are different.
pub proof fn names_differ()
    ensures
        "role"@ != "task"@,
        "role"@ != "content"@,
        "content"@ != "task"@,
        "tool_calls"@ != "role"@,
        "tool_calls"@ != "task"@,
        "tool_call_id"@ != "role"@,
        "tool_call_id"@ != "task"@,
        "reasoning_content"@ != "role"@,
        "reasoning_content"@ != "task"@,
{
    reveal_strlit("role");
    reveal_strlit("task");
    reveal_strlit("content");
    reveal_strlit("tool_calls");
    reveal_strlit("tool_call_id");
    reveal_strlit("reasoning_content");
    assert("role"@.len() == 4 && "task"@.len() == 4 && "content"@.len() == 7 && "tool_calls"@.len()
        == 10 && "tool_call_id"@.len() == 12 && "reasoning_content"@.len() == 17);
    assert("role"@[0] == 'r' && "task"@[0] == 't');
}

/// Normalizing puts the role in lower case, takes the task away, and leaves every other
/// member.
pub proof fn normalized_reads(message: JsonView, key: Seq<char>)
    requires
        keys_once(message),
    ensures
        keys_once(normalized(message)),
        member(normalized(message), "task"@) is None,
        text_field(normalized(message), "role"@) == (match text_field(message, "role"@) {
            Some(role) => Some(lower(role)),
            None => None,
        }),
        key != "role"@ && key != "task"@ ==> member(normalized(message), key) == member(
            message,
            key,
        ),
{
    names_differ();
    if message is Object {
        let m = message->Object_0;
        match text_field(message, "role"@) {
            Some(role) => {
                let value = JsonView::Text(lower(role));
                let n = inserted(m, "role"@, value);
                read_after_insert(m, "role"@, value, key);
                read_after_remove(n, "task"@, key);
                read_after_remove(n, "task"@, "role"@);
            },
            None => {
                read_after_remove(m, "task"@, key);
                read_after_remove(m, "task"@, "role"@);
            },
        }
    }
}

/// Normalizing twice is normalizing once.
pub proof fn normalized_twice(message: JsonView)
    requires
        keys_once(message),
    ensures
        normalized(normalized(message)) == normalized(message),
{
    let n = normalized(message);
    normalized_reads(message, "role"@);
    if let JsonView::Object(members) = n {
        position_is_first(members, "role"@);
        if let Some(role) = text_field(message, "role"@) {
            lower_twice(role);
            let p = position(members, "role"@);
            assert(members[p] == ("role"@, JsonView::Text(lower(role))));
            assert(inserted(members, "role"@, JsonView::Text(lower(lower(role)))) =~= members);
        }
    }
}

/// Do two messages say the same but for the case of the role and for a task?
pub open spec fn alike(a: JsonView, b: JsonView) -> bool {
    &&& forall|key: Seq<char>|
        key != "role"@ && key != "task"@ ==> #[trigger] member(a, key) == member(b, key)
    &&& match text_field(a, "role"@) {
        Some(role) => text_field(b, "role"@) is Some && lower(text_field(b, "role"@)->0) == lower(
            role,
        ),
        None => text_field(b, "role"@) is None,
    }
}

/// Do two messages read the same?
pub open spec fn read_same(a: JsonView, b: JsonView) -> bool {
    &&& forall|key: Seq<char>| key != "role"@ ==> #[trigger] member(a, key) == member(b, key)
    &&& text_field(a, "role"@) == text_field(b, "role"@)
}

/// Do two lists of messages read the same, one by one?
pub open spec fn all_read_same(a: Seq<JsonView>, b: Seq<JsonView>) -> bool {
    &&& a.len() == b.len()
    &&& forall|i: int| 0 <= i < a.len() ==> read_same(#[trigger] a[i], b[i])
}

proof fn normalized_alike(a: JsonView, b: JsonView)
    requires
        alike(a, b),
        keys_once(a),
        keys_once(b),
    ensures
        read_same(normalized(a), normalized(b)),
{
    let x = normalized(a);
    let y = normalized(b);
    assert forall|key: Seq<char>| key != "role"@ implies #[trigger] member(x, key) == member(
        y,
        key,
    ) by {
        normalized_reads(a, key);
        normalized_reads(b, key);
        if key != "task"@ {
            assert(member(a, key) == member(b, key));
        }
    }
    normalized_reads(a, "role"@);
    normalized_reads(b, "role"@);
}

proof fn reads_of_same(a: JsonView, b: JsonView)
    requires
        read_same(a, b),
    ensures
        flattened(a) == flattened(b),
        user_side(a) == user_side(b),
        role_of(a) == role_of(b),
        turn_of(a) == turn_of(b),
        forall|turns: Seq<TurnView>| #[trigger] merge_one(turns, a) == merge_one(turns, b),
{
    names_differ();
    assert(member(a, "content"@) == member(b, "content"@));
    assert(member(a, "task"@) == member(b, "task"@));
    assert(member(a, "tool_calls"@) == member(b, "tool_calls"@));
    assert(member(a, "tool_call_id"@) == member(b, "tool_call_id"@));
    assert(member(a, "reasoning_content"@) == member(b, "reasoning_content"@));
}

/// Messages that read the same become the same turns.
pub proof fn merged_read_same(a: Seq<JsonView>, b: Seq<JsonView>)
    requires
        all_read_same(a, b),
    ensures
        merged(a) == merged(b),
    decreases a.len(),
{
    if a.len() > 0 {
        let n = a.len() - 1;
        assert(read_same(a[n], b[n]));
        reads_of_same(a[n], b[n]);
        assert forall|i: int| 0 <= i < n implies read_same(
            #[trigger] a.drop_last()[i],
            b.drop_last()[i],
        ) by {
            assert(read_same(a[i], b[i]));
        }
        merged_read_same(a.drop_last(), b.drop_last());
    }
}

proof fn last_user_message_same(a: Seq<JsonView>, b: Seq<JsonView>)
    requires
        all_read_same(a, b),
    ensures
        last_user_message(a) == last_user_message(b),
    decreases a.len(),
{
    if a.len() > 0 {
        let n = a.len() - 1;
        assert(read_same(a[n], b[n]));
        reads_of_same(a[n], b[n]);
        assert forall|i: int| 0 <= i < n implies read_same(
            #[trigger] a.drop_last()[i],
            b.drop_last()[i],
        ) by {
            assert(read_same(a[i], b[i]));
        }
        last_user_message_same(a.drop_last(), b.drop_last());
    }
}

proof fn trimmed_same(a: Seq<JsonView>, b: Seq<JsonView>, continue_final: bool)
    requires
        all_read_same(a, b),
    ensures
        trailing_text(a) == trailing_text(b),
        all_read_same(trimmed(a, continue_final), trimmed(b, continue_final)),
{
    if a.len() > 0 {
        let n = a.len() - 1;
        assert(read_same(a[n], b[n]));
        reads_of_same(a[n], b[n]);
    }
    let x = trimmed(a, continue_final);
    let y = trimmed(b, continue_final);
    assert forall|i: int| 0 <= i < x.len() implies read_same(#[trigger] x[i], y[i]) by {
        assert(read_same(a[i], b[i]));
    }
}

proof fn with_task_same(a: Seq<JsonView>, b: Seq<JsonView>, task: Seq<char>)
    requires
        all_read_same(a, b),
        last_user_message(a) >= 0,
    ensures
        all_read_same(with_task(a, task), with_task(b, task)),
{
    names_differ();
    last_user_message_same(a, b);
    last_user_message_is_last(a);
    last_user_message_is_last(b);
    let k = last_user_message(a);
    let value = JsonView::Text(task);
    let x = with_task(a, task);
    let y = with_task(b, task);
    assert(read_same(a[k], b[k]));
    assert(a[k] is Object && b[k] is Object);
    assert forall|key: Seq<char>| key != "role"@ implies #[trigger] member(x[k], key) == member(
        y[k],
        key,
    ) by {
        read_after_insert(a[k]->Object_0, "task"@, value, key);
        read_after_insert(b[k]->Object_0, "task"@, value, key);
        assert(member(a[k], key) == member(b[k], key));
    }
    read_after_insert(a[k]->Object_0, "task"@, value, "role"@);
    read_after_insert(b[k]->Object_0, "task"@, value, "role"@);
    assert forall|i: int| 0 <= i < x.len() implies read_same(#[trigger] x[i], y[i]) by {
        assert(read_same(a[i], b[i]));
    }
}

/// A task that the client puts on a message, and the ASCII case of its role, never
/// matter: neither to the error, nor to the prompt, nor to the text that follows it.
pub proof fn client_task_and_case_do_not_matter(
    a: Seq<JsonView>,
    b: Seq<JsonView>,
    tools: Option<JsonView>,
    opts: RenderOpts,
    continue_final: bool,
    task: Option<Seq<char>>,
)
    requires
        a.len() == b.len(),
        all_keys_once(a),
        all_keys_once(b),
        forall|i: int| 0 <= i < a.len() ==> alike(#[trigger] a[i], b[i]),
    ensures
        request_error(JsonView::Array(a), continue_final, task) == request_error(
            JsonView::Array(b),
            continue_final,
            task,
        ),
        request_prefix(JsonView::Array(a), continue_final) == request_prefix(
            JsonView::Array(b),
            continue_final,
        ),
        request_error(JsonView::Array(a), continue_final, task) is None ==> request_prompt(
            JsonView::Array(a),
            tools,
            opts,
            continue_final,
            task,
        ) == request_prompt(JsonView::Array(b), tools, opts, continue_final, task),
{
    let x = normalized_all(a);
    let y = normalized_all(b);
    assert forall|i: int| 0 <= i < x.len() implies read_same(#[trigger] x[i], y[i]) by {
        assert(keys_once(a[i]) && keys_once(b[i]) && alike(a[i], b[i]));
        normalized_alike(a[i], b[i]);
    }
    trimmed_same(x, y, continue_final);
    let p = trimmed(x, continue_final);
    let q = trimmed(y, continue_final);
    last_user_message_same(p, q);
    if request_error(JsonView::Array(a), continue_final, task) is None {
        if let Some(t) = task {
            with_task_same(p, q, t);
        }
        merged_read_same(
            final_messages(JsonView::Array(a), continue_final, task),
            final_messages(JsonView::Array(b), continue_final, task),
        );
    }
}

/// A user message with nothing but its text is normal.
proof fn user_message_normal(text: Seq<char>)
    ensures
        normalized(user_message(text)) == user_message(text),
        text_field(user_message(text), "role"@) == Some("user"@),
{
    names_differ();
    let m = user_message(text)->Object_0;
    position_unique(m, "role"@, 0);
    user_message_taskless(text);
    reveal_strlit("user");
    assert("user"@ =~= seq!['u', 's', 'e', 'r']);
    assert(lower("user"@) =~= "user"@);
    assert(inserted(m, "role"@, JsonView::Text("user"@)) =~= m);
    position_is_first(m, "task"@);
}

/// A trailing assistant message that is not to be continued is a user message with the
/// same text: the request is as if the client had sent that.
pub proof fn trailing_assistant_speaks_as_user(
    messages: Seq<JsonView>,
    tools: Option<JsonView>,
    opts: RenderOpts,
    task: Option<Seq<char>>,
)
    requires
        trailing_text(normalized_all(messages)) is Some,
    ensures
        ({
            let text = trailing_text(normalized_all(messages))->0;
            let given = JsonView::Array(messages);
            let other = JsonView::Array(messages.drop_last().push(user_message(text)));
            &&& handled(given, false) == handled(other, false)
            &&& request_error(given, false, task) == request_error(other, false, task)
            &&& request_prompt(given, tools, opts, false, task) == request_prompt(
                other,
                tools,
                opts,
                false,
                task,
            )
            &&& request_prefix(given, false) is None
        }),
{
    roles_differ();
    let all = normalized_all(messages);
    let text = trailing_text(all)->0;
    let swapped = messages.drop_last().push(user_message(text));
    user_message_normal(text);
    assert(normalized_all(swapped) =~= all.drop_last().push(user_message(text)));
    assert(trailing_text(normalized_all(swapped)) is None);
}

/// A trailing assistant message that is to be continued is off the messages, and its
/// text follows the prompt. When no further assistant message is then last, the prompt
/// is that of the request without it.
pub proof fn trailing_assistant_is_continued(
    messages: Seq<JsonView>,
    tools: Option<JsonView>,
    opts: RenderOpts,
    task: Option<Seq<char>>,
    flag: bool,
)
    requires
        trailing_text(normalized_all(messages)) is Some,
    ensures
        request_prefix(JsonView::Array(messages), true) == trailing_text(normalized_all(messages)),
        handled(JsonView::Array(messages), true) == normalized_all(messages.drop_last()),
        trailing_text(normalized_all(messages.drop_last())) is None ==> request_error(
            JsonView::Array(messages),
            true,
            task,
        ) == request_error(JsonView::Array(messages.drop_last()), flag, task) && request_prompt(
            JsonView::Array(messages),
            tools,
            opts,
            true,
            task,
        ) == request_prompt(JsonView::Array(messages.drop_last()), tools, opts, flag, task),
{
    assert(normalized_all(messages).drop_last() =~= normalized_all(messages.drop_last()));
}

/// Without a trailing assistant message there is nothing to continue.
pub proof fn nothing_to_continue(
    messages: JsonView,
    tools: Option<JsonView>,
    opts: RenderOpts,
    task: Option<Seq<char>>,
)
    requires
        trailing_text(normalized_all(items_of(messages))) is None,
    ensures
        request_prefix(messages, true) is None,
        request_error(messages, true, task) == request_error(messages, false, task),
        request_prompt(messages, tools, opts, true, task) == request_prompt(
            messages,
            tools,
            opts,
            false,
            task,
        ),
{
}

/// The last turn that is shown, when the last merged one is the user's.
proof fn shown_last(messages: Seq<JsonView>, tools: Option<JsonView>, opts: RenderOpts)
    requires
        merged(messages).len() > 0,
        user_role(merged(messages).last().role),
    ensures
        shown_turns(JsonView::Array(messages), tools, opts).last().role == merged(
            messages,
        ).last().role,
        shown_turns(JsonView::Array(messages), tools, opts).last().task == merged(
            messages,
        ).last().task,
{
    let turns = merged(messages);
    let first = with_system(turns);
    let n = first.len() as int;
    assert(first[n - 1] == turns.last());
    ordered_keeps(first, n - 1);
    let s = ordered(first);
    assert(s.last() == s[n - 1]);
    assert(last_user(s) == n - 1);
    assert(left_of(s[n - 1], n - 1, n - 1) == Some(s[n - 1]));
    assert(left_of_first(s, n, n - 1).last() == s[n - 1]);
}

proof fn merged_taskless(messages: Seq<JsonView>)
    requires
        forall|i: int| 0 <= i < messages.len() ==> member(#[trigger] messages[i], "task"@) is None,
    ensures
        forall|i: int|
            0 <= i < merged(messages).len() ==> (#[trigger] merged(messages)[i]).task is None,
    decreases messages.len(),
{
    if messages.len() > 0 {
        let front = messages.drop_last();
        assert forall|i: int| 0 <= i < front.len() implies member(
            #[trigger] front[i],
            "task"@,
        ) is None by {
            assert(front[i] == messages[i]);
        }
        merged_taskless(front);
        let turns = merged(front);
        let after = merged(messages);
        let m = messages[messages.len() - 1];
        assert(member(m, "task"@) is None);
        assert forall|i: int| 0 <= i < after.len() implies (#[trigger] after[i]).task is None by {
            if i < turns.len() {
                assert(turns[i].task is None);
                assert(after[i].task == turns[i].task);
            } else {
                assert(after[i] == turn_of(m));
            }
        }
    }
}

proof fn handled_taskless(messages: JsonView, continue_final: bool)
    requires
        all_keys_once(items_of(messages)),
    ensures
        forall|i: int|
            0 <= i < handled(messages, continue_final).len() ==> member(
                #[trigger] handled(messages, continue_final)[i],
                "task"@,
            ) is None,
{
    let given = items_of(messages);
    let all = normalized_all(given);
    let h = handled(messages, continue_final);
    assert forall|i: int| 0 <= i < h.len() implies member(#[trigger] h[i], "task"@) is None by {
        if trailing_text(all) is Some {
            user_message_taskless(trailing_text(all)->0);
        }
        assert(keys_once(given[i]));
        normalized_reads(given[i], "task"@);
        assert(all[i] == normalized(given[i]));
    }
}

/// A request without a task whose messages, after a trailing assistant message was
/// handled, end on the user's side has a prompt that ends with the opening of the
/// assistant's turn.
pub proof fn request_opens_answer(
    messages: JsonView,
    tools: Option<JsonView>,
    opts: RenderOpts,
    continue_final: bool,
)
    requires
        all_keys_once(items_of(messages)),
        handled(messages, continue_final).len() > 0,
        user_side(handled(messages, continue_final).last()) || role_of(
            handled(messages, continue_final).last(),
        ) == "tool"@,
    ensures
        generation_opening(opts, None).is_suffix_of(
            request_prompt(messages, tools, opts, continue_final, None),
        ),
{
    let h = handled(messages, continue_final);
    let n = h.len() as int;
    handled_taskless(messages, continue_final);
    merged_taskless(h);
    assert(h[n - 1] == h.last());
    last_of_run(h, n - 1);
    assert(h.take(n) =~= h);
    shown_last(h, tools, opts);
    let turns = merged(h);
    assert(turns[turns.len() - 1].task is None);
    prompt_ends_open(JsonView::Array(h), tools, opts);
}

/// A request without a task, and with a trailing assistant message that is not to be
/// continued, has a prompt that ends with the opening of the assistant's turn.
pub proof fn trailing_assistant_is_answered(
    messages: JsonView,
    tools: Option<JsonView>,
    opts: RenderOpts,
)
    requires
        all_keys_once(items_of(messages)),
        trailing_text(normalized_all(items_of(messages))) is Some,
    ensures
        generation_opening(opts, None).is_suffix_of(
            request_prompt(messages, tools, opts, false, None),
        ),
{
    let text = trailing_text(normalized_all(items_of(messages)))->0;
    user_message_normal(text);
    assert(handled(messages, false).last() == user_message(text));
    request_opens_answer(messages, tools, opts, false);
}

/// The task of a request is at the end of its prompt when the last message is the one
/// that gets it and opens a turn: a developer's, or a user's that does not follow one of
/// the user or of a tool.
pub proof fn request_task_is_shown(
    messages: JsonView,
    tools: Option<JsonView>,
    opts: RenderOpts,
    continue_final: bool,
    task: Seq<char>,
)
    requires
        request_error(messages, continue_final, Some(task)) is None,
        ({
            let h = handled(messages, continue_final);
            let n = h.len() as int;
            &&& n > 0 && user_side(h.last())
            &&& role_of(h.last()) == "developer"@ || n == 1 || (role_of(h[n - 2]) != "user"@
                && role_of(h[n - 2]) != "tool"@)
        }),
    ensures
        generation_opening(opts, Some(task)).is_suffix_of(
            request_prompt(messages, tools, opts, continue_final, Some(task)),
        ),
{
    roles_differ();
    names_differ();
    let h = handled(messages, continue_final);
    let n = h.len() as int;
    let f = final_messages(messages, continue_final, Some(task));
    assert(last_user_message(h) == n - 1);
    assert(h[n - 1] == h.last() && h[n - 1] is Object);
    let value = JsonView::Text(task);
    read_after_insert(h[n - 1]->Object_0, "task"@, value, "role"@);
    let m = f[n - 1];
    assert(m == with_member(h[n - 1], "task"@, value));
    assert(text_field(m, "role"@) == text_field(h[n - 1], "role"@));
    assert(text_field(m, "task"@) == Some(task));
    let front = f.drop_last();
    assert(front =~= h.drop_last());
    assert(f.last() == m);
    let turns = merged(front);
    if n > 1 {
        assert(front.last() == h[n - 2]);
        assert(role_of(m) == "user"@ ==> turns.last().role != "user"@);
    } else {
        assert(turns =~= Seq::<TurnView>::empty());
    }
    assert(role_of(m) == "user"@ ==> !takes_user(turns));
    assert(merged(f) == turns.push(turn_of(m)));
    shown_last(f, tools, opts);
    prompt_ends_open(JsonView::Array(f), tools, opts);
}

} // verus!
