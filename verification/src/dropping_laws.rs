//! What a thinking-mode prompt without tools leaves out, against the chat-mode prompt.

use vstd::prelude::*;
use crate::conversation::{answer_opening, drops_nothing};
use crate::json::{JsonView, text_field};
use crate::merge::{merge_one, merged, merged_apart, turn_of};
use crate::merge_laws::{
    dropping_takes_thinking_alone, dropping_takes_turn, empty_is_no_role, joins, last_of_users,
    last_turn, stays, text_or_nothing,
};
use crate::options::{ReasoningEffort, RenderOpts};
use crate::order::{calling, calls_before, ordered};
use crate::prompt_laws::{first_role, last_of_run, last_stays, ordered_keeps, shown_system_first};
use crate::render::{
    Mode, mode_of, opening, prompt_text, shown_turns, turn_body, turn_end, turns_text, with_system,
};
use crate::thinking::{last_user, last_user_is_last, user_role, without_thinking};
use crate::tools::tool_list;
use crate::turns::{TurnView, roles_differ};

verus! {

/// Is this a message of the user's side: the user's, a developer's or a tool's?
pub open spec fn on_user_side(message: JsonView) -> bool {
    joins(message) || text_field(message, "role"@) == Some("developer"@)
}

/// Does a message of this role stay before the last one of the user's side?
pub open spec fn remains(message: JsonView) -> bool {
    stays(text_or_nothing(message, "role"@)) || text_field(message, "role"@) == Some("assistant"@)
}

spec fn plain_enough(turn: TurnView) -> bool {
    (stays(turn.role) || turn.role == "assistant"@) && turn.task is None
}

proof fn merged_plain(messages: Seq<JsonView>)
    requires
        forall|i: int|
            0 <= i < messages.len() ==> remains(#[trigger] messages[i]) && text_field(
                messages[i],
                "task"@,
            ) is None,
    ensures
        forall|i: int|
            0 <= i < merged(messages).len() ==> plain_enough(#[trigger] merged(messages)[i]),
    decreases messages.len(),
{
    roles_differ();
    if messages.len() > 0 {
        let front = messages.drop_last();
        assert forall|i: int| 0 <= i < front.len() implies remains(#[trigger] front[i])
            && text_field(front[i], "task"@) is None by {
            assert(front[i] == messages[i]);
        }
        merged_plain(front);
        let turns = merged(front);
        let m = messages[messages.len() - 1];
        assert(remains(m) && text_field(m, "task"@) is None);
        let after = merge_one(turns, m);
        assert forall|i: int| 0 <= i < after.len() implies plain_enough(#[trigger] after[i]) by {
            if i < turns.len() {
                assert(plain_enough(turns[i]));
                assert(after[i].role == turns[i].role && after[i].task == turns[i].task);
            } else {
                assert(after[i] == turn_of(m));
            }
        }
    }
}

/// All turns but the last are plain, the last is the user's side without a task.
spec fn ends_with_user(s: Seq<TurnView>) -> bool {
    &&& s.len() > 0
    &&& user_role(s.last().role)
    &&& forall|i: int|
        0 <= i < s.len() ==> (#[trigger] s[i]).task is None && (i < s.len() - 1 ==> stays(s[i].role)
            || s[i].role == "assistant"@)
}

proof fn merged_ends(messages: Seq<JsonView>)
    requires
        messages.len() > 0,
        on_user_side(messages.last()),
        forall|i: int|
            0 <= i < messages.len() ==> text_field(#[trigger] messages[i], "task"@) is None,
        forall|i: int| 0 <= i < messages.len() - 1 ==> remains(#[trigger] messages[i]),
    ensures
        ends_with_user(merged(messages)),
{
    roles_differ();
    empty_is_no_role();
    let n = messages.len() as int;
    let last = messages[n - 1];
    if joins(last) {
        assert forall|i: int| 0 <= i < n implies remains(#[trigger] messages[i]) && text_field(
            messages[i],
            "task"@,
        ) is None by {
            if i == n - 1 {
                assert(remains(last));
            }
        }
        merged_plain(messages);
        last_turn(messages);
        let turns = merged(messages);
        assert forall|i: int| 0 <= i < turns.len() implies (#[trigger] turns[i]).task is None && (i
            < turns.len() - 1 ==> stays(turns[i].role) || turns[i].role == "assistant"@) by {
            assert(plain_enough(turns[i]));
        }
    } else {
        let front = messages.drop_last();
        assert forall|i: int| 0 <= i < front.len() implies remains(#[trigger] front[i])
            && text_field(front[i], "task"@) is None by {
            assert(front[i] == messages[i]);
        }
        merged_plain(front);
        let turns = merged(front);
        let all = merged(messages);
        assert(all == turns.push(turn_of(last)));
        assert forall|i: int| 0 <= i < all.len() implies (#[trigger] all[i]).task is None && (i
            < all.len() - 1 ==> stays(all[i].role) || all[i].role == "assistant"@) by {
            if i < turns.len() {
                assert(plain_enough(turns[i]));
            }
        }
    }
}

#[verifier::rlimit(60)]
proof fn turns_agree(
    s: Seq<TurnView>,
    t: Seq<TurnView>,
    n: int,
    chat: Mode,
    think: Mode,
    list: Option<Seq<JsonView>>,
)
    requires
        ends_with_user(s),
        s.len() == t.len(),
        0 <= n < s.len(),
        !chat.thinking,
        think.dropping,
        think.last == s.len() - 1,
        forall|i: int|
            0 <= i < s.len() ==> #[trigger] t[i] == (if i < s.len() - 1 && s[i].role
                == "assistant"@ {
                TurnView { reasoning_content: Seq::empty(), ..s[i] }
            } else {
                s[i]
            }),
    ensures
        turns_text(t, n, think, list) == turns_text(s, n, chat, list),
    decreases n,
{
    if n > 0 {
        turns_agree(s, t, n - 1, chat, think, list);
        let i = n - 1;
        assert(t[i].role == s[i].role && t[i].task is None && s[i].task is None);
        assert(t[n].role == s[n].role);
        assert(turn_body(t, i, think) == turn_body(s, i, chat));
        assert(turn_end(t, i, think) == turn_end(s, i, chat));
    }
}

/// In thinking mode without tools, of messages that carry no task and that end on the
/// user's side, with no developer's message and none of an unknown role before, the prompt
/// is the chat-mode prompt, except that the model is to think first: the thinking of
/// earlier turns is not there, and those turns open as in chat mode.
#[verifier::rlimit(60)]
#[verifier::spinoff_prover]
pub proof fn thinking_without_tools(
    messages: Seq<JsonView>,
    tools: Option<JsonView>,
    effort: ReasoningEffort,
)
    requires
        messages.len() > 0,
        on_user_side(messages.last()),
        forall|i: int|
            0 <= i < messages.len() ==> text_field(#[trigger] messages[i], "task"@) is None,
        forall|i: int| 0 <= i < messages.len() - 1 ==> remains(#[trigger] messages[i]),
        !(effort is Max),
        tools is Some && tools->0 is Array ==> tools->0->Array_0.len() == 0,
    ensures
        ({
            let chat = prompt_text(
                JsonView::Array(messages),
                tools,
                RenderOpts { thinking: false, reasoning_effort: effort },
            );
            let think = prompt_text(
                JsonView::Array(messages),
                tools,
                RenderOpts { thinking: true, reasoning_effort: effort },
            );
            let said = chat.take(chat.len() - answer_opening(false).len());
            &&& chat == said + answer_opening(false)
            &&& think == said + answer_opening(true)
        }),
{
    roles_differ();
    merged_ends(messages);
    let turns = merged(messages);
    let first = with_system(turns);
    let s = ordered(first);
    assert(ends_with_user(s)) by {
        let n = s.len() as int;
        assert(first.last() == turns.last());
        ordered_keeps(first, n - 1);
        assert(s.last() == s[n - 1]);
        assert forall|i: int| 0 <= i < n implies (#[trigger] s[i]).task is None && (i < n - 1
            ==> stays(s[i].role) || s[i].role == "assistant"@) by {
            ordered_keeps(first, i);
            let d = first.len() - turns.len();
            if i >= d {
                assert(first[i] == turns[i - d]);
                assert(turns[i - d].task is None);
            }
        }
    }
    let n = s.len() as int;
    let m = JsonView::Array(messages);
    let chat = RenderOpts { thinking: false, reasoning_effort: effort };
    let think = RenderOpts { thinking: true, reasoning_effort: effort };
    let t = without_thinking(s);
    assert(s[n - 1] == s.last());
    assert(last_of_users(s, n - 1));
    dropping_takes_thinking_alone(s, n - 1, n - 1);
    assert forall|i: int| 0 <= i < n implies #[trigger] t[i] == (if i < n - 1 && s[i].role
        == "assistant"@ {
        TurnView { reasoning_content: Seq::empty(), ..s[i] }
    } else {
        s[i]
    }) by {
        dropping_takes_thinking_alone(s, n - 1, i);
    }
    shown_system_first(m, tools, chat);
    assert(shown_turns(m, tools, chat) == s);
    assert(shown_turns(m, tools, think) == t);
    assert(t.last() == t[n - 1]);
    assert(last_user(t) == n - 1);
    let list = tool_list(tools);
    let cm = mode_of(s, tools, chat);
    let tm = mode_of(t, tools, think);
    turns_agree(s, t, n - 1, cm, tm, list);
    assert(n > 1) by {
        if n == 1 {
            assert(s[0] == s.last());
        }
    }
    assert(s[n - 1].task is None);
    assert(turn_body(t, n - 1, tm) == turn_body(s, n - 1, cm));
    assert(turn_end(s, n - 1, cm) =~= answer_opening(false));
    assert(turn_end(t, n - 1, tm) =~= answer_opening(true));
    let base = opening(chat) + turns_text(s, n - 1, cm, list) + turn_body(s, n - 1, cm);
    assert(opening(think) == opening(chat));
    let p = prompt_text(m, tools, chat);
    let q = prompt_text(m, tools, think);
    assert(p =~= base + answer_opening(false));
    assert(q =~= base + answer_opening(true));
    assert(p.take(p.len() - answer_opening(false).len()) =~= base);
}

proof fn calls_before_without(x: Seq<TurnView>, d: TurnView, y: Seq<TurnView>, j: int)
    requires
        0 <= j <= y.len(),
        !calling(d),
    ensures
        calls_before(x.push(d) + y, x.len() + 1 + j) == calls_before(x + y, x.len() + j),
    decreases j,
{
    let f = x.push(d) + y;
    let g = x + y;
    let k = x.len() as int;
    if j > 0 {
        calls_before_without(x, d, y, j - 1);
        assert(f[k + j] == y[j - 1] && g[k + j - 1] == y[j - 1]);
    } else {
        assert(f[k] == d);
        same_calls(f, g, k);
    }
}

proof fn same_calls(f: Seq<TurnView>, g: Seq<TurnView>, i: int)
    requires
        i <= f.len(),
        i <= g.len(),
        forall|j: int| 0 <= j < i ==> #[trigger] f[j] == g[j],
    ensures
        calls_before(f, i) == calls_before(g, i),
    decreases i,
{
    if i > 0 {
        same_calls(f, g, i - 1);
        assert(f[i - 1] == g[i - 1]);
    }
}

/// In thinking mode without tools, a message of a developer or of an unknown role is not
/// there, when a message of the user's side comes later: the prompt is that without it. It
/// must not stand between messages that would join in its absence, nor be the first.
#[verifier::rlimit(60)]
#[verifier::spinoff_prover]
pub proof fn dropped_message(
    a: Seq<JsonView>,
    message: JsonView,
    b: Seq<JsonView>,
    k: int,
    tools: Option<JsonView>,
    opts: RenderOpts,
)
    requires
        !remains(message),
        a.len() > 0,
        0 <= k < b.len(),
        on_user_side(b[k]),
        !joins(b[0]),
        !drops_nothing(tools, opts),
    ensures
        prompt_text(JsonView::Array(a.push(message) + b), tools, opts) == prompt_text(
            JsonView::Array(a + b),
            tools,
            opts,
        ),
{
    roles_differ();
    empty_is_no_role();
    let rest = b.drop_first();
    let none = Seq::<JsonView>::empty();
    merged_apart(a, message, b);
    merged_apart(a, b[0], rest);
    merged_apart(none, b[0], rest);
    assert(a.push(b[0]) + rest =~= a + b);
    assert(none.push(b[0]) + rest =~= b);
    assert(merged(none) =~= Seq::<TurnView>::empty());
    first_role(a);
    let x = merged(a);
    let d = turn_of(message);
    let y = merged(b);
    assert(merged(a + b) =~= x + y);
    assert(merged(a.push(message) + b) == x.push(d) + y);
    let fx = with_system(x);
    let f = fx.push(d) + y;
    let g = fx + y;
    assert(with_system(x.push(d) + y) =~= f) by {
        assert((x.push(d) + y)[0] == x[0]);
    }
    assert(with_system(x + y) =~= g) by {
        assert((x + y)[0] == x[0]);
    }
    let n = fx.len() as int;
    let of = ordered(f);
    let og = ordered(g);
    let p = og.take(n);
    let z = og.skip(n);
    assert(og =~= p + z);
    assert(of =~= p.push(d) + z) by {
        assert forall|i: int| 0 <= i < of.len() implies of[i] == (p.push(d) + z)[i] by {
            if i <= n {
                assert forall|j: int| 0 <= j < i implies #[trigger] f[j] == g[j] by {
                    if i <= n {
                        assert(f[j] == fx[j] && g[j] == fx[j]);
                    }
                }
                same_calls(f, g, i);
                if i < n {
                    assert(f[i] == fx[i] && g[i] == fx[i]);
                } else {
                    assert(f[i] == d);
                    assert(d.blocks is None);
                }
            } else {
                calls_before_without(fx, d, y, i - n - 1);
                assert(f[i] == y[i - n - 1] && g[i - 1] == y[i - n - 1]);
            }
        }
    }
    last_of_run(b, k);
    last_stays(b, k, b.len() as int);
    assert(b.take(b.len() as int) =~= b);
    let u = merged(b.take(k + 1)).len() - 1;
    assert(user_role(y[u].role));
    ordered_keeps(g, n + u);
    assert(z[u].role == y[u].role);
    last_user_is_last(z);
    let l = last_user(z);
    assert(l >= u) by {
        if l < u {
            assert(!user_role(z[u].role));
        }
    }
    assert(last_of_users(z, l)) by {
        assert forall|i: int| l < i < z.len() implies (#[trigger] z[i]).role != "user"@
            && z[i].role != "developer"@ by {
            assert(!user_role(z[i].role));
        }
    }
    dropping_takes_turn(p, d, z, l);
    assert(tool_list(tools) is None);
    assert(shown_turns(JsonView::Array(a.push(message) + b), tools, opts) == without_thinking(of));
    assert(shown_turns(JsonView::Array(a + b), tools, opts) == without_thinking(og));
}

} // verus!
