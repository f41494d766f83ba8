//! Which turns, and whose thinking, a thinking-mode prompt leaves out.

use vstd::prelude::*;
use crate::text::same;
use crate::turns::{MergedMsg, TurnView, roles_differ, turn_views};

verus! {

/// Is this the role of a turn that the user side speaks?
pub open spec fn user_role(role: Seq<char>) -> bool {
    role == "user"@ || role == "developer"@
}

/// The place of the last user or developer turn, or -1 when there is none.
pub open spec fn last_user(turns: Seq<TurnView>) -> int
    decreases turns.len(),
{
    if turns.len() == 0 {
        -1
    } else if user_role(turns.last().role) {
        turns.len() - 1
    } else {
        last_user(turns.drop_last())
    }
}

/// `last_user` is a user turn with none after it.
pub proof fn last_user_is_last(turns: Seq<TurnView>)
    ensures
        -1 <= last_user(turns) < turns.len(),
        last_user(turns) >= 0 ==> user_role(turns[last_user(turns)].role),
        forall|i: int|
            last_user(turns) < i < turns.len() ==> !user_role((#[trigger] turns[i]).role),
    decreases turns.len(),
{
    if turns.len() > 0 && !user_role(turns.last().role) {
        let front = turns.drop_last();
        last_user_is_last(front);
        assert forall|i: int| last_user(turns) < i < turns.len() implies !user_role(
            (#[trigger] turns[i]).role,
        ) by {
            if i < front.len() {
                assert(front[i] == turns[i]);
            }
        }
    }
}

/// The place of a turn as `last_user` counts it.
pub open spec fn place(o: Option<usize>) -> int {
    match o {
        Some(i) => i as int,
        None => -1,
    }
}

/// Is this a role whose turns always stay?
pub open spec fn always_kept(role: Seq<char>) -> bool {
    role == "user"@ || role == "system"@ || role == "tool"@ || role == "latest_reminder"@ || role
        == "direct_search_results"@
}

/// What is left of turn `i`, where `last` is the last user turn: a turn at or after it
/// stays as it is; before it, a turn whose role is always kept stays, an assistant
/// turn stays without its thinking, and any other turn goes.
pub open spec fn left_of(turn: TurnView, i: int, last: int) -> Option<TurnView> {
    if always_kept(turn.role) || i >= last {
        Some(turn)
    } else if turn.role == "assistant"@ {
        Some(TurnView { reasoning_content: Seq::empty(), ..turn })
    } else {
        None
    }
}

/// What is left of the first `n` turns.
pub open spec fn left_of_first(turns: Seq<TurnView>, n: int, last: int) -> Seq<TurnView>
    decreases n,
{
    if n <= 0 {
        Seq::empty()
    } else {
        match left_of(turns[n - 1], n - 1, last) {
            Some(t) => left_of_first(turns, n - 1, last).push(t),
            None => left_of_first(turns, n - 1, last),
        }
    }
}

/// The turns without the thinking before the last user turn.
pub open spec fn without_thinking(turns: Seq<TurnView>) -> Seq<TurnView> {
    left_of_first(turns, turns.len() as int, last_user(turns))
}

fn is_user_role(role: &str) -> (r: bool)
    ensures
        r == user_role(role@),
{
    same(role, "user") || same(role, "developer")
}

/// The place of the last user or developer turn.
pub fn last_user_index(turns: &Vec<MergedMsg>) -> (r: Option<usize>)
    ensures
        place(r) == last_user(turn_views(turns@)),
{
    let ghost all = turn_views(turns@);
    let mut i: usize = turns.len();
    proof {
        assert(all.take(i as int) =~= all);
    }
    while i > 0
        invariant
            i <= turns@.len(),
            all == turn_views(turns@),
            last_user(all) == last_user(all.take(i as int)),
        decreases i,
    {
        proof {
            assert(all.take(i as int).last() == turns@[i - 1]@);
            assert(all.take(i as int).drop_last() =~= all.take(i - 1));
        }
        if is_user_role(turns[i - 1].role.as_str()) {
            return Some(i - 1);
        }
        i = i - 1;
    }
    None
}

/// The turns without the thinking before the last user turn: assistant turns before it
/// lose their thinking, developer turns and turns of unknown roles before it go.
pub fn drop_thinking_messages(turns: Vec<MergedMsg>) -> (r: Vec<MergedMsg>)
    ensures
        turn_views(r@) == without_thinking(turn_views(turns@)),
{
    let last = last_user_index(&turns);
    let ghost all = turn_views(turns@);
    let ghost given = turns@;
    let count: usize = turns.len();
    let mut out: Vec<MergedMsg> = Vec::new();
    let mut idx: usize = 0;
    proof {
        assert(turn_views(out@) =~= Seq::<TurnView>::empty());
    }
    for turn in it: turns.into_iter()
        invariant
            it.seq() == given,
            all == turn_views(given),
            idx == it.index(),
            given.len() == count,
            place(last) == last_user(all),
            turn_views(out@) == left_of_first(all, idx as int, place(last)),
    {
        proof {
            assert(all[idx as int] == turn@);
        }
        let role = turn.role.as_str();
        let kept = same(role, "user") || same(role, "system") || same(role, "tool") || same(
            role,
            "latest_reminder",
        ) || same(role, "direct_search_results");
        let current = match last {
            Some(l) => idx >= l,
            None => true,
        };
        let ghost before = out@;
        if kept || current {
            out.push(turn);
            proof {
                assert(turn_views(out@) =~= turn_views(before).push(turn@));
            }
        } else if same(role, "assistant") {
            let mut bare = turn;
            bare.reasoning_content = String::new();
            proof {
                assert(bare@ == TurnView { reasoning_content: Seq::empty(), ..turn@ });
            }
            out.push(bare);
            proof {
                assert(turn_views(out@) =~= turn_views(before).push(bare@));
            }
        }
        idx = idx + 1;
    }
    out
}

/// What is left of the turns from the last user turn on: all of it.
proof fn left_from(turns: Seq<TurnView>, n: int, last: int)
    requires
        0 <= last <= n <= turns.len(),
    ensures
        left_of_first(turns, n, last) == left_of_first(turns, last, last) + turns.subrange(last, n),
    decreases n,
{
    if n > last {
        left_from(turns, n - 1, last);
        assert(turns.subrange(last, n) =~= turns.subrange(last, n - 1).push(turns[n - 1]));
        assert(left_of_first(turns, n, last) =~= left_of_first(turns, last, last)
            + turns.subrange(last, n));
    } else {
        assert(left_of_first(turns, n, last) =~= left_of_first(turns, last, last)
            + turns.subrange(last, n));
    }
}

/// What is left before the last user turn: nothing with thinking of an assistant, and
/// nothing of the roles that go.
proof fn left_before(turns: Seq<TurnView>, n: int, last: int)
    requires
        0 <= n <= last,
        n <= turns.len(),
    ensures
        left_of_first(turns, n, last).len() <= n,
        forall|i: int|
            0 <= i < left_of_first(turns, n, last).len() ==> always_kept(
                (#[trigger] left_of_first(turns, n, last)[i]).role,
            ) || (left_of_first(turns, n, last)[i].role == "assistant"@ && left_of_first(
                turns,
                n,
                last,
            )[i].reasoning_content.len() == 0),
    decreases n,
{
    if n > 0 {
        left_before(turns, n - 1, last);
    }
}

/// Turns that are all as they would be left are left as they are.
proof fn left_unchanged(turns: Seq<TurnView>, n: int, last: int)
    requires
        0 <= n <= turns.len(),
        forall|i: int|
            0 <= i < n && i < last ==> always_kept((#[trigger] turns[i]).role) || (turns[i].role
                == "assistant"@ && turns[i].reasoning_content.len() == 0),
    ensures
        left_of_first(turns, n, last) == turns.take(n),
    decreases n,
{
    if n > 0 {
        left_unchanged(turns, n - 1, last);
        let turn = turns[n - 1];
        assert(turn.reasoning_content.len() == 0 ==> turn == TurnView {
            reasoning_content: Seq::empty(),
            ..turn
        });
        assert(turns.take(n) =~= turns.take(n - 1).push(turn));
    } else {
        assert(turns.take(n) =~= Seq::<TurnView>::empty());
    }
}

proof fn last_user_of(turns: Seq<TurnView>, l: int)
    requires
        0 <= l < turns.len(),
        user_role(turns[l].role),
        forall|i: int| l < i < turns.len() ==> !user_role((#[trigger] turns[i]).role),
    ensures
        last_user(turns) == l,
{
    last_user_is_last(turns);
    if last_user(turns) < l {
        assert(!user_role(turns[l].role));
    }
}

/// Dropping keeps the turns from the last user turn on word for word, at the end. Of
/// what it keeps before them, no assistant turn has thinking and no turn is a
/// developer's.
pub proof fn dropping_keeps_current(turns: Seq<TurnView>)
    requires
        last_user(turns) >= 0,
    ensures
        ({
            let last = last_user(turns);
            let out = without_thinking(turns);
            let p = out.len() - (turns.len() - last);
            &&& 0 <= p <= last
            &&& out.skip(p) == turns.skip(last)
            &&& last_user(out) == p
            &&& forall|i: int|
                0 <= i < p ==> (#[trigger] out[i]).role != "developer"@ && (out[i].role
                    == "assistant"@ ==> out[i].reasoning_content.len() == 0)
        }),
{
    roles_differ();
    let last = last_user(turns);
    last_user_is_last(turns);
    let n = turns.len() as int;
    let head = left_of_first(turns, last, last);
    let out = without_thinking(turns);
    left_from(turns, n, last);
    left_before(turns, last, last);
    assert(out.skip(head.len() as int) =~= turns.skip(last));
    assert(out[head.len() as int] == turns[last]);
    assert forall|i: int| head.len() < i < out.len() implies !user_role(
        (#[trigger] out[i]).role,
    ) by {
        assert(out[i] == turns[i - head.len() + last]);
    }
    last_user_of(out, head.len() as int);
    assert forall|i: int| 0 <= i < head.len() implies (#[trigger] out[i]).role != "developer"@ && (
    out[i].role == "assistant"@ ==> out[i].reasoning_content.len() == 0) by {
        assert(out[i] == head[i]);
    }
}

/// Dropping twice is dropping once.
pub proof fn dropping_twice(turns: Seq<TurnView>)
    ensures
        without_thinking(without_thinking(turns)) == without_thinking(turns),
{
    roles_differ();
    let last = last_user(turns);
    last_user_is_last(turns);
    let n = turns.len() as int;
    if last >= 0 {
        dropping_keeps_current(turns);
        left_from(turns, n, last);
        left_before(turns, last, last);
        let head = left_of_first(turns, last, last);
        let out = without_thinking(turns);
        assert forall|i: int| 0 <= i < head.len() implies always_kept((#[trigger] out[i]).role) || (
        out[i].role == "assistant"@ && out[i].reasoning_content.len() == 0) by {
            assert(out[i] == head[i]);
        }
        left_unchanged(out, out.len() as int, last_user(out));
        assert(out.take(out.len() as int) =~= out);
    } else {
        left_unchanged(turns, n, last);
        assert(turns.take(n) =~= turns);
    }
}

/// Without a user turn nothing is dropped.
pub proof fn dropping_needs_user(turns: Seq<TurnView>)
    requires
        last_user(turns) < 0,
    ensures
        without_thinking(turns) == turns,
{
    left_unchanged(turns, turns.len() as int, last_user(turns));
    assert(turns.take(turns.len() as int) =~= turns);
}

/// A first turn whose role is always kept stays first.
pub proof fn dropping_keeps_first(turns: Seq<TurnView>, n: int, last: int)
    requires
        1 <= n <= turns.len(),
        always_kept(turns[0].role),
    ensures
        left_of_first(turns, n, last).len() > 0,
        left_of_first(turns, n, last)[0] == turns[0],
    decreases n,
{
    if n > 1 {
        dropping_keeps_first(turns, n - 1, last);
    } else {
        assert(left_of_first(turns, 0, last) =~= Seq::<TurnView>::empty());
        assert(left_of(turns[0], 0, last) == Some(turns[0]));
    }
}

} // verus!
