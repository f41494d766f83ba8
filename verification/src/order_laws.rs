//! Which tool result stands where, for every turn of a conversation.

use vstd::prelude::*;
use crate::order::{
    block_rank, by_rank, by_rank_is_stable_sort, calls_before, ordered, ordering_keeps_slots, rank,
    rank_is_place, results_of,
};
use crate::turns::{BlockView, CallView, TurnView};

verus! {

/// Is `p` the place of the call that a result with this identifier answers? It is the last
/// call with the identifier, and the first place when there is none.
pub open spec fn answers(calls: Seq<CallView>, id: Seq<char>, p: int) -> bool {
    ||| {
        &&& id.len() > 0
        &&& 0 <= p < calls.len()
        &&& calls[p].id == id
        &&& forall|j: int| p < j < calls.len() ==> (#[trigger] calls[j]).id != id
    }
    ||| {
        &&& p == 0
        &&& id.len() == 0 || forall|j: int| 0 <= j < calls.len() ==> (#[trigger] calls[j]).id != id
    }
}

/// The identifier by which a block names its call.
pub open spec fn result_id(block: BlockView) -> Seq<char> {
    match block {
        BlockView::ToolResult { content, tool_use_id } => tool_use_id,
        BlockView::Text(_) => Seq::empty(),
    }
}

/// The tool results among blocks.
pub open spec fn results_among(blocks: Seq<BlockView>) -> Seq<BlockView> {
    blocks.filter(|b: BlockView| b is ToolResult)
}

/// Does the turn call tools?
pub open spec fn makes_calls(turn: TurnView) -> bool {
    turn.role == "assistant"@ && turn.tool_calls.len() > 0
}

/// Is turn `c` the nearest one before `i` that calls tools?
pub open spec fn nearest_caller(turns: Seq<TurnView>, c: int, i: int) -> bool {
    &&& 0 <= c < i <= turns.len()
    &&& makes_calls(turns[c])
    &&& forall|k: int| c < k < i ==> !makes_calls(#[trigger] turns[k])
}

proof fn rank_unmatched(calls: Seq<CallView>, id: Seq<char>)
    requires
        forall|j: int| 0 <= j < calls.len() ==> (#[trigger] calls[j]).id != id,
    ensures
        rank(calls, id) == 0,
    decreases calls.len(),
{
    if calls.len() > 0 {
        assert(calls[calls.len() - 1].id != id);
        let front = calls.drop_last();
        assert forall|j: int| 0 <= j < front.len() implies (#[trigger] front[j]).id != id by {
            assert(front[j] == calls[j]);
        }
        rank_unmatched(front, id);
    }
}

proof fn rank_bounds(calls: Seq<CallView>, id: Seq<char>)
    ensures
        answers(calls, id, rank(calls, id) as int),
    decreases calls.len(),
{
    if calls.len() > 0 && id.len() > 0 {
        if calls.last().id != id {
            let front = calls.drop_last();
            rank_bounds(front, id);
            let p = rank(calls, id) as int;
            if front.len() > 0 && p < front.len() && front[p].id == id {
                assert(calls[p] == front[p]);
                assert forall|j: int| p < j < calls.len() implies (#[trigger] calls[j]).id != id by {
                    if j < front.len() {
                        assert(front[j] == calls[j]);
                    }
                }
            } else {
                assert forall|j: int| 0 <= j < calls.len() implies (
                #[trigger] calls[j]).id != id by {
                    if j < front.len() {
                        assert(front[j] == calls[j]);
                    }
                }
            }
        }
    }
}

proof fn answers_rank(calls: Seq<CallView>, id: Seq<char>, p: int)
    ensures
        answers(calls, id, p) <==> p == rank(calls, id),
{
    rank_bounds(calls, id);
    if answers(calls, id, p) {
        if id.len() > 0 && 0 <= p < calls.len() && calls[p].id == id && (forall|j: int|
            p < j < calls.len() ==> (#[trigger] calls[j]).id != id) {
            rank_is_place(calls, id, p);
        } else if id.len() > 0 {
            rank_unmatched(calls, id);
        }
    }
}

proof fn filter_agrees(
    s: Seq<BlockView>,
    p: spec_fn(BlockView) -> bool,
    q: spec_fn(BlockView) -> bool,
)
    requires
        forall|i: int| 0 <= i < s.len() ==> p(#[trigger] s[i]) == q(s[i]),
    ensures
        s.filter(p) == s.filter(q),
    decreases s.len(),
{
    reveal(Seq::filter);
    if s.len() > 0 {
        let front = s.drop_last();
        assert forall|i: int| 0 <= i < front.len() implies p(#[trigger] front[i]) == q(
            front[i],
        ) by {
            assert(front[i] == s[i]);
        }
        filter_agrees(front, p, q);
        assert(p(s[s.len() - 1]) == q(s[s.len() - 1]));
    }
}

proof fn results_filter(blocks: Seq<BlockView>)
    ensures
        results_of(blocks) == results_among(blocks),
        forall|i: int| 0 <= i < results_of(blocks).len() ==> #[trigger] results_of(blocks)[i]
            is ToolResult,
    decreases blocks.len(),
{
    reveal(Seq::filter);
    if blocks.len() > 0 {
        results_filter(blocks.drop_last());
    }
}

proof fn calls_of_nearest(turns: Seq<TurnView>, c: int, i: int)
    requires
        nearest_caller(turns, c, i),
    ensures
        calls_before(turns, i) == turns[c].tool_calls,
    decreases i,
{
    if i > c + 1 {
        assert(!makes_calls(turns[i - 1]));
        calls_of_nearest(turns, c, i - 1);
    }
}

proof fn no_calls_before(turns: Seq<TurnView>, i: int)
    requires
        i <= turns.len(),
        forall|k: int| 0 <= k < i ==> !makes_calls(#[trigger] turns[k]),
    ensures
        calls_before(turns, i) == Seq::<CallView>::empty(),
    decreases i,
{
    if i > 0 {
        assert(!makes_calls(turns[i - 1]));
        no_calls_before(turns, i - 1);
    }
}

/// Of every turn with blocks, wherever it stands: with two results or more, after a nearest
/// calling turn some call of which has an identifier, the results stand in the order of the
/// calls that they answer. Results that answer one call keep their order, nothing is lost,
/// and texts keep their places.
pub proof fn results_follow_calls(
    turns: Seq<TurnView>,
    c: int,
    i: int,
    k: int,
    x: int,
    y: int,
    p: int,
    q: int,
)
    requires
        nearest_caller(turns, c, i),
        i < turns.len(),
        0 <= k < turns[c].tool_calls.len(),
        turns[c].tool_calls[k].id.len() > 0,
        turns[i].blocks is Some,
        !makes_calls(turns[i]),
        results_among(turns[i].blocks->0).len() > 1,
    ensures
        ({
            let calls = turns[c].tool_calls;
            let given = turns[i].blocks->0;
            let out = ordered(turns)[i].blocks->0;
            let results = results_among(out);
            &&& ordered(turns).len() == turns.len()
            &&& ordered(turns)[i].blocks is Some
            &&& out.len() == given.len()
            &&& forall|j: int|
                #![trigger out[j]]
                0 <= j < given.len() ==> if given[j] is Text {
                    out[j] == given[j]
                } else {
                    out[j] is ToolResult
                }
            &&& results.to_multiset() == results_among(given).to_multiset()
            &&& results.len() == results_among(given).len()
            &&& 0 <= x < y < results.len() && answers(calls, result_id(results[x]), p) && answers(
                calls,
                result_id(results[y]),
                q,
            ) ==> p <= q
            &&& results.filter(|b: BlockView| answers(calls, result_id(b), p)) == results_among(
                given,
            ).filter(|b: BlockView| answers(calls, result_id(b), p))
        }),
{
    let calls = turns[c].tool_calls;
    let given = turns[i].blocks->0;
    let out = ordered(turns)[i].blocks->0;
    calls_of_nearest(turns, c, i);
    results_filter(given);
    results_filter(out);
    ordering_keeps_slots(calls, given);
    let before = results_of(given);
    let after = results_of(out);
    assert(after == by_rank(calls, before));
    let rp = if p >= 0 { p as nat } else { 0 };
    by_rank_is_stable_sort(calls, before, rp);
    before.to_multiset_ensures();
    after.to_multiset_ensures();
    if 0 <= x < y < after.len() {
        answers_rank(calls, result_id(after[x]), p);
        answers_rank(calls, result_id(after[y]), q);
        assert(block_rank(calls, after[x]) <= block_rank(calls, after[y]));
    }
    let f = |b: BlockView| answers(calls, result_id(b), p);
    if p >= 0 {
        let g = |b: BlockView| block_rank(calls, b) == rp;
        assert forall|j: int| 0 <= j < before.len() implies f(#[trigger] before[j]) == g(
            before[j],
        ) by {
            answers_rank(calls, result_id(before[j]), p);
        }
        assert forall|j: int| 0 <= j < after.len() implies f(#[trigger] after[j]) == g(
            after[j],
        ) by {
            answers_rank(calls, result_id(after[j]), p);
        }
        filter_agrees(before, f, g);
        filter_agrees(after, f, g);
    } else {
        let g = |b: BlockView| false;
        assert forall|j: int| 0 <= j < before.len() implies f(#[trigger] before[j]) == g(
            before[j],
        ) by {
            answers_rank(calls, result_id(before[j]), p);
        }
        assert forall|j: int| 0 <= j < after.len() implies f(#[trigger] after[j]) == g(
            after[j],
        ) by {
            answers_rank(calls, result_id(after[j]), p);
        }
        filter_agrees(before, f, g);
        filter_agrees(after, f, g);
        filter_nothing(before);
        filter_nothing(after);
    }
}

proof fn filter_nothing(s: Seq<BlockView>)
    ensures
        s.filter(|b: BlockView| false) == Seq::<BlockView>::empty(),
    decreases s.len(),
{
    reveal(Seq::filter);
    if s.len() > 0 {
        filter_nothing(s.drop_last());
    }
}

/// A turn stays as it is when it has no blocks, or calls tools itself, or has at most one
/// result, or when no turn before it calls tools, or the nearest that does names none of its
/// calls. Of every turn all but the blocks stays.
pub proof fn other_turns_stay(turns: Seq<TurnView>, c: int, i: int)
    requires
        0 <= i < turns.len(),
    ensures
        turns[i].blocks is None ==> ordered(turns)[i] == turns[i],
        makes_calls(turns[i]) ==> ordered(turns)[i] == turns[i],
        turns[i].blocks is Some && results_among(turns[i].blocks->0).len() <= 1 ==> ordered(
            turns,
        )[i] == turns[i],
        (forall|k: int| 0 <= k < i ==> !makes_calls(#[trigger] turns[k])) ==> ordered(turns)[i]
            == turns[i],
        nearest_caller(turns, c, i) && (forall|k: int|
            0 <= k < turns[c].tool_calls.len() ==> (#[trigger] turns[c].tool_calls[k]).id.len()
                == 0) ==> ordered(turns)[i] == turns[i],
        ordered(turns)[i] == (TurnView { blocks: ordered(turns)[i].blocks, ..turns[i] }),
{
    if turns[i].blocks is Some {
        results_filter(turns[i].blocks->0);
    }
    if forall|k: int| 0 <= k < i ==> !makes_calls(#[trigger] turns[k]) {
        no_calls_before(turns, i);
    }
    if nearest_caller(turns, c, i) {
        calls_of_nearest(turns, c, i);
    }
}

} // verus!
