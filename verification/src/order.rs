//! The tool results of a user turn in the order of the calls they answer.

use vstd::prelude::*;
use crate::text::same;
use crate::turns::{
    Block, BlockView, CallView, MergedMsg, ToolCall, TurnView, block_views, call_views, turn_views,
};

verus! {

/// The place of a call among `calls`: of the last one with this identifier, and 0 when
/// there is none.
pub open spec fn rank(calls: Seq<CallView>, id: Seq<char>) -> nat
    decreases calls.len(),
{
    if calls.len() == 0 || id.len() == 0 {
        0
    } else if calls.last().id == id {
        (calls.len() - 1) as nat
    } else {
        rank(calls.drop_last(), id)
    }
}

/// The place of the call that a block answers.
pub open spec fn block_rank(calls: Seq<CallView>, block: BlockView) -> nat {
    match block {
        BlockView::Text(_) => 0,
        BlockView::ToolResult { content, tool_use_id } => rank(calls, tool_use_id),
    }
}

/// Does some call have an identifier?
pub open spec fn identified(calls: Seq<CallView>) -> bool {
    exists|i: int| 0 <= i < calls.len() && (#[trigger] calls[i]).id.len() > 0
}

/// The tool results among `blocks`, in their order.
pub open spec fn results_of(blocks: Seq<BlockView>) -> Seq<BlockView>
    decreases blocks.len(),
{
    if blocks.len() == 0 {
        Seq::empty()
    } else if blocks.last() is ToolResult {
        results_of(blocks.drop_last()).push(blocks.last())
    } else {
        results_of(blocks.drop_last())
    }
}

/// `results` with one block more: after the ones of its rank and below, before the
/// ones of a higher rank that end the list.
pub open spec fn placed(
    calls: Seq<CallView>,
    results: Seq<BlockView>,
    block: BlockView,
) -> Seq<BlockView>
    decreases results.len(),
{
    if results.len() == 0 || block_rank(calls, results.last()) <= block_rank(calls, block) {
        results.push(block)
    } else {
        placed(calls, results.drop_last(), block).push(results.last())
    }
}

/// The results by rank; those of one rank keep their order.
pub open spec fn by_rank(calls: Seq<CallView>, results: Seq<BlockView>) -> Seq<BlockView>
    decreases results.len(),
{
    if results.len() == 0 {
        Seq::empty()
    } else {
        placed(calls, by_rank(calls, results.drop_last()), results.last())
    }
}

/// `blocks` with `results` in the slots of its tool results, one after the other.
pub open spec fn refilled(blocks: Seq<BlockView>, results: Seq<BlockView>) -> Seq<BlockView> {
    Seq::new(
        blocks.len(),
        |i: int|
            if blocks[i] is ToolResult {
                results[results_of(blocks.take(i)).len() as int]
            } else {
                blocks[i]
            },
    )
}

/// The blocks of a user turn, its tool results in the order of `calls`. Fewer than two
/// results, and results after calls without identifiers, stay as they are.
pub open spec fn ordered_blocks(calls: Seq<CallView>, blocks: Seq<BlockView>) -> Seq<BlockView> {
    if results_of(blocks).len() <= 1 || !identified(calls) {
        blocks
    } else {
        refilled(blocks, by_rank(calls, results_of(blocks)))
    }
}

/// Is this an assistant turn that calls tools?
pub open spec fn calling(turn: TurnView) -> bool {
    turn.role == "assistant"@ && turn.tool_calls.len() > 0
}

/// The calls of the last turn before `i` that makes some.
pub open spec fn calls_before(turns: Seq<TurnView>, i: int) -> Seq<CallView>
    decreases i,
{
    if i <= 0 {
        Seq::empty()
    } else if calling(turns[i - 1]) {
        turns[i - 1].tool_calls
    } else {
        calls_before(turns, i - 1)
    }
}

/// A turn with its tool results in the order of `calls`.
pub open spec fn ordered_turn(calls: Seq<CallView>, turn: TurnView) -> TurnView {
    match turn.blocks {
        Some(blocks) => if calling(turn) {
            turn
        } else {
            TurnView { blocks: Some(ordered_blocks(calls, blocks)), ..turn }
        },
        None => turn,
    }
}

/// The turns, each with its tool results in the order of the calls before it.
pub open spec fn ordered(turns: Seq<TurnView>) -> Seq<TurnView> {
    Seq::new(turns.len(), |i: int| ordered_turn(calls_before(turns, i), turns[i]))
}

impl Clone for Block {
    fn clone(&self) -> (r: Block)
        ensures
            r@ == self@,
    {
        match self {
            Block::Text(t) => Block::Text(t.clone()),
            Block::ToolResult { content, tool_use_id } => Block::ToolResult {
                content: content.clone(),
                tool_use_id: tool_use_id.clone(),
            },
        }
    }
}

/// The place of the last call with this identifier.
fn find_rank(calls: &Vec<ToolCall>, id: &str) -> (r: usize)
    ensures
        r == rank(call_views(calls@), id@),
{
    let ghost all = call_views(calls@);
    let mut found: usize = 0;
    if id.is_empty() {
        return 0;
    }
    let mut i: usize = 0;
    while i < calls.len()
        invariant
            i <= calls@.len(),
            id@.len() > 0,
            all == call_views(calls@),
            found == rank(all.take(i as int), id@),
        decreases calls@.len() - i,
    {
        proof {
            assert(all[i as int] == calls@[i as int]@);
            assert(all.take(i + 1).drop_last() =~= all.take(i as int));
            assert(all.take(i + 1).last() == calls@[i as int]@);
        }
        if same(calls[i].id.as_str(), id) {
            found = i;
        }
        i = i + 1;
    }
    proof {
        assert(all.take(i as int) =~= all);
    }
    found
}

fn find_block_rank(calls: &Vec<ToolCall>, block: &Block) -> (r: usize)
    ensures
        r == block_rank(call_views(calls@), block@),
{
    match block {
        Block::Text(_) => 0,
        Block::ToolResult { tool_use_id, .. } => find_rank(calls, tool_use_id.as_str()),
    }
}

fn any_identified(calls: &Vec<ToolCall>) -> (r: bool)
    ensures
        r == identified(call_views(calls@)),
{
    let mut i: usize = 0;
    while i < calls.len()
        invariant
            i <= calls@.len(),
            forall|j: int| 0 <= j < i ==> (#[trigger] call_views(calls@)[j]).id.len() == 0,
        decreases calls@.len() - i,
    {
        assert(call_views(calls@)[i as int] == calls@[i as int]@);
        if !calls[i].id.as_str().is_empty() {
            return true;
        }
        i = i + 1;
    }
    false
}

/// Where `placed` puts the block.
proof fn placed_at(calls: Seq<CallView>, results: Seq<BlockView>, block: BlockView, p: int)
    requires
        0 <= p <= results.len(),
        p > 0 ==> block_rank(calls, results[p - 1]) <= block_rank(calls, block),
        forall|j: int|
            p <= j < results.len() ==> block_rank(calls, #[trigger] results[j]) > block_rank(
                calls,
                block,
            ),
    ensures
        placed(calls, results, block) == results.insert(p, block),
    decreases results.len(),
{
    if p == results.len() {
        assert(results.insert(p, block) =~= results.push(block));
        if results.len() > 0 {
            assert(results[p - 1] == results.last());
        }
    } else {
        assert(results[results.len() - 1] == results.last());
        let front = results.drop_last();
        assert forall|j: int| p <= j < front.len() implies block_rank(calls, #[trigger] front[j])
            > block_rank(calls, block) by {
            assert(front[j] == results[j]);
        }
        placed_at(calls, front, block, p);
        assert(results.insert(p, block) =~= front.insert(p, block).push(results.last()));
    }
}

/// The tool results of `blocks` by rank.
fn sort_results(calls: &Vec<ToolCall>, blocks: &Vec<Block>) -> (r: Vec<Block>)
    ensures
        block_views(r@) == by_rank(call_views(calls@), results_of(block_views(blocks@))),
{
    let ghost cs = call_views(calls@);
    let ghost all = block_views(blocks@);
    let mut sorted: Vec<Block> = Vec::new();
    let mut i: usize = 0;
    proof {
        assert(results_of(all.take(0)) =~= Seq::<BlockView>::empty());
        assert(block_views(sorted@) =~= Seq::<BlockView>::empty());
    }
    while i < blocks.len()
        invariant
            i <= blocks@.len(),
            cs == call_views(calls@),
            all == block_views(blocks@),
            block_views(sorted@) == by_rank(cs, results_of(all.take(i as int))),
        decreases blocks@.len() - i,
    {
        let block = &blocks[i];
        proof {
            assert(all[i as int] == block@);
            assert(all.take(i + 1).drop_last() =~= all.take(i as int));
            assert(all.take(i + 1).last() == block@);
        }
        if let Block::ToolResult { .. } = block {
            let ghost before = block_views(sorted@);
            let key: usize = find_block_rank(calls, block);
            let mut p: usize = sorted.len();
            while p > 0 && find_block_rank(calls, &sorted[p - 1]) > key
                invariant
                    p <= sorted@.len(),
                    before == block_views(sorted@),
                    cs == call_views(calls@),
                    key == block_rank(cs, block@),
                    forall|j: int|
                        p <= j < before.len() ==> block_rank(cs, #[trigger] before[j]) > key,
                decreases p,
            {
                assert(before[p - 1] == sorted@[p - 1]@);
                p = p - 1;
            }
            proof {
                if p > 0 {
                    assert(before[p - 1] == sorted@[p - 1]@);
                }
            }
            let copy = block.clone();
            sorted.insert(p, copy);
            proof {
                placed_at(cs, before, block@, p as int);
                assert(block_views(sorted@) =~= before.insert(p as int, block@));
                let done = results_of(all.take(i as int));
                assert(done.push(block@).drop_last() =~= done);
            }
        }
        i = i + 1;
    }
    proof {
        assert(all.take(i as int) =~= all);
    }
    sorted
}

proof fn placed_len(calls: Seq<CallView>, results: Seq<BlockView>, block: BlockView)
    ensures
        placed(calls, results, block).len() == results.len() + 1,
    decreases results.len(),
{
    if results.len() > 0 {
        placed_len(calls, results.drop_last(), block);
    }
}

proof fn by_rank_len(calls: Seq<CallView>, results: Seq<BlockView>)
    ensures
        by_rank(calls, results).len() == results.len(),
    decreases results.len(),
{
    if results.len() > 0 {
        by_rank_len(calls, results.drop_last());
        placed_len(calls, by_rank(calls, results.drop_last()), results.last());
    }
}

/// A prefix has no more results than the whole.
proof fn results_monotone(blocks: Seq<BlockView>, i: int)
    requires
        0 <= i <= blocks.len(),
    ensures
        results_of(blocks.take(i)).len() <= results_of(blocks).len(),
    decreases blocks.len() - i,
{
    if i < blocks.len() {
        results_monotone(blocks, i + 1);
        assert(blocks.take(i + 1).drop_last() =~= blocks.take(i));
    } else {
        assert(blocks.take(i) =~= blocks);
    }
}

/// The blocks of a user turn, its tool results in the order of `calls`.
fn order_blocks(calls: &Vec<ToolCall>, blocks: &Vec<Block>) -> (r: Vec<Block>)
    ensures
        block_views(r@) == ordered_blocks(call_views(calls@), block_views(blocks@)),
{
    let ghost cs = call_views(calls@);
    let ghost all = block_views(blocks@);
    let sorted = sort_results(calls, blocks);
    let ghost target = by_rank(cs, results_of(all));
    proof {
        by_rank_len(cs, results_of(all));
    }
    let reorder = sorted.len() > 1 && any_identified(calls);
    let mut out: Vec<Block> = Vec::new();
    let mut next: usize = 0;
    let mut i: usize = 0;
    let ghost want = if reorder { refilled(all, target) } else { all };
    proof {
        assert(block_views(out@) =~= want.take(0));
        assert(all.take(0) =~= Seq::<BlockView>::empty());
    }
    while i < blocks.len()
        invariant
            i <= blocks@.len(),
            all == block_views(blocks@),
            block_views(sorted@) == target,
            target.len() == results_of(all).len(),
            want == (if reorder { refilled(all, target) } else { all }),
            want.len() == all.len(),
            next == results_of(all.take(i as int)).len(),
            block_views(out@) == want.take(i as int),
        decreases blocks@.len() - i,
    {
        proof {
            assert(all[i as int] == blocks@[i as int]@);
            assert(all.take(i + 1).drop_last() =~= all.take(i as int));
            assert(all.take(i + 1).last() == blocks@[i as int]@);
            results_monotone(all, i + 1);
            assert(block_views(sorted@).len() == sorted.len());
        }
        let is_result = matches!(&blocks[i], Block::ToolResult { .. });
        let block = if is_result && reorder {
            proof {
                assert(target[next as int] == sorted@[next as int]@);
            }
            sorted[next].clone()
        } else {
            blocks[i].clone()
        };
        if is_result {
            next = next + 1;
        }
        let ghost before = out@;
        out.push(block);
        proof {
            assert(block_views(out@) =~= block_views(before).push(block@));
            assert(want.take(i + 1) =~= want.take(i as int).push(want[i as int]));
        }
        i = i + 1;
    }
    proof {
        assert(want.take(i as int) =~= want);
    }
    out
}

/// Puts the tool results of each turn in the order of the calls before it. Text blocks
/// keep their slots.
pub fn sort_tool_results_by_call_order(turns: &mut Vec<MergedMsg>)
    ensures
        turn_views(final(turns)@) == ordered(turn_views(old(turns)@)),
{
    let ghost all = turn_views(turns@);
    let mut caller: Option<usize> = None;
    let n: usize = turns.len();
    let mut i: usize = 0;
    while i < n
        invariant
            i <= n == turns@.len() == all.len(),
            forall|j: int|
                0 <= j < i ==> (#[trigger] turns@[j])@ == ordered_turn(calls_before(all, j), all[j]),
            forall|j: int| i <= j < n ==> (#[trigger] turns@[j])@ == all[j],
            match caller {
                Some(c) => c < i && turns@[c as int]@.tool_calls == calls_before(all, i as int),
                None => calls_before(all, i as int) == Seq::<CallView>::empty(),
            },
        decreases n - i,
    {
        assert(turns@[i as int]@ == all[i as int]);
        if same(turns[i].role.as_str(), "assistant") && turns[i].tool_calls.len() > 0 {
            caller = Some(i);
        } else if let Some(c) = caller {
            if turns[i].blocks.is_some() {
                let ordered_now = match &turns[i].blocks {
                    Some(blocks) => order_blocks(&turns[c].tool_calls, blocks),
                    None => Vec::new(),
                };
                turns[i].blocks = Some(ordered_now);
                proof {
                    assert(turns@[i as int]@ == ordered_turn(
                        calls_before(all, i as int),
                        all[i as int],
                    ));
                }
            }
        } else {
            proof {
                assert(!identified(Seq::<CallView>::empty()));
            }
        }
        i = i + 1;
    }
    proof {
        assert(turn_views(turns@) =~= ordered(all));
    }
}

/// No result of a lower rank stands behind one of a higher rank.
pub open spec fn rank_sorted(calls: Seq<CallView>, results: Seq<BlockView>) -> bool {
    forall|i: int, j: int|
        0 <= i < j < results.len() ==> block_rank(calls, #[trigger] results[i]) <= block_rank(
            calls,
            #[trigger] results[j],
        )
}

/// The results of one rank, in their order.
pub open spec fn of_rank(calls: Seq<CallView>, results: Seq<BlockView>, k: nat) -> Seq<BlockView> {
    results.filter(|b: BlockView| block_rank(calls, b) == k)
}

proof fn filter_push(s: Seq<BlockView>, x: BlockView, p: spec_fn(BlockView) -> bool)
    ensures
        s.push(x).filter(p) == (if p(x) {
            s.filter(p).push(x)
        } else {
            s.filter(p)
        }),
{
    reveal(Seq::filter);
    assert(s.push(x).drop_last() =~= s);
}

proof fn placed_lawful(calls: Seq<CallView>, results: Seq<BlockView>, block: BlockView, k: nat)
    requires
        rank_sorted(calls, results),
    ensures
        rank_sorted(calls, placed(calls, results, block)),
        placed(calls, results, block).to_multiset() == results.to_multiset().insert(block),
        of_rank(calls, placed(calls, results, block), k) == of_rank(calls, results.push(block), k),
        forall|i: int|
            #![trigger placed(calls, results, block)[i]]
            0 <= i < placed(calls, results, block).len() ==> placed(calls, results, block)[i]
                == block || results.contains(placed(calls, results, block)[i]),
    decreases results.len(),
{
    let p = |b: BlockView| block_rank(calls, b) == k;
    let out = placed(calls, results, block);
    if results.len() == 0 || block_rank(calls, results.last()) <= block_rank(calls, block) {
        results.to_multiset_ensures();
        assert forall|i: int, j: int| 0 <= i < j < out.len() implies block_rank(
            calls,
            #[trigger] out[i],
        ) <= block_rank(calls, #[trigger] out[j]) by {
            if j == results.len() {
                let last = results.len() - 1;
                assert(block_rank(calls, results[i]) <= block_rank(calls, results[last]));
            } else {
                assert(block_rank(calls, results[i]) <= block_rank(calls, results[j]));
            }
        }
        assert forall|i: int| 0 <= i < out.len() implies out[i] == block || results.contains(
            #[trigger] out[i],
        ) by {
            if i < results.len() {
                assert(results[i] == out[i]);
            }
        }
    } else {
        let front = results.drop_last();
        let last = results.last();
        assert forall|i: int, j: int| 0 <= i < j < front.len() implies block_rank(
            calls,
            #[trigger] front[i],
        ) <= block_rank(calls, #[trigger] front[j]) by {
            assert(front[i] == results[i] && front[j] == results[j]);
        }
        placed_lawful(calls, front, block, k);
        let inner = placed(calls, front, block);
        assert(results =~= front.push(last));
        front.to_multiset_ensures();
        inner.to_multiset_ensures();
        assert(out.to_multiset() =~= results.to_multiset().insert(block));
        filter_push(inner, last, p);
        filter_push(front, block, p);
        filter_push(front, last, p);
        filter_push(results, block, p);
        assert(of_rank(calls, out, k) =~= of_rank(calls, results.push(block), k));
        assert forall|i: int| 0 <= i < out.len() implies out[i] == block || results.contains(
            #[trigger] out[i],
        ) by {
            if i < inner.len() {
                assert(out[i] == inner[i]);
                if inner[i] != block {
                    let w = choose|w: int| 0 <= w < front.len() && front[w] == inner[i];
                    assert(results[w] == inner[i]);
                }
            } else {
                assert(results[results.len() - 1] == out[i]);
            }
        }
        assert forall|i: int, j: int| 0 <= i < j < out.len() implies block_rank(
            calls,
            #[trigger] out[i],
        ) <= block_rank(calls, #[trigger] out[j]) by {
            if j < inner.len() {
                assert(out[i] == inner[i] && out[j] == inner[j]);
            } else {
                assert(out[j] == last);
                assert(out[i] == inner[i]);
                if inner[i] != block {
                    let w = choose|w: int| 0 <= w < front.len() && front[w] == inner[i];
                    assert(results[w] == inner[i]);
                    assert(block_rank(calls, results[w]) <= block_rank(
                        calls,
                        results[results.len() - 1],
                    ));
                }
            }
        }
    }
}

/// Ordering by rank is a stable sort: the outcome holds the same results, the ranks do
/// not fall, and the results of each rank keep their order.
pub proof fn by_rank_is_stable_sort(calls: Seq<CallView>, results: Seq<BlockView>, k: nat)
    ensures
        by_rank(calls, results).to_multiset() == results.to_multiset(),
        rank_sorted(calls, by_rank(calls, results)),
        of_rank(calls, by_rank(calls, results), k) == of_rank(calls, results, k),
    decreases results.len(),
{
    if results.len() > 0 {
        let front = results.drop_last();
        by_rank_is_stable_sort(calls, front, k);
        placed_lawful(calls, by_rank(calls, front), results.last(), k);
        front.to_multiset_ensures();
        assert(results =~= front.push(results.last()));
        let p = |b: BlockView| block_rank(calls, b) == k;
        filter_push(by_rank(calls, front), results.last(), p);
        filter_push(front, results.last(), p);
    } else {
        assert(results =~= Seq::<BlockView>::empty());
    }
}

proof fn results_are_results(blocks: Seq<BlockView>)
    ensures
        forall|i: int| 0 <= i < results_of(blocks).len() ==> #[trigger] results_of(blocks)[i]
            is ToolResult,
    decreases blocks.len(),
{
    if blocks.len() > 0 {
        results_are_results(blocks.drop_last());
    }
}

proof fn by_rank_results(calls: Seq<CallView>, results: Seq<BlockView>)
    requires
        forall|i: int| 0 <= i < results.len() ==> #[trigger] results[i] is ToolResult,
    ensures
        by_rank(calls, results).len() == results.len(),
        forall|i: int| 0 <= i < results.len() ==> #[trigger] by_rank(calls, results)[i]
            is ToolResult,
    decreases results.len(),
{
    by_rank_len(calls, results);
    if results.len() > 0 {
        let front = results.drop_last();
        assert forall|i: int| 0 <= i < front.len() implies #[trigger] front[i] is ToolResult by {
            assert(front[i] == results[i]);
        }
        by_rank_results(calls, front);
        by_rank_is_stable_sort(calls, front, 0);
        let sorted = by_rank(calls, front);
        placed_lawful(calls, sorted, results.last(), 0);
        let out = by_rank(calls, results);
        assert(results[results.len() - 1] is ToolResult);
        assert forall|i: int| 0 <= i < out.len() implies #[trigger] out[i] is ToolResult by {
            assert(out == placed(calls, sorted, results.last()));
            if out[i] != results.last() {
                assert(sorted.contains(out[i]));
            }
        }
    }
}

proof fn refilled_results(blocks: Seq<BlockView>, results: Seq<BlockView>, n: int)
    requires
        0 <= n <= blocks.len(),
        results.len() == results_of(blocks).len(),
        forall|i: int| 0 <= i < results.len() ==> #[trigger] results[i] is ToolResult,
    ensures
        results_of(refilled(blocks, results).take(n)) == results.take(
            results_of(blocks.take(n)).len() as int,
        ),
    decreases n,
{
    let out = refilled(blocks, results);
    results_monotone(blocks, n);
    if n > 0 {
        refilled_results(blocks, results, n - 1);
        assert(out.take(n).drop_last() =~= out.take(n - 1));
        assert(blocks.take(n).drop_last() =~= blocks.take(n - 1));
        assert(out.take(n).last() == out[n - 1]);
        assert(blocks.take(n).last() == blocks[n - 1]);
        let m = results_of(blocks.take(n - 1)).len() as int;
        if blocks[n - 1] is ToolResult {
            assert(out[n - 1] == results[m]);
            assert(results.take(m + 1) =~= results.take(m).push(results[m]));
        }
    } else {
        assert(results_of(out.take(0)) =~= results.take(0));
    }
}

/// Ordering the blocks of a turn moves tool results among their own slots alone: a text
/// block stays where it is, a slot that held a result holds one, and the results are the
/// same ones. Read in their order they are the old ones by rank, unless there are fewer
/// than two of them or no call has an identifier.
pub proof fn ordering_keeps_slots(calls: Seq<CallView>, blocks: Seq<BlockView>)
    ensures
        ordered_blocks(calls, blocks).len() == blocks.len(),
        forall|i: int|
            #![trigger ordered_blocks(calls, blocks)[i]]
            0 <= i < blocks.len() ==> if blocks[i] is Text {
                ordered_blocks(calls, blocks)[i] == blocks[i]
            } else {
                ordered_blocks(calls, blocks)[i] is ToolResult
            },
        results_of(ordered_blocks(calls, blocks)).to_multiset() == results_of(
            blocks,
        ).to_multiset(),
        results_of(ordered_blocks(calls, blocks)) == (if results_of(blocks).len() > 1
            && identified(calls) {
            by_rank(calls, results_of(blocks))
        } else {
            results_of(blocks)
        }),
{
    if results_of(blocks).len() > 1 && identified(calls) {
        let results = results_of(blocks);
        results_are_results(blocks);
        by_rank_results(calls, results);
        by_rank_is_stable_sort(calls, results, 0);
        let sorted = by_rank(calls, results);
        let out = ordered_blocks(calls, blocks);
        refilled_results(blocks, sorted, blocks.len() as int);
        assert(out.take(blocks.len() as int) =~= out);
        assert(blocks.take(blocks.len() as int) =~= blocks);
        assert(sorted.take(results.len() as int) =~= sorted);
        assert forall|i: int| 0 <= i < blocks.len() && blocks[i] is ToolResult implies (
        #[trigger] out[i]) is ToolResult by {
            results_monotone(blocks, i + 1);
            assert(blocks.take(i + 1).drop_last() =~= blocks.take(i));
            let m = results_of(blocks.take(i)).len() as int;
            assert(out[i] == sorted[m]);
        }
    }
}

/// The rank of an identifier is the place of the last call that has it.
pub proof fn rank_is_place(calls: Seq<CallView>, id: Seq<char>, i: int)
    requires
        0 <= i < calls.len(),
        calls[i].id == id,
        id.len() > 0,
        forall|j: int| i < j < calls.len() ==> (#[trigger] calls[j]).id != id,
    ensures
        rank(calls, id) == i,
    decreases calls.len(),
{
    if i < calls.len() - 1 {
        assert(calls[calls.len() - 1].id != id);
        assert(calls.drop_last()[i] == calls[i]);
        rank_is_place(calls.drop_last(), id, i);
    }
}

} // verus!
