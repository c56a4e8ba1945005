//! Directional range scans: the ordered sequence of cursors that a walk over
//! an index yields from a starting point.

use vstd::prelude::*;
use crate::cursor::{CursorKey, SortedTxCursor, TransactionId};

verus! {

/// Direction of a scan over an index.
#[derive(Clone, Copy, Debug, PartialEq, Eq, Structural)]
pub enum Direction {
    Forward,
    Reverse,
}

/// A block as the store hands it out: its height and the identifiers of its
/// transactions, in the order in which the block holds them.
#[derive(Debug, PartialEq, Eq)]
pub struct Block {
    pub height: u32,
    pub tx_ids: Vec<TransactionId>,
}

/// The cursors of one block in scan order: the block's own order when
/// scanning forward, exactly reversed when scanning in reverse.
pub open spec fn block_cursors(block: Block, direction: Direction) -> Seq<SortedTxCursor> {
    Seq::new(
        block.tx_ids@.len(),
        |i: int|
            SortedTxCursor {
                block_height: block.height,
                tx_id: if direction == Direction::Reverse {
                    block.tx_ids@[block.tx_ids@.len() - 1 - i]
                } else {
                    block.tx_ids@[i]
                },
            },
    )
}

/// The cursors of a run of blocks, block after block.
pub open spec fn flat_cursors(blocks: Seq<Block>, direction: Direction) -> Seq<SortedTxCursor>
    decreases blocks.len(),
{
    if blocks.len() == 0 {
        Seq::empty()
    } else {
        flat_cursors(blocks.drop_last(), direction) + block_cursors(blocks.last(), direction)
    }
}

/// `k` is the first place at which `c` stands in `s`.
pub open spec fn first_at<C>(s: Seq<C>, c: C, k: int) -> bool {
    &&& 0 <= k < s.len()
    &&& s[k] == c
    &&& forall|j: int| 0 <= j < k ==> s[j] != c
}

/// The first place at which `c` stands in `s`, if it stands there at all.
pub open spec fn first_index<C>(s: Seq<C>, c: C) -> int {
    choose|k: int| first_at(s, c, k)
}

/// What is left of a walk once everything before the starting cursor has been
/// discarded: the walk itself without a start; else the part that begins at
/// the first occurrence of the start, which is empty if it never occurs.
pub open spec fn skip_until<C>(s: Seq<C>, start: Option<C>) -> Seq<C> {
    match start {
        None => s,
        Some(c) => if exists|k: int| first_at(s, c, k) {
            s.skip(first_index(s, c))
        } else {
            Seq::empty()
        },
    }
}

/// The first `limit` items of `s`, or all of it if it is shorter.
pub open spec fn prefix<C>(s: Seq<C>, limit: int) -> Seq<C> {
    if limit <= 0 {
        Seq::empty()
    } else if limit < s.len() {
        s.take(limit)
    } else {
        s
    }
}

/// A first occurrence is unique.
pub proof fn lemma_first_at_unique<C>(s: Seq<C>, c: C, k1: int, k2: int)
    requires
        first_at(s, c, k1),
        first_at(s, c, k2),
    ensures
        k1 == k2,
{
}

/// A walk from a cursor begins at the first place at which the cursor stands.
pub proof fn lemma_skip_until_at<C>(s: Seq<C>, start: Option<C>, at: int)
    requires
        start is Some,
        first_at(s, start->0, at),
    ensures
        skip_until(s, start) == s.skip(at),
{
    lemma_first_at_unique(s, start->0, at, first_index(s, start->0));
}

/// A walk from a cursor that stands nowhere is empty.
pub proof fn lemma_skip_until_absent<C>(s: Seq<C>, start: Option<C>)
    requires
        start is Some,
        !s.contains(start->0),
    ensures
        skip_until(s, start) == Seq::<C>::empty(),
{
    if exists|k: int| first_at(s, start->0, k) {
        let k = choose|k: int| first_at(s, start->0, k);
        assert(s[k] == start->0);
    }
}

/// Scanning forward begins with the first block's cursors.
pub proof fn lemma_flat_cursors_front(blocks: Seq<Block>, direction: Direction)
    requires
        blocks.len() > 0,
    ensures
        flat_cursors(blocks, direction) == block_cursors(blocks[0], direction) + flat_cursors(
            blocks.skip(1),
            direction,
        ),
    decreases blocks.len(),
{
    if blocks.len() == 1 {
        assert(blocks.drop_last() =~= blocks.skip(1));
        assert(flat_cursors(blocks.skip(1), direction) =~= Seq::empty());
        assert(flat_cursors(blocks, direction) =~= block_cursors(blocks[0], direction)
            + flat_cursors(blocks.skip(1), direction));
    } else {
        lemma_flat_cursors_front(blocks.drop_last(), direction);
        assert(blocks.drop_last().skip(1) =~= blocks.skip(1).drop_last());
        assert(blocks.skip(1).last() == blocks.last());
        assert(flat_cursors(blocks, direction) =~= block_cursors(blocks[0], direction)
            + flat_cursors(blocks.skip(1), direction));
    }
}

/// A reverse scan is the forward scan read backwards: the blocks come in
/// reverse order, and so do the transactions inside each block.
pub proof fn lemma_reverse_scan_mirrors_forward(blocks: Seq<Block>)
    ensures
        flat_cursors(blocks.reverse(), Direction::Reverse) == flat_cursors(
            blocks,
            Direction::Forward,
        ).reverse(),
    decreases blocks.len(),
{
    if blocks.len() == 0 {
        assert(flat_cursors(blocks.reverse(), Direction::Reverse) =~= flat_cursors(
            blocks,
            Direction::Forward,
        ).reverse());
    } else {
        let rest = blocks.skip(1);
        lemma_reverse_scan_mirrors_forward(rest);
        lemma_flat_cursors_front(blocks, Direction::Forward);
        assert(blocks.reverse().drop_last() =~= rest.reverse());
        assert(blocks.reverse().last() == blocks[0]);
        let head = block_cursors(blocks[0], Direction::Forward);
        let tail = flat_cursors(rest, Direction::Forward);
        assert(block_cursors(blocks[0], Direction::Reverse) =~= head.reverse());
        assert((head + tail).reverse() =~= tail.reverse() + head.reverse());
    }
}

/// No two blocks have the same height, and no block holds a transaction twice.
pub open spec fn distinct_blocks(blocks: Seq<Block>) -> bool {
    &&& forall|a: int, b: int|
        0 <= a < b < blocks.len() ==> (#[trigger] blocks[a]).height != (#[trigger] blocks[b]).height
    &&& forall|b: int, i: int, j: int|
        0 <= b < blocks.len() && 0 <= i < j < blocks[b].tx_ids@.len() ==> (
        #[trigger] blocks[b].tx_ids@[i]) != (#[trigger] blocks[b].tx_ids@[j])
}

/// Every cursor of a scan carries the height of one of the blocks.
pub proof fn lemma_scan_heights(blocks: Seq<Block>, direction: Direction, k: int) -> (b: int)
    requires
        0 <= k < flat_cursors(blocks, direction).len(),
    ensures
        0 <= b < blocks.len(),
        flat_cursors(blocks, direction)[k].block_height == blocks[b].height,
    decreases blocks.len(),
{
    let before = flat_cursors(blocks.drop_last(), direction);
    if k < before.len() {
        lemma_scan_heights(blocks.drop_last(), direction, k)
    } else {
        assert(flat_cursors(blocks, direction)[k] == block_cursors(blocks.last(), direction)[k
            - before.len()]);
        blocks.len() - 1
    }
}

/// A scan over distinct blocks is free of duplicates: its cursors are
/// pairwise different, in either direction.
pub proof fn lemma_scan_has_no_duplicates(blocks: Seq<Block>, direction: Direction)
    requires
        distinct_blocks(blocks),
    ensures
        forall|i: int, j: int|
            0 <= i < j < flat_cursors(blocks, direction).len() ==> flat_cursors(blocks, direction)[i]
                != flat_cursors(blocks, direction)[j],
    decreases blocks.len(),
{
    if blocks.len() > 0 {
        let front = blocks.drop_last();
        let last = blocks.last();
        assert(distinct_blocks(front)) by {
            assert forall|a: int, b: int| 0 <= a < b < front.len() implies (#[trigger] front[a]).height
                != (#[trigger] front[b]).height by {
                assert(blocks[a].height != blocks[b].height);
            }
            assert forall|b: int, i: int, j: int|
                0 <= b < front.len() && 0 <= i < j < front[b].tx_ids@.len() implies (
            #[trigger] front[b].tx_ids@[i]) != (#[trigger] front[b].tx_ids@[j]) by {
                assert(blocks[b].tx_ids@[i] != blocks[b].tx_ids@[j]);
            }
        }
        lemma_scan_has_no_duplicates(front, direction);
        let before = flat_cursors(front, direction);
        let own = block_cursors(last, direction);
        let all = flat_cursors(blocks, direction);
        let n = last.tx_ids@.len() as int;
        assert forall|i: int, j: int| 0 <= i < j < all.len() implies all[i] != all[j] by {
            if j < before.len() {
                assert(all[i] == before[i] && all[j] == before[j]);
            } else if i < before.len() {
                let b = lemma_scan_heights(front, direction, i);
                assert(all[i] == before[i]);
                assert(all[j] == own[j - before.len()]);
                assert(blocks[b].height != blocks[blocks.len() - 1].height);
            } else {
                let x = i - before.len();
                let y = j - before.len();
                assert(all[i] == own[x] && all[j] == own[y]);
                if direction == Direction::Reverse {
                    assert(blocks[blocks.len() - 1].tx_ids@[n - 1 - y] != blocks[blocks.len()
                        - 1].tx_ids@[n - 1 - x]);
                } else {
                    assert(blocks[blocks.len() - 1].tx_ids@[x] != blocks[blocks.len() - 1].tx_ids@[y]);
                }
            }
        }
    }
}

/// The cursors of `blocks` in scan order. `blocks` holds the blocks in the
/// order in which the store yields them for `direction`.
pub fn flatten_blocks(blocks: &Vec<Block>, direction: Direction) -> (out: Vec<SortedTxCursor>)
    ensures
        out@ == flat_cursors(blocks@, direction),
{
    let mut out: Vec<SortedTxCursor> = Vec::new();
    let mut i: usize = 0;
    while i < blocks.len()
        invariant
            i <= blocks.len(),
            out@ == flat_cursors(blocks@.take(i as int), direction),
        decreases blocks.len() - i,
    {
        let block = &blocks[i];
        let n: usize = block.tx_ids.len();
        let ghost before = out@;
        let mut j: usize = 0;
        while j < n
            invariant
                j <= n,
                n == block.tx_ids@.len(),
                out@ == before + block_cursors(*block, direction).take(j as int),
            decreases n - j,
        {
            let tx_id = if direction == Direction::Reverse {
                block.tx_ids[n - 1 - j]
            } else {
                block.tx_ids[j]
            };
            out.push(SortedTxCursor { block_height: block.height, tx_id });
            j += 1;
            assert(out@ =~= before + block_cursors(*block, direction).take(j as int));
        }
        proof {
            assert(block_cursors(*block, direction).take(n as int) =~= block_cursors(
                *block,
                direction,
            ));
            assert(blocks@.take(i + 1).drop_last() =~= blocks@.take(i as int));
            assert(blocks@.take(i + 1).last() == *block);
        }
        i += 1;
    }
    assert(blocks@.take(blocks@.len() as int) =~= blocks@);
    out
}

/// Discards everything that precedes `start` in `walk` and keeps at most
/// `limit` of what follows, the starting cursor itself first.
pub fn walk_from<C: CursorKey + Copy>(walk: &Vec<C>, start: &Option<C>, limit: usize) -> (out: Vec<C>)
    ensures
        out@ == prefix(skip_until(walk@, *start), limit as int),
{
    let mut i: usize = 0;
    if let Some(c) = start {
        while i < walk.len() && !walk[i].same(c)
            invariant
                i <= walk.len(),
                forall|j: int| 0 <= j < i ==> walk@[j] != *c,
            decreases walk.len() - i,
        {
            i += 1;
        }
        proof {
            if i < walk.len() {
                lemma_skip_until_at(walk@, *start, i as int);
            } else {
                lemma_skip_until_absent(walk@, *start);
                assert(walk@.skip(i as int) =~= Seq::<C>::empty());
            }
        }
    } else {
        assert(walk@.skip(0) =~= walk@);
    }
    let ghost rest = walk@.skip(i as int);
    assert(rest == skip_until(walk@, *start));
    let mut out: Vec<C> = Vec::new();
    let mut n: usize = 0;
    while n < limit && i + n < walk.len()
        invariant
            i <= walk.len(),
            n <= limit,
            i + n <= walk.len(),
            rest == walk@.skip(i as int),
            out@ == rest.take(n as int),
        decreases limit - n,
    {
        out.push(walk[i + n]);
        n += 1;
        assert(out@ =~= rest.take(n as int));
    }
    assert(rest.take(rest.len() as int) =~= rest);
    assert(rest.take(0) =~= Seq::<C>::empty());
    out
}

/// The global transaction list from `start` on: the cursors of `blocks` in
/// scan order, without what precedes `start`, at most `limit` of them.
pub fn sorted_tx_walk(
    blocks: &Vec<Block>,
    direction: Direction,
    start: &Option<SortedTxCursor>,
    limit: usize,
) -> (out: Vec<SortedTxCursor>)
    ensures
        out@ == prefix(skip_until(flat_cursors(blocks@, direction), *start), limit as int),
{
    let all = flatten_blocks(blocks, direction);
    walk_from(&all, start, limit)
}

} // verus!
