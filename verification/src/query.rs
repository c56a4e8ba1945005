//! Read queries: one transaction by identifier, the global transaction list
//! and the transaction list of one owner.

use vstd::prelude::*;
use crate::cursor::{SortedTxCursor, TxPointer};
use crate::page::{
    build_page, bytes_of, cursors_of, distinct_cursors, entries_from, has_more, kept,
    lemma_next_page_follows, page_edges, plan_of, plan_page, Page, PageError, PagePlan,
};
use crate::status::StoreError;
use crate::walker::{
    distinct_blocks, flat_cursors, lemma_scan_has_no_duplicates, prefix, skip_until, sorted_tx_walk,
    Block, Direction,
};

verus! {

/// The read queries on transactions.
#[derive(Default)]
pub struct TxQuery;

impl TxQuery {
    /// One transaction: the pool's copy if the pool holds it, else the
    /// store's. A transaction that neither holds is no error, but nothing.
    pub fn transaction<T>(pooled: Option<T>, stored: Result<T, StoreError>) -> (r: Result<
        Option<T>,
        StoreError,
    >)
        ensures
            r == match (pooled, stored) {
                (Some(tx), _) => Ok::<Option<T>, StoreError>(Some(tx)),
                (None, Ok(tx)) => Ok(Some(tx)),
                (None, Err(StoreError::NotFound)) => Ok(None),
                (None, Err(StoreError::Other)) => Err(StoreError::Other),
            },
    {
        match pooled {
            Some(tx) => Ok(Some(tx)),
            None => match stored {
                Ok(tx) => Ok(Some(tx)),
                Err(StoreError::NotFound) => Ok(None),
                Err(StoreError::Other) => Err(StoreError::Other),
            },
        }
    }

    /// The plan for a page of the global list, which can be walked in both
    /// directions.
    pub fn plan_transactions(
        after: &Option<Vec<u8>>,
        before: &Option<Vec<u8>>,
        first: Option<i32>,
        last: Option<i32>,
    ) -> (r: Result<PagePlan<SortedTxCursor>, PageError>)
        ensures
            r == plan_of::<SortedTxCursor>(bytes_of(*after), bytes_of(*before), first, last, true),
            !(r matches Err(PageError::Unsupported)),
    {
        plan_page::<SortedTxCursor>(after, before, first, last, true)
    }

    /// The walk for a page of the global list. `blocks` holds the blocks as
    /// the store yields them in the plan's direction, from the block of the
    /// plan's starting cursor on. The result begins with the starting cursor
    /// itself and holds no more than the plan's fetch bound.
    pub fn scan_transactions(plan: &PagePlan<SortedTxCursor>, blocks: &Vec<Block>) -> (out: Vec<
        SortedTxCursor,
    >)
        ensures
            out@ == prefix(
                skip_until(flat_cursors(blocks@, plan.direction), plan.start),
                plan.fetch_bound(),
            ),
    {
        sorted_tx_walk(blocks, plan.direction, &plan.start, plan.fetch_limit())
    }

    /// The page of the global list, from the entries of the walk.
    pub fn transactions<T>(plan: &PagePlan<SortedTxCursor>, entries: Vec<(SortedTxCursor, T)>) -> (page:
        Page<SortedTxCursor, T>)
        ensures
            page.edges@ == page_edges(entries@, *plan),
            plan.direction == Direction::Forward ==> {
                &&& page.has_next_page == has_more(entries@, plan.start, plan.count as int)
                &&& page.has_previous_page == (plan.start is Some)
            },
            plan.direction == Direction::Reverse ==> {
                &&& page.has_previous_page == has_more(entries@, plan.start, plan.count as int)
                &&& page.has_next_page == (plan.start is Some)
            },
    {
        build_page(plan, entries)
    }

    /// The plan for a page of one owner's list. That index has no reverse
    /// scan: a request for the last items is rejected as unsupported before
    /// anything else about it is looked at.
    pub fn plan_transactions_by_owner(
        after: &Option<Vec<u8>>,
        before: &Option<Vec<u8>>,
        first: Option<i32>,
        last: Option<i32>,
    ) -> (r: Result<PagePlan<TxPointer>, PageError>)
        ensures
            r == plan_of::<TxPointer>(bytes_of(*after), bytes_of(*before), first, last, false),
            last is Some ==> r == Err::<PagePlan<TxPointer>, PageError>(PageError::Unsupported),
            r is Ok ==> r->Ok_0.direction == Direction::Forward,
    {
        if let Some(n) = last {
            if n > 0 {
                return Err(PageError::Unsupported);
            }
        }
        plan_page::<TxPointer>(after, before, first, last, false)
    }

    /// The page of one owner's list, from the entries that the store yields
    /// from the plan's starting cursor on.
    pub fn transactions_by_owner<T>(plan: &PagePlan<TxPointer>, entries: Vec<(TxPointer, T)>) -> (page:
        Page<TxPointer, T>)
        ensures
            page.edges@ == page_edges(entries@, *plan),
            plan.direction == Direction::Forward ==> {
                &&& page.has_next_page == has_more(entries@, plan.start, plan.count as int)
                &&& page.has_previous_page == (plan.start is Some)
            },
            plan.direction == Direction::Reverse ==> {
                &&& page.has_previous_page == has_more(entries@, plan.start, plan.count as int)
                &&& page.has_next_page == (plan.start is Some)
            },
    {
        build_page(plan, entries)
    }
}

/// Paging through the global list, in either direction: over distinct
/// blocks, the page that begins after the last cursor of a page (both in scan
/// order) is exactly the run of entries that follows that cursor in the scan.
/// Its first cursor strictly follows the cursor paged on from, and none of its
/// entries is on the page before.
pub proof fn lemma_global_next_page_follows<T>(
    blocks: Seq<Block>,
    direction: Direction,
    all: Seq<(SortedTxCursor, T)>,
    start: Option<SortedTxCursor>,
    count: int,
    next_count: int,
) -> (k: int)
    requires
        distinct_blocks(blocks),
        cursors_of(all) == flat_cursors(blocks, direction),
        count > 0,
        next_count >= 0,
        kept(entries_from(all, start), start, count).len() > 0,
    ensures
        0 <= k < all.len(),
        all[k] == kept(entries_from(all, start), start, count).last(),
        kept(entries_from(all, Some(all[k].0)), Some(all[k].0), next_count) == prefix(
            all.skip(k + 1),
            next_count,
        ),
        forall|i: int, j: int|
            0 <= i < kept(entries_from(all, Some(all[k].0)), Some(all[k].0), next_count).len() && 0
                <= j < kept(entries_from(all, start), start, count).len() ==> kept(
                entries_from(all, Some(all[k].0)),
                Some(all[k].0),
                next_count,
            )[i].0 != kept(entries_from(all, start), start, count)[j].0,
{
    lemma_scan_has_no_duplicates(blocks, direction);
    assert(distinct_cursors(all)) by {
        let cs = cursors_of(all);
        assert forall|i: int, j: int| 0 <= i < j < all.len() implies all[i].0 != all[j].0 by {
            assert(cs[i] == all[i].0 && cs[j] == all[j].0);
        }
    }
    lemma_next_page_follows(all, start, count, next_count)
}

} // verus!
