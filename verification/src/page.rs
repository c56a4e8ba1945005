//! Connection pagination: from the four paging arguments to a plan for the
//! walk, and from what the walk yielded to a page with its two flags.

use vstd::prelude::*;
use crate::cursor::CursorKey;
use crate::vectors::reversed;
use crate::walker::{first_at, first_index, lemma_first_at_unique, prefix, skip_until, Direction};

verus! {

/// Number of items on a page when the request names none.
pub const DEFAULT_PAGE_SIZE: usize = 10;

/// Why a page request is rejected.
#[derive(Clone, Copy, Debug, PartialEq, Eq, Structural)]
pub enum PageError {
    /// A reverse walk was requested on an index that offers none.
    Unsupported,
    /// The arguments contradict each other, or a count is negative.
    Invalid,
    /// The starting cursor is malformed.
    Decode,
}

/// What a page request asks of the walk.
#[derive(Debug, PartialEq, Eq)]
pub struct PagePlan<C> {
    /// The cursor after which (forward) or before which (reverse) the page begins.
    pub start: Option<C>,
    pub direction: Direction,
    /// The number of items that the page may hold.
    pub count: usize,
}

/// A page: its items in forward order, each with its cursor, and whether
/// further items exist on either side.
#[derive(Debug, PartialEq, Eq)]
pub struct Page<C, T> {
    pub edges: Vec<(C, T)>,
    pub has_previous_page: bool,
    pub has_next_page: bool,
}

/// The direction that the arguments ask for: `last` or, without a count,
/// `before` ask for a reverse walk; everything else for a forward one.
pub open spec fn requested_direction(first: Option<i32>, last: Option<i32>, before: bool) -> Direction {
    if last is Some {
        Direction::Reverse
    } else if first is Some {
        Direction::Forward
    } else if before {
        Direction::Reverse
    } else {
        Direction::Forward
    }
}

/// The arguments contradict each other: two counts, a negative count, or a
/// cursor on the far side of the requested direction.
pub open spec fn contradictory(
    first: Option<i32>,
    last: Option<i32>,
    after: bool,
    before: bool,
) -> bool {
    ||| first is Some && last is Some
    ||| first is Some && first->0 < 0
    ||| last is Some && last->0 < 0
    ||| requested_direction(first, last, before) == Direction::Forward && before
    ||| requested_direction(first, last, before) == Direction::Reverse && after
}

/// The requested count, or the default page size.
pub open spec fn requested_count(first: Option<i32>, last: Option<i32>) -> int {
    if first is Some {
        first->0 as int
    } else if last is Some {
        last->0 as int
    } else {
        DEFAULT_PAGE_SIZE as int
    }
}

/// The bytes of an optional encoded cursor.
pub open spec fn bytes_of(c: Option<Vec<u8>>) -> Option<Seq<u8>> {
    match c {
        Some(v) => Some(v@),
        None => None,
    }
}

/// The plan for a request, or the reason for which it is rejected. A reverse
/// walk on an index that has none is rejected before anything else is looked
/// at, contradictory arguments next, a malformed cursor last.
pub open spec fn plan_of<C: CursorKey>(
    after: Option<Seq<u8>>,
    before: Option<Seq<u8>>,
    first: Option<i32>,
    last: Option<i32>,
    supports_reverse: bool,
) -> Result<PagePlan<C>, PageError> {
    let direction = requested_direction(first, last, before is Some);
    let encoded = if direction == Direction::Forward {
        after
    } else {
        before
    };
    if direction == Direction::Reverse && !supports_reverse {
        Err(PageError::Unsupported)
    } else if contradictory(first, last, after is Some, before is Some) {
        Err(PageError::Invalid)
    } else if encoded is Some && C::decoding(encoded->0) is None {
        Err(PageError::Decode)
    } else {
        Ok(
            PagePlan {
                start: if encoded is Some {
                    C::decoding(encoded->0)
                } else {
                    None
                },
                direction,
                count: requested_count(first, last) as usize,
            },
        )
    }
}

/// Turns the paging arguments into a plan for the walk.
pub fn plan_page<C: CursorKey>(
    after: &Option<Vec<u8>>,
    before: &Option<Vec<u8>>,
    first: Option<i32>,
    last: Option<i32>,
    supports_reverse: bool,
) -> (r: Result<PagePlan<C>, PageError>)
    ensures
        r == plan_of::<C>(bytes_of(*after), bytes_of(*before), first, last, supports_reverse),
{
    let direction = if last.is_some() {
        Direction::Reverse
    } else if first.is_some() {
        Direction::Forward
    } else if before.is_some() {
        Direction::Reverse
    } else {
        Direction::Forward
    };
    if direction == Direction::Reverse && !supports_reverse {
        return Err(PageError::Unsupported);
    }
    if first.is_some() && last.is_some() {
        return Err(PageError::Invalid);
    }
    let count: usize = match (first, last) {
        (Some(n), _) => {
            if n < 0 {
                return Err(PageError::Invalid);
            }
            n as usize
        },
        (None, Some(n)) => {
            if n < 0 {
                return Err(PageError::Invalid);
            }
            n as usize
        },
        (None, None) => DEFAULT_PAGE_SIZE,
    };
    let (near, far) = if direction == Direction::Forward {
        (after, before)
    } else {
        (before, after)
    };
    if far.is_some() {
        return Err(PageError::Invalid);
    }
    let start = match near {
        Some(bytes) => {
            match C::decode(bytes) {
                Some(c) => Some(c),
                None => {
                    return Err(PageError::Decode);
                },
            }
        },
        None => None,
    };
    Ok(PagePlan { start, direction, count })
}

impl<C> PagePlan<C> {
    /// How many items to ask of the walk: the page, one more to see whether
    /// anything follows, and the starting cursor itself where there is one.
    pub open spec fn fetch_bound(&self) -> int {
        let wanted = self.count + 1 + if self.start is Some { 1int } else { 0int };
        if wanted <= usize::MAX {
            wanted
        } else {
            usize::MAX as int
        }
    }

    pub fn fetch_limit(&self) -> (n: usize)
        ensures
            n == self.fetch_bound(),
    {
        let extra: usize = if self.start.is_some() {
            2
        } else {
            1
        };
        if self.count <= usize::MAX - extra {
            self.count + extra
        } else {
            usize::MAX
        }
    }
}

/// The entries without the starting cursor's own entry, which an inclusive
/// walk yields first.
pub open spec fn after_start<C, T>(entries: Seq<(C, T)>, start: Option<C>) -> Seq<(C, T)> {
    if start is Some && entries.len() > 0 && entries[0].0 == start->0 {
        entries.skip(1)
    } else {
        entries
    }
}

/// The entries of the page in walk order.
pub open spec fn kept<C, T>(entries: Seq<(C, T)>, start: Option<C>, count: int) -> Seq<(C, T)> {
    prefix(after_start(entries, start), count)
}

/// Whether the walk went on beyond the page.
pub open spec fn has_more<C, T>(entries: Seq<(C, T)>, start: Option<C>, count: int) -> bool {
    after_start(entries, start).len() > count
}

/// The entries of the page in forward order.
pub open spec fn page_edges<C, T>(entries: Seq<(C, T)>, plan: PagePlan<C>) -> Seq<(C, T)> {
    let in_walk_order = kept(entries, plan.start, plan.count as int);
    if plan.direction == Direction::Reverse {
        in_walk_order.reverse()
    } else {
        in_walk_order
    }
}

/// Builds the page from what the walk yielded for `plan`: drops the starting
/// cursor's own entry, keeps `plan.count` entries, puts them in forward order
/// and sets the flags. On the side towards which the walk went, the flag says
/// whether the walk yielded more than the page holds; on the other side,
/// whether a starting cursor was given.
pub fn build_page<C: CursorKey, T>(plan: &PagePlan<C>, entries: Vec<(C, T)>) -> (page: Page<C, T>)
    ensures
        page.edges@ == page_edges(entries@, *plan),
        plan.direction == Direction::Forward ==> {
            &&& page.has_next_page == has_more(entries@, plan.start, plan.count as int)
            &&& page.has_previous_page == (plan.start is Some)
        },
        plan.direction == Direction::Reverse ==> {
            &&& page.has_previous_page == has_more(entries@, plan.start, plan.count as int)
            &&& page.has_next_page == (plan.start is Some)
        },
{
    let ghost body = after_start(entries@, plan.start);
    let mut rest = reversed(entries);
    if let Some(c) = &plan.start {
        if rest.len() > 0 && rest[rest.len() - 1].0.same(c) {
            let _ = rest.pop();
        }
    }
    assert(rest@ =~= body.reverse());
    let mut edges: Vec<(C, T)> = Vec::new();
    while edges.len() < plan.count && rest.len() > 0
        invariant
            edges@.len() + rest@.len() == body.len(),
            edges@.len() <= plan.count,
            edges@ == body.take(edges@.len() as int),
            rest@ == body.reverse().take(rest@.len() as int),
        decreases rest@.len(),
    {
        let ghost n = edges@.len();
        let x = rest.pop().unwrap();
        edges.push(x);
        assert(rest@ =~= body.reverse().take(rest@.len() as int));
        assert(edges@ =~= body.take((n + 1) as int));
    }
    let more = rest.len() > 0;
    proof {
        assert(body.take(body.len() as int) =~= body);
        assert(body.take(0) =~= Seq::<(C, T)>::empty());
        assert(edges@ == kept(entries@, plan.start, plan.count as int));
        assert(more == has_more(entries@, plan.start, plan.count as int));
    }
    let has_start = plan.start.is_some();
    if plan.direction == Direction::Reverse {
        Page { edges: reversed(edges), has_previous_page: more, has_next_page: has_start }
    } else {
        Page { edges, has_previous_page: has_start, has_next_page: more }
    }
}

/// The cursors of a run of entries.
pub open spec fn cursors_of<C, T>(entries: Seq<(C, T)>) -> Seq<C> {
    Seq::new(entries.len(), |i: int| entries[i].0)
}

/// No cursor stands twice in the walk.
pub open spec fn distinct_cursors<C, T>(all: Seq<(C, T)>) -> bool {
    forall|i: int, j: int| 0 <= i < j < all.len() ==> all[i].0 != all[j].0
}

/// What an inclusive walk over `all` yields from `start` on: the entries
/// whose cursors are `skip_until(cursors_of(all), start)`.
pub open spec fn entries_from<C, T>(all: Seq<(C, T)>, start: Option<C>) -> Seq<(C, T)> {
    match start {
        None => all,
        Some(c) => if exists|k: int| first_at(cursors_of(all), c, k) {
            all.skip(first_index(cursors_of(all), c))
        } else {
            Seq::empty()
        },
    }
}

/// The entries that a walk yields carry the cursors that it yields.
pub proof fn lemma_entries_from_cursors<C, T>(all: Seq<(C, T)>, start: Option<C>)
    ensures
        cursors_of(entries_from(all, start)) == skip_until(cursors_of(all), start),
{
    assert(cursors_of(entries_from(all, start)) =~= skip_until(cursors_of(all), start));
}

/// A walk from a cursor begins at the first entry that carries it.
pub proof fn lemma_entries_from_at<C, T>(all: Seq<(C, T)>, start: Option<C>, at: int)
    requires
        start is Some,
        first_at(cursors_of(all), start->0, at),
    ensures
        entries_from(all, start) == all.skip(at),
{
    lemma_first_at_unique(cursors_of(all), start->0, at, first_index(cursors_of(all), start->0));
}

/// Asking the walk for no more than the plan's fetch bound gives the same
/// page and the same flags as the whole walk.
pub proof fn lemma_fetch_bound_suffices<C, T>(entries: Seq<(C, T)>, plan: PagePlan<C>)
    requires
        plan.count + 2 <= usize::MAX,
    ensures
        page_edges(prefix(entries, plan.fetch_bound()), plan) == page_edges(entries, plan),
        has_more(prefix(entries, plan.fetch_bound()), plan.start, plan.count as int) == has_more(
            entries,
            plan.start,
            plan.count as int,
        ),
{
    let bounded = prefix(entries, plan.fetch_bound());
    let count = plan.count as int;
    assert(kept(bounded, plan.start, count) =~= kept(entries, plan.start, count));
}

/// Paging on from a page's last cursor: over a walk without duplicate
/// cursors, the page that begins after the cursor `p.last().0` of a page `p`
/// (both taken in walk order) is exactly the run of entries that follows that
/// cursor's entry in the walk, so its first cursor strictly follows it and no
/// entry of it is on page `p`. The walk may go in either direction.
pub proof fn lemma_next_page_follows<C, T>(
    all: Seq<(C, T)>,
    start: Option<C>,
    count: int,
    next_count: int,
) -> (k: int)
    requires
        distinct_cursors(all),
        count > 0,
        next_count >= 0,
        kept(entries_from(all, start), start, count).len() > 0,
    ensures
        0 <= k < all.len(),
        all[k] == kept(entries_from(all, start), start, count).last(),
        kept(entries_from(all, Some(all[k].0)), Some(all[k].0), next_count) == prefix(
            all.skip(k + 1),
            next_count,
        ),
        forall|i: int, j: int|
            0 <= i < kept(entries_from(all, Some(all[k].0)), Some(all[k].0), next_count).len() && 0
                <= j < kept(entries_from(all, start), start, count).len() ==> kept(
                entries_from(all, Some(all[k].0)),
                Some(all[k].0),
                next_count,
            )[i].0 != kept(entries_from(all, start), start, count)[j].0,
{
    let cs = cursors_of(all);
    let from = entries_from(all, start);
    let a: int = match start {
        None => 0,
        Some(c) => first_index(cs, c),
    };
    assert(from.len() > 0);
    assert(from =~= all.skip(a) && 0 <= a < all.len()) by {
        if start is None {
            assert(all.skip(0) =~= all);
        }
    }
    let body = after_start(from, start);
    let b: int = if body.len() == from.len() {
        a
    } else {
        a + 1
    };
    assert(body =~= all.skip(b));
    let p = kept(from, start, count);
    let m = p.len() as int;
    assert(p =~= all.subrange(b, b + m));
    let k = b + m - 1;
    assert(p.last() == all[k]);
    let c = all[k].0;
    assert(first_at(cs, c, k)) by {
        assert(cs[k] == c);
        assert forall|j: int| 0 <= j < k implies cs[j] != c by {
            assert(all[j].0 != all[k].0);
        }
    }
    let next_from = entries_from(all, Some(c));
    lemma_entries_from_at(all, Some(c), k);
    assert(next_from[0].0 == c);
    assert(after_start(next_from, Some(c)) =~= all.skip(k + 1));
    let q = kept(next_from, Some(c), next_count);
    assert(q == prefix(all.skip(k + 1), next_count));
    assert forall|i: int, j: int| 0 <= i < q.len() && 0 <= j < p.len() implies q[i].0 != p[j].0 by {
        assert(q[i] == all[k + 1 + i]);
        assert(p[j] == all[b + j]);
        assert(all[b + j].0 != all[k + 1 + i].0);
    }
    k
}

/// A request that pages on after a cursor's own text, or back before it, is
/// planned from that very cursor: the text is read back into the cursor, and
/// the walk goes forward after it, or in reverse before it.
pub proof fn lemma_plan_from_cursor<C: CursorKey>(c: C, count: i32, supports_reverse: bool)
    requires
        count >= 0,
    ensures
        plan_of::<C>(Some(C::encoding(c)), None, Some(count), None, supports_reverse) == Ok::<
            PagePlan<C>,
            PageError,
        >(PagePlan { start: Some(c), direction: Direction::Forward, count: count as usize }),
        supports_reverse ==> plan_of::<C>(None, Some(C::encoding(c)), None, Some(count), true) == Ok::<
            PagePlan<C>,
            PageError,
        >(PagePlan { start: Some(c), direction: Direction::Reverse, count: count as usize }),
{
    C::encoding_round_trip(c);
}

/// Whatever else a request holds, asking for the last items of an index
/// without reverse scans is rejected as unsupported.
pub proof fn lemma_last_needs_reverse<C: CursorKey>(
    after: Option<Seq<u8>>,
    before: Option<Seq<u8>>,
    first: Option<i32>,
    last: i32,
)
    ensures
        plan_of::<C>(after, before, first, Some(last), false) == Err::<PagePlan<C>, PageError>(
            PageError::Unsupported,
        ),
{
}

} // verus!
