//! The submission pipeline: all-or-nothing insertion, the order of its
//! stages, and the wait for the first status after `Submitted`.

use vstd::prelude::*;
use crate::vectors::reversed;
use crate::status::{closes, item_of, FeedMessage, StatusError, StatusEvent};

verus! {

/// `k` is the place of the first rejection among the pool's answers.
pub open spec fn first_rejected<R, E>(results: Seq<Result<R, E>>, k: int) -> bool {
    &&& 0 <= k < results.len()
    &&& results[k] is Err
    &&& forall|j: int| 0 <= j < k ==> results[j] is Ok
}

/// The pool took every transaction in.
pub open spec fn all_accepted<R, E>(results: Seq<Result<R, E>>) -> bool {
    forall|j: int| 0 <= j < results.len() ==> results[j] is Ok
}

/// What the pool answered for each accepted transaction.
pub open spec fn acceptances<R, E>(results: Seq<Result<R, E>>) -> Seq<R> {
    Seq::new(results.len(), |i: int| results[i]->Ok_0)
}

/// Insertion is all or nothing: every acceptance, in order, if the pool took
/// every transaction in; else the first rejection.
pub fn collect_insertions<R, E>(results: Vec<Result<R, E>>) -> (r: Result<Vec<R>, E>)
    ensures
        all_accepted(results@) ==> r is Ok && r->Ok_0@ == acceptances(results@),
        !all_accepted(results@) ==> r is Err && exists|k: int|
            first_rejected(results@, k) && results@[k]->Err_0 == r->Err_0,
{
    let ghost all = results@;
    let mut rest = reversed(results);
    let mut taken: Vec<R> = Vec::new();
    assert(rest@ =~= all.reverse().take(rest@.len() as int));
    while rest.len() > 0
        invariant
            all == results@,
            rest@.len() + taken@.len() == all.len(),
            rest@ == all.reverse().take(rest@.len() as int),
            forall|j: int| 0 <= j < taken@.len() ==> (#[trigger] all[j]) is Ok,
            forall|j: int| 0 <= j < taken@.len() ==> (#[trigger] taken@[j]) == all[j]->Ok_0,
        decreases rest@.len(),
    {
        let ghost i = taken@.len() as int;
        let x = rest.pop().unwrap();
        assert(x == all[i]);
        assert(rest@ =~= all.reverse().take(rest@.len() as int));
        match x {
            Ok(value) => {
                taken.push(value);
            },
            Err(e) => {
                assert(first_rejected(all, i));
                return Err(e);
            },
        }
    }
    assert(taken@ =~= acceptances(all));
    Ok(taken)
}

/// Whether a feed message is still the notice of submission.
pub open spec fn is_submitted(msg: FeedMessage) -> bool {
    msg matches FeedMessage::Status(StatusEvent::Submitted { .. })
}

/// The one item that waiting on the feed gives: the first message that is
/// not the notice of submission, as an item; nothing if the feed has none.
pub open spec fn awaited(msgs: Seq<FeedMessage>) -> Option<Result<StatusEvent, StatusError>>
    decreases msgs.len(),
{
    if msgs.len() == 0 {
        None
    } else if is_submitted(msgs[0]) {
        awaited(msgs.skip(1))
    } else {
        Some(item_of(msgs[0]))
    }
}

/// One step of the wait: a notice of submission is passed over, anything else
/// is the item waited for.
pub fn await_step(msg: FeedMessage) -> (item: Option<Result<StatusEvent, StatusError>>)
    ensures
        item == if is_submitted(msg) {
            None
        } else {
            Some(item_of(msg))
        },
{
    match msg {
        FeedMessage::Status(StatusEvent::Submitted { .. }) => None,
        FeedMessage::Status(status) => Some(Ok(status)),
        FeedMessage::FailedStatus => Some(Err(StatusError::Feed)),
    }
}

/// Waits on everything that the feed delivers before its channel closes.
pub fn await_first(msgs: Vec<FeedMessage>) -> (item: Option<Result<StatusEvent, StatusError>>)
    ensures
        item == awaited(msgs@),
{
    let ghost all = msgs@;
    let mut rest = reversed(msgs);
    assert(all.skip(0) =~= all);
    assert(rest@ =~= all.reverse().take(rest@.len() as int));
    while rest.len() > 0
        invariant
            all == msgs@,
            rest@.len() <= all.len(),
            rest@ == all.reverse().take(rest@.len() as int),
            awaited(all.skip(all.len() - rest@.len())) == awaited(all),
        decreases rest@.len(),
    {
        let ghost i = all.len() - rest@.len();
        let msg = rest.pop().unwrap();
        assert(msg == all[i]);
        assert(all.skip(i)[0] == all[i]);
        assert(all.skip(i).skip(1) =~= all.skip(i + 1));
        assert(rest@ =~= all.reverse().take(rest@.len() as int));
        let item = await_step(msg);
        if item.is_some() {
            return item;
        }
    }
    assert(all.skip(all.len() as int).len() == 0);
    None
}

/// What waiting gives is never the notice of submission: it is a terminal
/// status or the feed's failure.
pub proof fn lemma_awaited_closes(msgs: Seq<FeedMessage>)
    ensures
        awaited(msgs) is Some ==> closes(awaited(msgs)->0),
    decreases msgs.len(),
{
    if msgs.len() > 0 && is_submitted(msgs[0]) {
        lemma_awaited_closes(msgs.skip(1));
    }
}

/// A stage of submit-and-await. The feed is subscribed to before the
/// transaction is handed to the pool, so that no status can be missed.
#[derive(Clone, Copy, Debug, PartialEq, Eq, Structural)]
pub enum Stage {
    /// Decode the raw bytes and compute the identifier.
    Decode,
    /// Subscribe to the feed of the identifier.
    Subscribe,
    /// Hand the transaction to the pool.
    Insert,
    /// Wait on the feed.
    Await,
    /// Nothing is left to do.
    Done,
}

/// The stage that follows `stage` once its work succeeded (`ok`) or failed.
/// A failure ends the pipeline; the wait ends it either way.
pub open spec fn following(stage: Stage, ok: bool) -> Stage {
    if !ok {
        Stage::Done
    } else {
        match stage {
            Stage::Decode => Stage::Subscribe,
            Stage::Subscribe => Stage::Insert,
            Stage::Insert => Stage::Await,
            Stage::Await => Stage::Done,
            Stage::Done => Stage::Done,
        }
    }
}

/// Moves the pipeline on from `stage`.
pub fn advance(stage: Stage, ok: bool) -> (next: Stage)
    ensures
        next == following(stage, ok),
{
    if !ok {
        return Stage::Done;
    }
    match stage {
        Stage::Decode => Stage::Subscribe,
        Stage::Subscribe => Stage::Insert,
        Stage::Insert => Stage::Await,
        Stage::Await => Stage::Done,
        Stage::Done => Stage::Done,
    }
}

/// The pool is handed the transaction only after a successful subscription,
/// and the wait begins only after a successful insertion.
pub proof fn lemma_subscribe_before_insert(stage: Stage, ok: bool)
    ensures
        following(stage, ok) == Stage::Insert <==> stage == Stage::Subscribe && ok,
        following(stage, ok) == Stage::Await <==> stage == Stage::Insert && ok,
{
}

} // verus!
