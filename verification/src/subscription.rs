//! Subscriptions: the status changes of one transaction, and submission
//! followed by the wait for its outcome.

use vstd::prelude::*;
use crate::status::{
    probe_status, probed, reconcile, reconciled, FeedMessage, StatusError, StatusEvent, StoreError,
};
use crate::submission::{all_accepted, await_first, awaited, collect_insertions, first_rejected};

verus! {

/// The subscriptions on transactions.
#[derive(Default)]
pub struct TxStatusSubscription;

impl TxStatusSubscription {
    /// The status changes of one transaction. `stored` is what the store
    /// holds for it, `submission_time` when the pool took it in, `msgs` what
    /// the feed delivers before its channel closes. The current status comes
    /// first; the sequence ends with the first item that is not `Submitted`,
    /// or without one if the feed closes before.
    pub fn status_change(
        stored: Result<StatusEvent, StoreError>,
        submission_time: Option<u64>,
        msgs: Vec<FeedMessage>,
    ) -> (out: Vec<Result<StatusEvent, StatusError>>)
        ensures
            out@ == reconciled(probed(stored, submission_time), msgs@),
    {
        reconcile(probe_status(stored, submission_time), msgs)
    }

    /// The outcome of a submission that is waited for. `results` is what the
    /// pool answered, `msgs` what the feed, subscribed to before the
    /// insertion, delivers before its channel closes. A rejection by the pool
    /// is the error; else the result is the first item after the notices of
    /// submission, if the feed delivers one.
    pub fn submit_and_await<R, E>(results: Vec<Result<R, E>>, msgs: Vec<FeedMessage>) -> (r: Result<
        Option<Result<StatusEvent, StatusError>>,
        E,
    >)
        ensures
            all_accepted(results@) ==> r == Ok::<Option<Result<StatusEvent, StatusError>>, E>(
                awaited(msgs@),
            ),
            !all_accepted(results@) ==> r is Err && exists|k: int|
                first_rejected(results@, k) && results@[k]->Err_0 == r->Err_0,
    {
        match collect_insertions(results) {
            Ok(_) => Ok(await_first(msgs)),
            Err(e) => Err(e),
        }
    }
}

} // verus!
