//! The same operations as offered to code that runs inside the node.

use vstd::prelude::*;
use crate::vectors::reversed;
use crate::status::{
    probe_status, probed, reconcile, reconciled, FeedMessage, StatusError, StatusEvent, StoreError,
};
use crate::submission::{all_accepted, collect_insertions, first_rejected};

verus! {

/// Why a submission gave no insertion result.
#[derive(Debug, PartialEq, Eq)]
pub enum SubmitError<E> {
    /// The pool rejected the transaction.
    Rejected(E),
    /// The pool answered for no transaction at all.
    NothingInserted,
}

/// Why waiting for the outcome of a submission gave no status.
#[derive(Debug, PartialEq, Eq)]
pub enum CommitError<E> {
    /// The submission itself failed.
    Submit(SubmitError<E>),
    /// A failure took the place of the status.
    Status(StatusError),
    /// The sequence of statuses ended before a terminal one.
    StreamClosed,
}

/// What a submission returns for the pool's answers: the first acceptance if
/// nothing was rejected, the first rejection if anything was, and an error of
/// its own if the pool answered for nothing.
pub open spec fn submitted<R, E>(results: Seq<Result<R, E>>, r: Result<R, SubmitError<E>>) -> bool {
    if !all_accepted(results) {
        exists|k: int|
            first_rejected(results, k) && r == Err::<R, SubmitError<E>>(
                SubmitError::Rejected(results[k]->Err_0),
            )
    } else if results.len() == 0 {
        r == Err::<R, SubmitError<E>>(SubmitError::NothingInserted)
    } else {
        r == Ok::<R, SubmitError<E>>(results[0]->Ok_0)
    }
}

/// `k` is the place of the first item that is not `Submitted`.
pub open spec fn first_outcome(items: Seq<Result<StatusEvent, StatusError>>, k: int) -> bool {
    &&& 0 <= k < items.len()
    &&& !(items[k] matches Ok(StatusEvent::Submitted { .. }))
    &&& forall|j: int| 0 <= j < k ==> (#[trigger] items[j]) matches Ok(StatusEvent::Submitted { .. })
}

/// The node's service, as far as transactions go.
pub struct FuelService;

impl FuelService {
    /// The insertion result of one submitted transaction.
    pub fn submit<R, E>(results: Vec<Result<R, E>>) -> (r: Result<R, SubmitError<E>>)
        ensures
            submitted(results@, r),
    {
        match collect_insertions(results) {
            Ok(taken) => {
                let mut first_last = reversed(taken);
                match first_last.pop() {
                    Some(value) => Ok(value),
                    None => Err(SubmitError::NothingInserted),
                }
            },
            Err(e) => Err(SubmitError::Rejected(e)),
        }
    }

    /// The status changes of a transaction that is submitted after the
    /// subscription was made: the error of the submission if it failed, else
    /// the sequence of statuses.
    pub fn submit_and_status_change<R, E>(
        results: Vec<Result<R, E>>,
        stored: Result<StatusEvent, StoreError>,
        submission_time: Option<u64>,
        msgs: Vec<FeedMessage>,
    ) -> (r: Result<Vec<Result<StatusEvent, StatusError>>, SubmitError<E>>)
        ensures
            all_accepted(results@) && results@.len() > 0 ==> r is Ok && r->Ok_0@ == reconciled(
                probed(stored, submission_time),
                msgs@,
            ),
            !(all_accepted(results@) && results@.len() > 0) ==> r is Err && submitted(
                results@,
                Err::<R, SubmitError<E>>(r->Err_0),
            ),
    {
        match Self::submit(results) {
            Ok(_) => Ok(Self::transaction_status_change(stored, submission_time, msgs)),
            Err(e) => Err(e),
        }
    }

    /// The final status of a submitted transaction: the first item of its
    /// sequence of statuses that is not `Submitted`. A failed submission comes
    /// before anything the sequence holds; a sequence without such an item is
    /// an error of its own.
    pub fn submit_and_await_commit<R, E>(
        results: Vec<Result<R, E>>,
        items: Vec<Result<StatusEvent, StatusError>>,
    ) -> (r: Result<StatusEvent, CommitError<E>>)
        ensures
            !(all_accepted(results@) && results@.len() > 0) ==> (r matches Err(CommitError::Submit(e))
                && submitted(results@, Err::<R, SubmitError<E>>(e))),
            all_accepted(results@) && results@.len() > 0 ==> {
                if exists|k: int| first_outcome(items@, k) {
                    exists|k: int|
                        first_outcome(items@, k) && r == match items@[k] {
                            Ok(status) => Ok::<StatusEvent, CommitError<E>>(status),
                            Err(e) => Err(CommitError::Status(e)),
                        }
                } else {
                    r == Err::<StatusEvent, CommitError<E>>(CommitError::StreamClosed)
                }
            },
    {
        match Self::submit(results) {
            Ok(_) => {},
            Err(e) => {
                return Err(CommitError::Submit(e));
            },
        }
        let ghost all = items@;
        let mut rest = reversed(items);
        assert(rest@ =~= all.reverse().take(rest@.len() as int));
        while rest.len() > 0
            invariant
                all == items@,
                all_accepted(results@) && results@.len() > 0,
                rest@.len() <= all.len(),
                rest@ == all.reverse().take(rest@.len() as int),
                forall|j: int|
                    0 <= j < all.len() - rest@.len() ==> (#[trigger] all[j]) matches Ok(
                        StatusEvent::Submitted { .. },
                    ),
            decreases rest@.len(),
        {
            let ghost i = all.len() - rest@.len();
            let item = rest.pop().unwrap();
            assert(item == all[i]);
            assert(rest@ =~= all.reverse().take(rest@.len() as int));
            match item {
                Ok(StatusEvent::Submitted { .. }) => {},
                Ok(status) => {
                    assert(first_outcome(all, i));
                    return Ok(status);
                },
                Err(e) => {
                    assert(first_outcome(all, i));
                    return Err(CommitError::Status(e));
                },
            }
        }
        assert(forall|k: int| !first_outcome(all, k));
        Err(CommitError::StreamClosed)
    }

    /// The status changes of one transaction, as the subscription of the
    /// same name gives them.
    pub fn transaction_status_change(
        stored: Result<StatusEvent, StoreError>,
        submission_time: Option<u64>,
        msgs: Vec<FeedMessage>,
    ) -> (out: Vec<Result<StatusEvent, StatusError>>)
        ensures
            out@ == reconciled(probed(stored, submission_time), msgs@),
    {
        reconcile(probe_status(stored, submission_time), msgs)
    }
}

} // verus!
