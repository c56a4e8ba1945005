//! Mutations: handing a transaction to the pool.

use vstd::prelude::*;
use crate::cursor::TransactionId;
use crate::submission::{all_accepted, collect_insertions, first_rejected};

verus! {

/// The mutations on transactions.
#[derive(Default)]
pub struct TxMutation;

impl TxMutation {
    /// The outcome of a submission. `id` is the identifier computed from the
    /// decoded transaction, `results` what the pool answered. The identifier
    /// is returned if the pool rejected nothing, else the first rejection.
    pub fn submit<R, E>(id: TransactionId, results: Vec<Result<R, E>>) -> (r: Result<TransactionId, E>)
        ensures
            all_accepted(results@) ==> r == Ok::<TransactionId, E>(id),
            !all_accepted(results@) ==> r is Err && exists|k: int|
                first_rejected(results@, k) && results@[k]->Err_0 == r->Err_0,
    {
        match collect_insertions(results) {
            Ok(_) => Ok(id),
            Err(e) => Err(e),
        }
    }
}

} // verus!
