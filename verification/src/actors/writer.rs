//! The writer acknowledges accepted operations: it answers the request
//! with the accepted operation and hands the applier the operation's id and
//! the ids of the books it touched.

use vstd::prelude::*;

use crate::actors::{AcceptResult, AcceptedOperation};

verus! {

/// What the applier is handed for an acknowledged operation.
#[derive(Clone, Debug)]
pub struct ApplyRequest {
    pub operation_id: u64,
    pub book_ids: Vec<u32>,
}

/// The ids of the books of an accepted operation, in the order of its
/// ending balances.
pub open spec fn touched_books(balances: Seq<(u32, i64)>) -> Seq<u32> {
    balances.map_values(|p: (u32, i64)| p.0)
}

/// Acknowledges `accepted`: the answer is the accepted operation itself,
/// and the applier is handed its id and the ids of its books in order.
pub fn acknowledge(accepted: AcceptedOperation) -> (res: (AcceptResult, ApplyRequest))
    ensures
        res.0 == AcceptResult::Accepted(accepted),
        res.1.operation_id == accepted.operation_id,
        res.1.book_ids@ == touched_books(accepted.ending_balances@),
{
    let operation_id = accepted.operation_id;
    let mut book_ids: Vec<u32> = Vec::new();
    let n = accepted.ending_balances.len();
    for i in 0..n
        invariant
            n == accepted.ending_balances@.len(),
            book_ids@ =~= touched_books(accepted.ending_balances@.take(i as int)),
    {
        book_ids.push(accepted.ending_balances[i].0);
        assert(accepted.ending_balances@.take(i + 1) =~= accepted.ending_balances@.take(
            i as int,
        ).push(accepted.ending_balances@[i as int]));
    }
    assert(accepted.ending_balances@.take(n as int) =~= accepted.ending_balances@);
    (AcceptResult::Accepted(accepted), ApplyRequest { operation_id, book_ids })
}

} // verus!
