//! The acceptor takes preprocessed operations: it numbers them one after
//! the other and computes each book's ending balance.

use vstd::prelude::*;

use crate::actors::{AcceptedOperation, BookView, PreprocessedBook};

verus! {

/// `x` clamped into the range of `i64`.
pub open spec fn clamp_i64(x: int) -> int {
    if x < i64::MIN {
        i64::MIN as int
    } else if x > i64::MAX {
        i64::MAX as int
    } else {
        x
    }
}

/// The balance a book ends with: its projected balance plus what the
/// operation brings in, clamped into the range of `i64`.
pub open spec fn ending_balance(projected_balance: i128, incoming_total: i64) -> i64 {
    clamp_i64(projected_balance + incoming_total) as i64
}

/// The ending balance of each book, in the order the books were given.
pub open spec fn ending_balances(books: Seq<PreprocessedBook>) -> Seq<(u32, i64)> {
    books.map_values(
        |b: PreprocessedBook|
            (b.book_state.id, ending_balance(b.book_state.projected_balance, b.incoming_total)),
    )
}

/// Computes a book's ending balance: the sum saturates in `i128`, then
/// clamps into `i64`.
pub fn compute_ending_balance(projected_balance: i128, incoming_total: i64) -> (balance: i64)
    ensures
        balance == ending_balance(projected_balance, incoming_total),
        i64::MIN <= projected_balance + incoming_total <= i64::MAX ==> balance
            == projected_balance + incoming_total,
        projected_balance + incoming_total < i64::MIN ==> balance == i64::MIN,
        projected_balance + incoming_total > i64::MAX ==> balance == i64::MAX,
{
    let next: i128 = match projected_balance.checked_add(incoming_total as i128) {
        Some(sum) => sum,
        None => if incoming_total > 0 {
            i128::MAX
        } else {
            i128::MIN
        },
    };
    if next < i64::MIN as i128 {
        i64::MIN
    } else if next > i64::MAX as i128 {
        i64::MAX
    } else {
        next as i64
    }
}

/// The acceptor's state: the id the next accepted operation gets.
pub struct Acceptor {
    next_operation_id: u64,
    last_accepted: Ghost<Seq<BookView>>,
}

impl Acceptor {
    /// A fresh acceptor, whose first operation gets id one.
    pub fn new() -> (a: Acceptor)
        ensures
            a.spec_next_operation_id() == 1,
            a.spec_last_accepted() == Seq::<BookView>::empty(),
    {
        Acceptor { next_operation_id: 1, last_accepted: Ghost(Seq::empty()) }
    }

    pub closed spec fn spec_next_operation_id(&self) -> u64 {
        self.next_operation_id
    }

    /// The books of the operation accepted last, as they were handed over
    /// (none before the first).
    pub closed spec fn spec_last_accepted(&self) -> Seq<BookView> {
        self.last_accepted@
    }

    /// The id the next accepted operation gets.
    #[verifier::when_used_as_spec(spec_next_operation_id)]
    pub fn next_operation_id(&self) -> (id: u64)
        ensures
            id == self.spec_next_operation_id(),
    {
        self.next_operation_id
    }

    /// Whether one more operation can be numbered without the counter
    /// passing the largest `u64`.
    pub fn can_accept(&self) -> (b: bool)
        ensures
            b == (self.spec_next_operation_id() < u64::MAX),
    {
        self.next_operation_id < u64::MAX
    }

    /// Accepts an operation over `books` at time `timestamp_ns`: it gets the
    /// next id, the counter moves on by one, and the answer lists each
    /// book's id with its ending balance, in the order of `books`.
    pub fn accept(&mut self, books: &Vec<PreprocessedBook>, timestamp_ns: u128) -> (accepted:
        AcceptedOperation)
        requires
            old(self).spec_next_operation_id() < u64::MAX,
        ensures
            accepted.operation_id == old(self).spec_next_operation_id(),
            final(self).spec_next_operation_id() == old(self).spec_next_operation_id() + 1,
            accepted.timestamp_ns == timestamp_ns,
            accepted.ending_balances@ == ending_balances(books@),
            final(self).spec_last_accepted() == books@.map_values(|b: PreprocessedBook| b@),
    {
        let operation_id = self.next_operation_id;
        self.next_operation_id = operation_id + 1;
        self.last_accepted = Ghost(books@.map_values(|b: PreprocessedBook| b@));
        let mut ending: Vec<(u32, i64)> = Vec::new();
        let n = books.len();
        for i in 0..n
            invariant
                n == books@.len(),
                ending@ =~= ending_balances(books@.take(i as int)),
        {
            let book = &books[i];
            let balance = compute_ending_balance(book.book_state.projected_balance, book.incoming_total);
            ending.push((book.book_state.id, balance));
            assert(books@.take(i + 1) =~= books@.take(i as int).push(books@[i as int]));
        }
        assert(books@.take(n as int) =~= books@);
        AcceptedOperation { operation_id, timestamp_ns, ending_balances: ending }
    }
}

} // verus!

verus! {

/// One accept as `Acceptor::accept` states it: the operation gets the
/// acceptor's next id, and the next id grows by one.
pub open spec fn accept_step(before: Acceptor, id: u64, after: Acceptor) -> bool {
    &&& id == before.spec_next_operation_id()
    &&& after.spec_next_operation_id() == before.spec_next_operation_id() + 1
}

proof fn lemma_next_id_after_accepts(states: Seq<Acceptor>, ids: Seq<u64>, k: int)
    requires
        states.len() == ids.len() + 1,
        states[0].spec_next_operation_id() == 1,
        forall|i: int| 0 <= i < ids.len() ==> #[trigger] accept_step(states[i], ids[i], states[i + 1]),
        0 <= k <= ids.len(),
    ensures
        states[k].spec_next_operation_id() == k + 1,
    decreases k,
{
    if k > 0 {
        lemma_next_id_after_accepts(states, ids, k - 1);
        assert(accept_step(states[k - 1], ids[k - 1], states[k]));
    }
}

/// Operation ids over a run count up from one: starting from a fresh
/// acceptor (next id one), the `n` operations accepted one after the other
/// get ids `1, 2, ..., n` in order, so no two of them share an id.
pub proof fn lemma_operation_ids_count_up(states: Seq<Acceptor>, ids: Seq<u64>)
    requires
        states.len() == ids.len() + 1,
        states[0].spec_next_operation_id() == 1,
        forall|i: int| 0 <= i < ids.len() ==> #[trigger] accept_step(states[i], ids[i], states[i + 1]),
    ensures
        forall|i: int| 0 <= i < ids.len() ==> #[trigger] ids[i] == i + 1,
        ids.no_duplicates(),
        states.last().spec_next_operation_id() == ids.len() + 1,
{
    assert forall|i: int| 0 <= i < ids.len() implies #[trigger] ids[i] == i + 1 by {
        lemma_next_id_after_accepts(states, ids, i);
        assert(accept_step(states[i], ids[i], states[i + 1]));
    }
    lemma_next_id_after_accepts(states, ids, ids.len() as int);
    assert forall|i: int, j: int| 0 <= i < ids.len() && 0 <= j < ids.len() && i != j implies ids[i]
        != ids[j] by {
        assert(ids[i] == i + 1);
        assert(ids[j] == j + 1);
    }
}

} // verus!

verus! {

/// A book ends with its projected balance plus the operation's incoming
/// total, whatever their signs: exactly that sum when it fits in `i64`, and
/// the nearest bound of `i64` otherwise.
pub proof fn lemma_ending_balance_is_clamped_sum(projected_balance: i128, incoming_total: i64)
    ensures
        i64::MIN <= projected_balance + incoming_total <= i64::MAX ==> ending_balance(
            projected_balance,
            incoming_total,
        ) == projected_balance + incoming_total,
        projected_balance + incoming_total < i64::MIN ==> ending_balance(
            projected_balance,
            incoming_total,
        ) == i64::MIN,
        projected_balance + incoming_total > i64::MAX ==> ending_balance(
            projected_balance,
            incoming_total,
        ) == i64::MAX,
{
}

/// Each book of an accepted operation ends with its projected balance plus
/// its incoming total, when that sum fits in `i64`.
pub proof fn lemma_accepted_balances_add_up(books: Seq<PreprocessedBook>, i: int)
    requires
        0 <= i < books.len(),
        i64::MIN <= books[i].book_state.projected_balance + books[i].incoming_total <= i64::MAX,
    ensures
        ending_balances(books)[i] == (
            books[i].book_state.id,
            (books[i].book_state.projected_balance + books[i].incoming_total) as i64,
        ),
        ending_balances(books)[i].1 == books[i].book_state.projected_balance + books[i].incoming_total,
{
}

} // verus!
