//! The catalog of books: each created book gets the next id, and loading a
//! book reads back what it was created with.

use std::collections::HashMap;

use vstd::prelude::*;

use crate::actors::BookState;
use crate::proto::{AccountType, BalanceType};

verus! {

broadcast use vstd::std_specs::hash::group_hash_axioms;

/// The catalog as a mathematical value: the id the next book gets, and what
/// each created book was created with.
pub struct BookManagerView {
    pub next_id: u32,
    pub catalog: Map<u32, (AccountType, BalanceType, bool)>,
}

/// The state a book is loaded with when the catalog does not hold it.
pub open spec fn unknown_book(id: u32) -> BookState {
    BookState {
        id,
        accounting_type: AccountType::Debit,
        balance_type: BalanceType::Available,
        allow_overdraft: false,
        projected_balance: 0,
        latest_segment: 1,
        latest_offset: 0,
    }
}

impl BookManagerView {
    /// Every catalogued id was handed out before `next_id`, and ids start at one.
    pub open spec fn valid(self) -> bool {
        &&& self.next_id >= 1
        &&& forall|id: u32| #[trigger] self.catalog.contains_key(id) ==> 1 <= id < self.next_id
    }

    /// The state book `id` loads as: what it was created with, with an empty
    /// projected balance, at offset zero of segment one.
    pub open spec fn load(self, id: u32) -> BookState {
        if self.catalog.contains_key(id) {
            let (accounting_type, balance_type, allow_overdraft) = self.catalog[id];
            BookState {
                id,
                accounting_type,
                balance_type,
                allow_overdraft,
                projected_balance: 0,
                latest_segment: 1,
                latest_offset: 0,
            }
        } else {
            unknown_book(id)
        }
    }

    /// The catalog after creating a book: it holds the new book under
    /// `next_id`, and the next id is one more.
    pub open spec fn after_create(
        self,
        accounting_type: AccountType,
        balance_type: BalanceType,
        allow_overdraft: bool,
    ) -> BookManagerView {
        BookManagerView {
            next_id: (self.next_id + 1) as u32,
            catalog: self.catalog.insert(self.next_id, (accounting_type, balance_type, allow_overdraft)),
        }
    }
}

/// The catalog of books.
pub struct BookManager {
    next_id: u32,
    catalog: HashMap<u32, (AccountType, BalanceType, bool)>,
}

impl View for BookManager {
    type V = BookManagerView;

    closed spec fn view(&self) -> BookManagerView {
        BookManagerView { next_id: self.next_id, catalog: self.catalog@ }
    }
}

impl BookManager {
    #[verifier::type_invariant]
    closed spec fn inv(self) -> bool {
        self@.valid()
    }

    /// An empty catalog whose first book gets id one.
    pub fn new() -> (m: BookManager)
        ensures
            m@.next_id == 1,
            m@.catalog == Map::<u32, (AccountType, BalanceType, bool)>::empty(),
            m@.valid(),
    {
        BookManager { next_id: 1, catalog: HashMap::new() }
    }

    /// The id the next created book gets.
    pub fn next_id(&self) -> (id: u32)
        ensures
            id == self@.next_id,
            self@.valid(),
    {
        proof { use_type_invariant(self); }
        self.next_id
    }

    /// Whether one more book can be created: ids are `u32` and the counter
    /// must not pass its largest value.
    pub fn can_create(&self) -> (b: bool)
        ensures
            b == (self@.next_id < u32::MAX),
    {
        self.next_id < u32::MAX
    }

    /// Creates a book and returns its id: the next id, which no catalogued
    /// book has.
    pub fn create(
        &mut self,
        accounting_type: AccountType,
        balance_type: BalanceType,
        allow_overdraft: bool,
    ) -> (id: u32)
        requires
            old(self)@.next_id < u32::MAX,
        ensures
            id == old(self)@.next_id,
            !old(self)@.catalog.contains_key(id),
            final(self)@ == old(self)@.after_create(accounting_type, balance_type, allow_overdraft),
            final(self)@.valid(),
    {
        proof { use_type_invariant(&*self); }
        let ghost before = self@;
        let id = self.next_id;
        let mut catalog = HashMap::new();
        std::mem::swap(&mut catalog, &mut self.catalog);
        catalog.insert(id, (accounting_type, balance_type, allow_overdraft));
        assert forall|k: u32| #[trigger] catalog@.contains_key(k) implies 1 <= k < id + 1 by {
            if k != id {
                assert(before.catalog.contains_key(k));
            }
        }
        let next = BookManager { next_id: id + 1, catalog };
        *self = next;
        id
    }

    /// Loads book `id`: what it was created with, or a debit book of available
    /// balance without overdraft when the catalog does not hold it.
    pub fn load_book(&self, id: u32) -> (book: BookState)
        ensures
            book == self@.load(id),
            self@.valid(),
    {
        proof { use_type_invariant(self); }
        let (accounting_type, balance_type, allow_overdraft) = match self.catalog.get(&id) {
            Some(record) => *record,
            None => (AccountType::Debit, BalanceType::Available, false),
        };
        BookState {
            id,
            accounting_type,
            balance_type,
            allow_overdraft,
            projected_balance: 0,
            latest_segment: 1,
            latest_offset: 0,
        }
    }
}

} // verus!

verus! {

/// A created book reads back what it was created with: loading the id that
/// creation handed out gives that id, the accounting type, balance type and
/// overdraft flag it was created with, an empty projected balance, and
/// offset zero of segment one.
pub proof fn lemma_load_after_create(
    v: BookManagerView,
    accounting_type: AccountType,
    balance_type: BalanceType,
    allow_overdraft: bool,
)
    ensures
        v.after_create(accounting_type, balance_type, allow_overdraft).load(v.next_id) == (BookState {
            id: v.next_id,
            accounting_type,
            balance_type,
            allow_overdraft,
            projected_balance: 0,
            latest_segment: 1,
            latest_offset: 0,
        }),
{
}

/// Creating a book leaves every other book as it loaded before.
pub proof fn lemma_create_keeps_other_books(
    v: BookManagerView,
    accounting_type: AccountType,
    balance_type: BalanceType,
    allow_overdraft: bool,
    id: u32,
)
    requires
        id != v.next_id,
    ensures
        v.after_create(accounting_type, balance_type, allow_overdraft).load(id) == v.load(id),
{
}

/// Creation hands out increasing ids and keeps the catalog valid: the next
/// id grows by one, and every id handed out so far is below it.
pub proof fn lemma_create_keeps_valid(
    v: BookManagerView,
    accounting_type: AccountType,
    balance_type: BalanceType,
    allow_overdraft: bool,
)
    requires
        v.valid(),
        v.next_id < u32::MAX,
    ensures
        v.after_create(accounting_type, balance_type, allow_overdraft).valid(),
        v.after_create(accounting_type, balance_type, allow_overdraft).next_id == v.next_id + 1,
{
    let w = v.after_create(accounting_type, balance_type, allow_overdraft);
    assert forall|k: u32| #[trigger] w.catalog.contains_key(k) implies 1 <= k < w.next_id by {
        if k != v.next_id {
            assert(v.catalog.contains_key(k));
        }
    }
}

/// An id that was never handed out (zero, or the next id or beyond) loads
/// as a debit book of available balance without overdraft.
pub proof fn lemma_unissued_id_loads_default(v: BookManagerView, id: u32)
    requires
        v.valid(),
        id == 0 || id >= v.next_id,
    ensures
        v.load(id) == unknown_book(id),
{
}

} // verus!

verus! {

/// The state a created book loads as.
pub open spec fn created_book(id: u32, request: (AccountType, BalanceType, bool)) -> BookState {
    BookState {
        id,
        accounting_type: request.0,
        balance_type: request.1,
        allow_overdraft: request.2,
        projected_balance: 0,
        latest_segment: 1,
        latest_offset: 0,
    }
}

/// One creation as `BookManager::create` states it: it is allowed while the
/// next id is below `u32::MAX`, returns the next id, and records the request.
pub open spec fn create_step(
    before: BookManagerView,
    request: (AccountType, BalanceType, bool),
    id: u32,
    after: BookManagerView,
) -> bool {
    &&& before.next_id < u32::MAX
    &&& id == before.next_id
    &&& after == before.after_create(request.0, request.1, request.2)
}

proof fn lemma_next_id_after_creates(
    views: Seq<BookManagerView>,
    requests: Seq<(AccountType, BalanceType, bool)>,
    ids: Seq<u32>,
    k: int,
)
    requires
        views.len() == ids.len() + 1,
        requests.len() == ids.len(),
        views[0].next_id == 1,
        forall|i: int|
            0 <= i < ids.len() ==> #[trigger] create_step(views[i], requests[i], ids[i], views[i + 1]),
        0 <= k <= ids.len(),
    ensures
        views[k].next_id == k + 1,
    decreases k,
{
    if k > 0 {
        lemma_next_id_after_creates(views, requests, ids, k - 1);
        assert(create_step(views[k - 1], requests[k - 1], ids[k - 1], views[k]));
    }
}

proof fn lemma_created_book_stays(
    views: Seq<BookManagerView>,
    requests: Seq<(AccountType, BalanceType, bool)>,
    ids: Seq<u32>,
    k: int,
    j: int,
)
    requires
        views.len() == ids.len() + 1,
        requests.len() == ids.len(),
        views[0].next_id == 1,
        forall|i: int|
            0 <= i < ids.len() ==> #[trigger] create_step(views[i], requests[i], ids[i], views[i + 1]),
        0 <= k < j <= ids.len(),
    ensures
        views[j].load(ids[k]) == created_book(ids[k], requests[k]),
    decreases j,
{
    let i = j - 1;
    assert(create_step(views[i], requests[i], ids[i], views[i + 1]));
    assert(views[i + 1] == views[j]);
    if j == k + 1 {
        lemma_load_after_create(views[k], requests[k].0, requests[k].1, requests[k].2);
    } else {
        lemma_created_book_stays(views, requests, ids, k, j - 1);
        lemma_next_id_after_creates(views, requests, ids, j - 1);
        lemma_next_id_after_creates(views, requests, ids, k);
        assert(create_step(views[k], requests[k], ids[k], views[k + 1]));
        lemma_create_keeps_other_books(
            views[j - 1],
            requests[j - 1].0,
            requests[j - 1].1,
            requests[j - 1].2,
            ids[k],
        );
    }
}

/// Book ids over a run count up from one, and every book reads back what it
/// was created with: starting from an empty catalog (next id one), the `n`
/// books created one after the other get ids `1, 2, ..., n` in order, no two
/// share an id, and after any number of later creations each book still
/// loads as it was created. Loading takes the catalog read-only, so loads
/// interleaved with the creations do not change the run.
pub proof fn lemma_book_ids_count_up(
    views: Seq<BookManagerView>,
    requests: Seq<(AccountType, BalanceType, bool)>,
    ids: Seq<u32>,
)
    requires
        views.len() == ids.len() + 1,
        requests.len() == ids.len(),
        views[0].next_id == 1,
        forall|i: int|
            0 <= i < ids.len() ==> #[trigger] create_step(views[i], requests[i], ids[i], views[i + 1]),
    ensures
        forall|i: int| 0 <= i < ids.len() ==> #[trigger] ids[i] == i + 1,
        ids.no_duplicates(),
        forall|k: int, j: int|
            0 <= k < j <= ids.len() ==> #[trigger] views[j].load(ids[k]) == created_book(
                ids[k],
                requests[k],
            ),
{
    assert forall|i: int| 0 <= i < ids.len() implies #[trigger] ids[i] == i + 1 by {
        lemma_next_id_after_creates(views, requests, ids, i);
        assert(create_step(views[i], requests[i], ids[i], views[i + 1]));
    }
    assert forall|i: int, j: int| 0 <= i < ids.len() && 0 <= j < ids.len() && i != j implies ids[i]
        != ids[j] by {
        assert(ids[i] == i + 1);
        assert(ids[j] == j + 1);
    }
    assert forall|k: int, j: int| 0 <= k < j <= ids.len() implies #[trigger] views[j].load(ids[k])
        == created_book(ids[k], requests[k]) by {
        lemma_created_book_stays(views, requests, ids, k, j);
    }
}

} // verus!
