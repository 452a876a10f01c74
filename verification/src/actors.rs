//! The state each part of the ledger keeps and the values they hand each
//! other: the book manager's catalog, the acceptor's operation counter, the
//! writer's acknowledgement and the applier's counter.

pub mod acceptor;
pub mod applier;
pub mod book_manager;
pub mod writer;

use vstd::prelude::*;

use crate::actors::acceptor::Acceptor;
use crate::actors::applier::Applier;
use crate::actors::book_manager::BookManager;
use crate::proto::{AccountType, BalanceType};

verus! {

/// What the service knows of a book when it processes an operation.
#[derive(Clone, Copy, Debug, PartialEq, Eq, Structural)]
pub struct BookState {
    pub id: u32,
    pub accounting_type: AccountType,
    pub balance_type: BalanceType,
    pub allow_overdraft: bool,
    pub projected_balance: i128,
    pub latest_segment: u32,
    pub latest_offset: u32,
}

/// One entry of an operation, signed for the book it posts to.
#[derive(Clone, Copy, Debug)]
pub struct PreprocessedEntry {
    pub signed_amount: i64,
    pub ledger_code: [u8; 8],
}

/// A preprocessed entry as a mathematical value.
pub struct EntryView {
    pub signed_amount: int,
    pub ledger_code: Seq<u8>,
}

impl View for PreprocessedEntry {
    type V = EntryView;

    open spec fn view(&self) -> EntryView {
        EntryView { signed_amount: self.signed_amount as int, ledger_code: self.ledger_code@ }
    }
}

/// The part of an operation that posts to one book: the book's state, the
/// entries in the order the operation gave them, and their saturated total.
#[derive(Clone, Debug)]
pub struct PreprocessedBook {
    pub book_state: BookState,
    pub incoming_total: i64,
    pub ops: Vec<PreprocessedEntry>,
}

/// A preprocessed book as a mathematical value.
pub struct BookView {
    pub book_state: BookState,
    pub incoming_total: int,
    pub ops: Seq<EntryView>,
}

impl View for PreprocessedBook {
    type V = BookView;

    open spec fn view(&self) -> BookView {
        BookView {
            book_state: self.book_state,
            incoming_total: self.incoming_total as int,
            ops: self.ops@.map_values(|e: PreprocessedEntry| e@),
        }
    }
}

/// An operation the acceptor took: its id, when it was taken, and the
/// balance each book ends with, in the order the books were given.
#[derive(Clone, Debug)]
pub struct AcceptedOperation {
    pub operation_id: u64,
    pub timestamp_ns: u128,
    pub ending_balances: Vec<(u32, i64)>,
}

/// How an operation was answered.
#[derive(Clone, Debug)]
pub enum AcceptResult {
    Accepted(AcceptedOperation),
    Rejected { book_id: u32 },
    Failure(String),
}

/// The state of the whole service.
pub struct AppState {
    pub book_manager: BookManager,
    pub acceptor: Acceptor,
    pub applier: Applier,
}

} // verus!
