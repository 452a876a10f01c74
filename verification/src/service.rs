//! The ledger service: creating accounts, and executing financial
//! operations by splitting their entries per book, signing each entry for
//! its book, accepting the operation and answering with ending balances.

use std::collections::HashMap;

use vstd::prelude::*;
use vstd::string::*;
use vstd::utf8::encode_utf8;

use crate::actors::acceptor::clamp_i64;
use crate::actors::book_manager::BookManagerView;
use crate::actors::writer::acknowledge;
use crate::actors::{AcceptResult, AppState, BookState, BookView, EntryView, PreprocessedBook, PreprocessedEntry};
use crate::decimal::{decimal, decimal_text};
use crate::error::ServiceError;
use crate::proto::{
    AccountType, BalanceType, BookBalance, CreateAccountCommand, CreateAccountResponse, FinancialOperationCommand,
    FinancialOperationResponse, OperationEntry,
};

verus! {

broadcast use vstd::std_specs::hash::group_hash_axioms;

// ---------------------------------------------------------------------------
// Ledger codes
// ---------------------------------------------------------------------------

/// The fixed-width form of a ledger code: its first eight bytes, padded with
/// zero bytes when it is shorter.
pub open spec fn ledger_code_of(bytes: Seq<u8>) -> Seq<u8> {
    Seq::new(8, |i: int| if i < bytes.len() { bytes[i] } else { 0u8 })
}

/// Encodes a ledger code into eight bytes: the first eight bytes of its
/// UTF-8 encoding, padded with zero bytes.
pub fn encode_ledger_code(s: &str) -> (code: [u8; 8])
    ensures
        code@ == ledger_code_of(encode_utf8(s@)),
        forall|i: int|
            0 <= i < 8 ==> #[trigger] code@[i] == if i < encode_utf8(s@).len() {
                encode_utf8(s@)[i]
            } else {
                0u8
            },
{
    let bytes = s.as_bytes();
    let mut buf = [0u8; 8];
    let n: usize = if bytes.len() < 8 {
        bytes.len()
    } else {
        8
    };
    for i in 0..n
        invariant
            n <= 8,
            n <= bytes@.len(),
            bytes@ == encode_utf8(s@),
            buf@ =~= Seq::new(8, |j: int| if j < i { bytes@[j] } else { 0u8 }),
    {
        buf[i] = bytes[i];
    }
    assert(buf@ =~= ledger_code_of(encode_utf8(s@)));
    buf
}

} // verus!

verus! {

// ---------------------------------------------------------------------------
// Splitting an operation per book
// ---------------------------------------------------------------------------

/// The distinct book ids of `entries`, in the order each first appears.
pub open spec fn book_order(entries: Seq<OperationEntry>) -> Seq<u32>
    decreases entries.len(),
{
    if entries.len() == 0 {
        Seq::empty()
    } else {
        let prev = book_order(entries.drop_last());
        let id = entries.last().book_id;
        if prev.contains(id) {
            prev
        } else {
            prev.push(id)
        }
    }
}

/// Whether some entry posts to book `id`.
pub open spec fn mentions_book(entries: Seq<OperationEntry>, id: u32) -> bool {
    exists|i: int| 0 <= i < entries.len() && #[trigger] entries[i].book_id == id
}

/// An entry's amount signed for a book: kept when the entry posts on the
/// book's own side, negated otherwise.
pub open spec fn signed_amount(entry_type: AccountType, book_type: AccountType, amount: i64) -> int {
    if entry_type == book_type {
        amount as int
    } else {
        -(amount as int)
    }
}

/// An entry as it is posted to a book of type `book_type`.
pub open spec fn posted_entry(e: OperationEntry, book_type: AccountType) -> EntryView {
    EntryView {
        signed_amount: signed_amount(e.spec_accounting_type(), book_type, e.amount),
        ledger_code: ledger_code_of(encode_utf8(e.ledger_code@)),
    }
}

/// The entries of `entries` that post to book `id`, in their order, as
/// posted to a book of type `book_type`.
pub open spec fn book_ops(entries: Seq<OperationEntry>, id: u32, book_type: AccountType) -> Seq<
    EntryView,
>
    decreases entries.len(),
{
    if entries.len() == 0 {
        Seq::empty()
    } else {
        let prev = book_ops(entries.drop_last(), id, book_type);
        if entries.last().book_id == id {
            prev.push(posted_entry(entries.last(), book_type))
        } else {
            prev
        }
    }
}

/// The total of signed amounts, added in order with each partial sum
/// saturating at the bounds of `i64`.
pub open spec fn saturating_total(ops: Seq<EntryView>) -> int
    decreases ops.len(),
{
    if ops.len() == 0 {
        0
    } else {
        clamp_i64(saturating_total(ops.drop_last()) + ops.last().signed_amount)
    }
}

/// What an operation posts to book `id`, whose state is `books[id]`.
pub open spec fn book_part(entries: Seq<OperationEntry>, books: Map<u32, BookState>, id: u32) -> BookView {
    let ops = book_ops(entries, id, books[id].accounting_type);
    BookView { book_state: books[id], incoming_total: saturating_total(ops), ops }
}

/// An operation split per book: one part per book it mentions, in the order
/// the books first appear.
pub open spec fn split_operation(entries: Seq<OperationEntry>, books: Map<u32, BookState>) -> Seq<
    BookView,
> {
    book_order(entries).map_values(|id: u32| book_part(entries, books, id))
}

/// The book of the first entry whose book `books` does not hold, if any.
pub open spec fn first_missing(entries: Seq<OperationEntry>, books: Map<u32, BookState>) -> Option<
    u32,
>
    decreases entries.len(),
{
    if entries.len() == 0 {
        None
    } else {
        match first_missing(entries.drop_last(), books) {
            Some(id) => Some(id),
            None => if books.contains_key(entries.last().book_id) {
                None
            } else {
                Some(entries.last().book_id)
            },
        }
    }
}

/// No entry that is reached before a missing book needs `i64::MIN` negated:
/// an entry whose book is known and whose side differs from the book's has
/// an amount other than `i64::MIN`.
pub open spec fn negation_safe(entries: Seq<OperationEntry>, books: Map<u32, BookState>) -> bool
    decreases entries.len(),
{
    if entries.len() == 0 {
        true
    } else {
        let e = entries.last();
        &&& negation_safe(entries.drop_last(), books)
        &&& (first_missing(entries.drop_last(), books) is None && books.contains_key(e.book_id)
            && e.spec_accounting_type() != books[e.book_id].accounting_type) ==> e.amount
            != i64::MIN
    }
}

/// The message of the error for a book whose state is missing.
pub open spec fn missing_book_message(id: u32) -> Seq<char> {
    "missing book state for "@ + decimal(id as nat)
}

// ---------------------------------------------------------------------------
// Lemmas on the split
// ---------------------------------------------------------------------------

/// A book appears in the order exactly when some entry posts to it.
pub proof fn lemma_book_order_contains(entries: Seq<OperationEntry>, id: u32)
    ensures
        book_order(entries).contains(id) <==> mentions_book(entries, id),
    decreases entries.len(),
{
    if entries.len() > 0 {
        let prefix = entries.drop_last();
        let last = entries.last();
        let prev = book_order(prefix);
        lemma_book_order_contains(prefix, id);
        assert(mentions_book(entries, id) <==> (mentions_book(prefix, id) || last.book_id == id)) by {
            if mentions_book(prefix, id) {
                let i = choose|i: int| 0 <= i < prefix.len() && #[trigger] prefix[i].book_id == id;
                assert(entries[i].book_id == id);
            }
            if last.book_id == id {
                assert(entries[entries.len() - 1].book_id == id);
            }
            if mentions_book(entries, id) && last.book_id != id {
                let i = choose|i: int| 0 <= i < entries.len() && #[trigger] entries[i].book_id == id;
                assert(prefix[i].book_id == id);
            }
        }
        if !prev.contains(last.book_id) {
            assert(prev.push(last.book_id)[prev.len() as int] == last.book_id);
            if prev.contains(id) {
                let j = choose|j: int| 0 <= j < prev.len() && prev[j] == id;
                assert(prev.push(last.book_id)[j] == id);
            }
            if prev.push(last.book_id).contains(id) && last.book_id != id {
                let j = choose|j: int| 0 <= j < prev.len() + 1 && prev.push(last.book_id)[j] == id;
                assert(prev[j] == id);
            }
        }
    }
}

/// No book appears twice in the order.
pub proof fn lemma_book_order_distinct(entries: Seq<OperationEntry>)
    ensures
        book_order(entries).no_duplicates(),
    decreases entries.len(),
{
    if entries.len() > 0 {
        lemma_book_order_distinct(entries.drop_last());
    }
}

/// A book no entry posts to receives no entries.
proof fn lemma_book_ops_unmentioned(entries: Seq<OperationEntry>, id: u32, book_type: AccountType)
    requires
        !mentions_book(entries, id),
    ensures
        book_ops(entries, id, book_type) == Seq::<EntryView>::empty(),
    decreases entries.len(),
{
    if entries.len() > 0 {
        let prefix = entries.drop_last();
        assert(entries[entries.len() - 1].book_id != id);
        assert forall|i: int| 0 <= i < prefix.len() implies #[trigger] prefix[i].book_id != id by {
            assert(entries[i].book_id != id);
        }
        lemma_book_ops_unmentioned(prefix, id, book_type);
    }
}

/// Safety from negation overflow holds of every prefix.
proof fn lemma_negation_safe_prefix(entries: Seq<OperationEntry>, books: Map<u32, BookState>, k: int)
    requires
        negation_safe(entries, books),
        0 <= k <= entries.len(),
    ensures
        negation_safe(entries.take(k), books),
    decreases entries.len(),
{
    if k < entries.len() {
        lemma_negation_safe_prefix(entries.drop_last(), books, k);
        assert(entries.drop_last().take(k) =~= entries.take(k));
    } else {
        assert(entries.take(k) =~= entries);
    }
}

// ---------------------------------------------------------------------------
// Executable split
// ---------------------------------------------------------------------------

/// The books an operation needs loaded: its distinct book ids, in the order
/// each first appears.
pub fn book_ids_to_load(entries: &Vec<OperationEntry>) -> (ids: Vec<u32>)
    ensures
        ids@ == book_order(entries@),
{
    let mut ids: Vec<u32> = Vec::new();
    let n = entries.len();
    for k in 0..n
        invariant
            n == entries@.len(),
            ids@ == book_order(entries@.take(k as int)),
    {
        let id = entries[k].book_id;
        let g = position_of(&ids, id);
        if g == ids.len() {
            ids.push(id);
        }
        assert(entries@.take(k + 1).drop_last() =~= entries@.take(k as int));
    }
    assert(entries@.take(n as int) =~= entries@);
    ids
}

/// The position of `id` in `ids`, or the length of `ids` when it is absent.
fn position_of(ids: &Vec<u32>, id: u32) -> (g: usize)
    ensures
        g <= ids@.len(),
        g < ids@.len() ==> ids@[g as int] == id,
        g == ids@.len() ==> !ids@.contains(id),
{
    let mut g: usize = 0;
    while g < ids.len()
        invariant
            g <= ids@.len(),
            forall|j: int| 0 <= j < g ==> ids@[j] != id,
        decreases ids@.len() - g,
    {
        if ids[g] == id {
            return g;
        }
        g = g + 1;
    }
    g
}

/// `a + b`, saturating at the bounds of `i64`.
fn saturating_add_i64(a: i64, b: i64) -> (sum: i64)
    ensures
        sum == clamp_i64(a + b),
{
    match a.checked_add(b) {
        Some(s) => s,
        None => if b > 0 {
            i64::MAX
        } else {
            i64::MIN
        },
    }
}

} // verus!

verus! {

/// The view of each preprocessed book, in order.
pub open spec fn book_views(books: Seq<PreprocessedBook>) -> Seq<BookView> {
    books.map_values(|b: PreprocessedBook| b@)
}

/// Once some prefix names a missing book, the whole sequence names the same one.
proof fn lemma_first_missing_extends(entries: Seq<OperationEntry>, books: Map<u32, BookState>, k: int)
    requires
        0 <= k <= entries.len(),
        first_missing(entries.take(k), books) is Some,
    ensures
        first_missing(entries, books) == first_missing(entries.take(k), books),
    decreases entries.len(),
{
    if k < entries.len() {
        assert(entries.drop_last().take(k) =~= entries.take(k));
        lemma_first_missing_extends(entries.drop_last(), books, k);
    } else {
        assert(entries.take(k) =~= entries);
    }
}

/// Splits an operation per book, as the service does before accepting it.
///
/// `books` holds the state of each book the service loaded. Entries are
/// taken in order; each is signed for its book (kept on the book's own side,
/// negated on the other) and its ledger code encoded; each book's part keeps
/// its entries in order with their saturated total, and the parts come in
/// the order their books first appear. An entry whose book `books` does not
/// hold ends the split with an internal error naming that book.
pub fn preprocess_entries(entries: &Vec<OperationEntry>, books: &HashMap<u32, BookState>) -> (res:
    Result<Vec<PreprocessedBook>, ServiceError>)
    requires
        negation_safe(entries@, books@),
    ensures
        match res {
            Ok(parts) => {
                &&& first_missing(entries@, books@) is None
                &&& book_views(parts@) == split_operation(entries@, books@)
            },
            Err(e) => {
                &&& first_missing(entries@, books@) is Some
                &&& e matches ServiceError::Internal(msg)
                &&& msg@ == missing_book_message(first_missing(entries@, books@)->0)
            },
        },
{
    let mut ids: Vec<u32> = Vec::new();
    let mut parts: Vec<PreprocessedBook> = Vec::new();
    let n = entries.len();
    for k in 0..n
        invariant
            n == entries@.len(),
            negation_safe(entries@, books@),
            first_missing(entries@.take(k as int), books@) is None,
            ids@ == book_order(entries@.take(k as int)),
            parts@.len() == ids@.len(),
            forall|g: int| 0 <= g < ids@.len() ==> books@.contains_key(#[trigger] ids@[g]),
            forall|g: int|
                0 <= g < parts@.len() ==> #[trigger] parts@[g]@ == book_part(
                    entries@.take(k as int),
                    books@,
                    ids@[g],
                ),
    {
        let ghost prefix = entries@.take(k as int);
        let ghost next = entries@.take(k + 1);
        assert(next.drop_last() =~= prefix);
        assert(next.last() == entries@[k as int]);
        let entry = &entries[k];
        let id = entry.book_id;
        let book: BookState = match books.get(&id) {
            Some(b) => *b,
            None => {
                proof {
                    lemma_first_missing_extends(entries@, books@, k + 1);
                }
                let mut msg = String::from_str("missing book state for ");
                proof {
                    reveal_strlit("missing book state for ");
                }
                let digits = decimal_text(id);
                msg.append(digits.as_str());
                return Err(ServiceError::Internal(msg));
            },
        };
        proof {
            lemma_negation_safe_prefix(entries@, books@, k + 1);
        }
        let signed: i64 = if entry.accounting_type() == book.accounting_type {
            entry.amount
        } else {
            -entry.amount
        };
        let code = encode_ledger_code(entry.ledger_code.as_str());
        let op = PreprocessedEntry { signed_amount: signed, ledger_code: code };
        assert(op@ == posted_entry(entries@[k as int], book.accounting_type));
        proof {
            lemma_book_order_distinct(prefix);
        }
        let g = position_of(&ids, id);
        let ghost old_parts = parts@;
        let ghost old_ids = ids@;
        if g < ids.len() {
            parts[g].ops.push(op);
            let total = saturating_add_i64(parts[g].incoming_total, signed);
            parts[g].incoming_total = total;
            assert forall|h: int| 0 <= h < parts@.len() implies #[trigger] parts@[h]@ == book_part(
                next,
                books@,
                ids@[h],
            ) by {
                if h == g {
                    let ops = book_ops(prefix, id, book.accounting_type);
                    assert(book_ops(next, id, book.accounting_type) == ops.push(op@));
                    assert(ops.push(op@).drop_last() =~= ops);
                    assert(old_parts[h]@.ops == ops);
                    assert(parts@[h].ops@ =~= old_parts[h].ops@.push(op));
                    assert(parts@[h].book_state == old_parts[h].book_state);
                    assert(parts@[h]@.ops =~= ops.push(op@));
                } else {
                    assert(ids@[h] != id);
                    assert(parts@[h] == old_parts[h]);
                }
            }
        } else {
            proof {
                lemma_book_order_contains(prefix, id);
                lemma_book_ops_unmentioned(prefix, id, book.accounting_type);
            }
            ids.push(id);
            let part = PreprocessedBook { book_state: book, incoming_total: signed, ops: vec![op] };
            let ghost part_copy = part;
            parts.push(part);
            assert forall|h: int| 0 <= h < parts@.len() implies #[trigger] parts@[h]@ == book_part(
                next,
                books@,
                ids@[h],
            ) by {
                if h == g {
                    let ops = Seq::<EntryView>::empty().push(op@);
                    assert(book_ops(next, id, book.accounting_type) =~= ops);
                    assert(ops.drop_last() =~= Seq::<EntryView>::empty());
                    assert(parts@[h] == part_copy);
                    assert(part_copy.ops@ =~= seq![op]);
                    assert(parts@[h]@.ops =~= ops);
                    assert(ids@[h] == id);
                    assert(saturating_total(Seq::<EntryView>::empty()) == 0);
                    assert(saturating_total(ops) == signed);
                    assert(parts@[h]@.book_state == books@[id]);
                } else {
                    assert(ids@[h] == old_ids[h]);
                    assert(old_ids.contains(old_ids[h]));
                    assert(ids@[h] != id);
                    assert(parts@[h] == old_parts[h]);
                }
            }
        }
    }
    assert(entries@.take(n as int) =~= entries@);
    assert(book_views(parts@) =~= split_operation(entries@, books@));
    Ok(parts)
}

} // verus!

verus! {

// ---------------------------------------------------------------------------
// Answering an operation
// ---------------------------------------------------------------------------

/// Each (book, ending balance) pair as a balance of the answer.
pub open spec fn balances_of(pairs: Seq<(u32, i64)>) -> Seq<BookBalance> {
    pairs.map_values(|p: (u32, i64)| BookBalance { book_id: p.0, ending_balance: p.1 })
}

/// The message of the error for an operation a book refused.
pub open spec fn rejected_message(book_id: u32) -> Seq<char> {
    "book "@ + decimal(book_id as nat) + " rejected"@
}

/// The answer to an operation, from how the acceptor answered it: an
/// accepted operation is answered with its id, its time truncated to
/// 64 bits, and each book's ending balance in order; an operation a book
/// refused is an invalid request naming that book; a failure is an
/// internal error with the failure's message.
pub fn operation_response(result: AcceptResult) -> (res: Result<FinancialOperationResponse, ServiceError>)
    ensures
        match result {
            AcceptResult::Accepted(op) => res matches Ok(r) && r.operation_id == op.operation_id
                && r.timestamp_ns == op.timestamp_ns as u64 && r.balances@ == balances_of(
                op.ending_balances@,
            ),
            AcceptResult::Rejected { book_id } => res matches Err(ServiceError::InvalidRequest(msg))
                && msg@ == rejected_message(book_id),
            AcceptResult::Failure(m) => res matches Err(ServiceError::Internal(msg)) && msg@ == m@,
        },
{
    match result {
        AcceptResult::Accepted(op) => {
            let mut balances: Vec<BookBalance> = Vec::new();
            let n = op.ending_balances.len();
            for i in 0..n
                invariant
                    n == op.ending_balances@.len(),
                    balances@ =~= balances_of(op.ending_balances@.take(i as int)),
            {
                let (book_id, ending_balance) = op.ending_balances[i];
                balances.push(BookBalance { book_id, ending_balance });
                assert(op.ending_balances@.take(i + 1) =~= op.ending_balances@.take(i as int).push(
                    op.ending_balances@[i as int],
                ));
            }
            assert(op.ending_balances@.take(n as int) =~= op.ending_balances@);
            Ok(
                FinancialOperationResponse {
                    operation_id: op.operation_id,
                    timestamp_ns: op.timestamp_ns as u64,
                    balances,
                },
            )
        },
        AcceptResult::Rejected { book_id } => {
            let mut msg = String::from_str("book ");
            let digits = decimal_text(book_id);
            msg.append(digits.as_str());
            msg.append(" rejected");
            Err(ServiceError::InvalidRequest(msg))
        },
        AcceptResult::Failure(msg) => Err(ServiceError::Internal(msg)),
    }
}

} // verus!

verus! {

// ---------------------------------------------------------------------------
// The service
// ---------------------------------------------------------------------------

/// The command an account-creation request stands for: its own, or the
/// all-zero command when it carries none.
pub open spec fn command_or_default(command: Option<CreateAccountCommand>) -> CreateAccountCommand {
    match command {
        Some(c) => c,
        None => CreateAccountCommand { accounting_type: 0, balance_type: 0, allow_overdraft: false },
    }
}

/// The book an account-creation request asks for, read straight from the
/// request's fields: code 1 of `accounting_type` is a credit book and any
/// other code a debit book; code 1 of `balance_type` is a pending balance
/// and any other code an available one; the overdraft flag is the request's
/// own. A request without a command asks for a debit book of available
/// balance without overdraft. The book starts from an empty projected
/// balance at offset zero of segment one.
pub open spec fn requested_book(id: u32, command: Option<CreateAccountCommand>) -> BookState {
    BookState {
        id,
        accounting_type: match command {
            Some(c) => if c.accounting_type == 1 {
                AccountType::Credit
            } else {
                AccountType::Debit
            },
            None => AccountType::Debit,
        },
        balance_type: match command {
            Some(c) => if c.balance_type == 1 {
                BalanceType::Pending
            } else {
                BalanceType::Available
            },
            None => BalanceType::Available,
        },
        allow_overdraft: match command {
            Some(c) => c.allow_overdraft,
            None => false,
        },
        projected_balance: 0,
        latest_segment: 1,
        latest_offset: 0,
    }
}

/// The entries of an operation request: its command's, or none.
pub open spec fn command_entries(command: Option<FinancialOperationCommand>) -> Seq<OperationEntry> {
    match command {
        Some(c) => c.entries@,
        None => Seq::empty(),
    }
}

/// The states of the books an operation mentions, as the catalog loads them.
pub open spec fn loaded_books(catalog: BookManagerView, entries: Seq<OperationEntry>) -> Map<
    u32,
    BookState,
> {
    Map::new(|id: u32| book_order(entries).contains(id), |id: u32| catalog.load(id))
}

/// No entry needs `i64::MIN` negated: every entry posting on the other side
/// of its book has an amount other than `i64::MIN`.
pub open spec fn entries_negatable(catalog: BookManagerView, entries: Seq<OperationEntry>) -> bool {
    forall|i: int|
        0 <= i < entries.len() && #[trigger] entries[i].spec_accounting_type() != catalog.load(
            entries[i].book_id,
        ).accounting_type ==> entries[i].amount != i64::MIN
}

/// The balance each book of an operation ends with, in the order the books
/// first appear: books start from an empty projected balance, so this is
/// the saturated total of the book's signed entries.
pub open spec fn operation_balances(catalog: BookManagerView, entries: Seq<OperationEntry>) -> Seq<
    BookBalance,
> {
    book_order(entries).map_values(
        |id: u32|
            BookBalance {
                book_id: id,
                ending_balance: saturating_total(
                    book_ops(entries, id, catalog.load(id).accounting_type),
                ) as i64,
            },
    )
}

/// A saturated total lies in the range of `i64`.
pub proof fn lemma_saturating_total_in_range(ops: Seq<EntryView>)
    ensures
        i64::MIN <= saturating_total(ops) <= i64::MAX,
{
}

/// Every entry of every prefix is loaded, so no prefix misses a book.
proof fn lemma_loaded_never_missing(entries: Seq<OperationEntry>, books: Map<u32, BookState>)
    requires
        forall|i: int| 0 <= i < entries.len() ==> books.contains_key(#[trigger] entries[i].book_id),
    ensures
        first_missing(entries, books) is None,
    decreases entries.len(),
{
    if entries.len() > 0 {
        let prefix = entries.drop_last();
        assert forall|i: int| 0 <= i < prefix.len() implies books.contains_key(
            #[trigger] prefix[i].book_id,
        ) by {
            assert(entries[i].book_id == prefix[i].book_id);
        }
        lemma_loaded_never_missing(prefix, books);
        assert(books.contains_key(entries[entries.len() - 1].book_id));
    }
}

/// The loaded books hold every book an operation mentions.
proof fn lemma_loaded_books_cover(catalog: BookManagerView, entries: Seq<OperationEntry>)
    ensures
        forall|i: int|
            0 <= i < entries.len() ==> loaded_books(catalog, entries).contains_key(
                #[trigger] entries[i].book_id,
            ),
{
    assert forall|i: int| 0 <= i < entries.len() implies loaded_books(catalog, entries).contains_key(
        #[trigger] entries[i].book_id,
    ) by {
        lemma_book_order_contains(entries, entries[i].book_id);
    }
}

/// With every book loaded, safety from negation overflow is the plain
/// per-entry condition, on every prefix.
proof fn lemma_negation_safe_when_loaded(
    catalog: BookManagerView,
    all: Seq<OperationEntry>,
    k: int,
)
    requires
        0 <= k <= all.len(),
        entries_negatable(catalog, all),
    ensures
        negation_safe(all.take(k), loaded_books(catalog, all)),
    decreases k,
{
    let books = loaded_books(catalog, all);
    if k > 0 {
        let prefix = all.take(k);
        assert(prefix.drop_last() =~= all.take(k - 1));
        lemma_negation_safe_when_loaded(catalog, all, k - 1);
        lemma_loaded_books_cover(catalog, all);
        assert forall|i: int| 0 <= i < prefix.drop_last().len() implies books.contains_key(
            #[trigger] prefix.drop_last()[i].book_id,
        ) by {
            assert(prefix.drop_last()[i] == all[i]);
        }
        lemma_loaded_never_missing(prefix.drop_last(), books);
        assert(prefix.last() == all[k - 1]);
    }
}

/// The ledger service.
pub struct LedgerApi {
    state: AppState,
}

impl LedgerApi {
    /// The service over `state`.
    pub fn new(state: AppState) -> (api: Self)
        ensures
            api.spec_state() == state,
    {
        Self { state }
    }

    pub closed spec fn spec_state(&self) -> AppState {
        self.state
    }

    /// The state of the service.
    pub fn state(&self) -> (s: &AppState)
        ensures
            *s == self.spec_state(),
    {
        &self.state
    }

    /// Whether one more account can be created.
    pub fn can_create_account(&self) -> (b: bool)
        ensures
            b == (self.spec_state().book_manager@.next_id < u32::MAX),
    {
        self.state.book_manager.can_create()
    }

    /// Creates an account: a new book with the accounting type, balance type
    /// and overdraft flag of the request's command (the all-zero command when
    /// it carries none), answered with the new book's id.
    pub fn create_account(&mut self, command: Option<CreateAccountCommand>) -> (res: Result<
        CreateAccountResponse,
        ServiceError,
    >)
        requires
            old(self).spec_state().book_manager@.next_id < u32::MAX,
        ensures
            res matches Ok(r) && r.book_id == old(self).spec_state().book_manager@.next_id,
            final(self).spec_state().book_manager@.load(old(self).spec_state().book_manager@.next_id)
                == requested_book(old(self).spec_state().book_manager@.next_id, command),
            final(self).spec_state().book_manager@ == old(self).spec_state().book_manager@.after_create(
                command_or_default(command).spec_accounting_type(),
                command_or_default(command).spec_balance_type(),
                command_or_default(command).allow_overdraft,
            ),
            final(self).spec_state().acceptor == old(self).spec_state().acceptor,
            final(self).spec_state().applier == old(self).spec_state().applier,
    {
        let command = match command {
            Some(c) => c,
            None => CreateAccountCommand::default(),
        };
        let accounting_type = command.accounting_type();
        let balance_type = command.balance_type();
        let book_id = self.state.book_manager.create(
            accounting_type,
            balance_type,
            command.allow_overdraft,
        );
        Ok(CreateAccountResponse { book_id })
    }

    /// Whether an operation can be executed: the operation counter is not
    /// exhausted, and no entry needs `i64::MIN` negated.
    pub fn can_execute(&self, command: &Option<FinancialOperationCommand>) -> (b: bool)
        ensures
            b == (self.spec_state().acceptor.spec_next_operation_id() < u64::MAX && entries_negatable(
                self.spec_state().book_manager@,
                command_entries(*command),
            )),
    {
        self.state.acceptor.can_accept() && self.can_sign_entries(command)
    }

    /// Whether every entry of an operation can be signed for its book: no
    /// entry posting on the other side of its book has amount `i64::MIN`.
    pub fn can_sign_entries(&self, command: &Option<FinancialOperationCommand>) -> (b: bool)
        ensures
            b == entries_negatable(self.spec_state().book_manager@, command_entries(*command)),
    {
        match command {
            None => true,
            Some(c) => {
                let n = c.entries.len();
                for i in 0..n
                    invariant
                        n == c.entries@.len(),
                        command_entries(*command) == c.entries@,
                        forall|j: int|
                            0 <= j < i && #[trigger] c.entries@[j].spec_accounting_type()
                                != self.spec_state().book_manager@.load(
                                c.entries@[j].book_id,
                            ).accounting_type ==> c.entries@[j].amount != i64::MIN,
                {
                    let entry = &c.entries[i];
                    let book = self.state.book_manager.load_book(entry.book_id);
                    if entry.accounting_type() != book.accounting_type && entry.amount == i64::MIN {
                        assert(c.entries@[i as int].spec_accounting_type()
                            != self.spec_state().book_manager@.load(
                            c.entries@[i as int].book_id,
                        ).accounting_type);
                        return false;
                    }
                }
                true
            },
        }
    }

    /// Executes a financial operation at time `timestamp_ns`.
    ///
    /// The books the operation mentions are loaded; its entries are split
    /// per book and signed for their book; the operation is accepted under
    /// the next operation id, acknowledged, and handed to the applier (which
    /// stops counting once its counter is exhausted; the answer does not
    /// depend on it). The acceptor records the split it was handed. The
    /// answer carries the operation id, the time truncated to 64 bits, and
    /// each book's ending balance in the order the books first appear.
    pub fn execute_operation(
        &mut self,
        command: Option<FinancialOperationCommand>,
        timestamp_ns: u128,
    ) -> (res: Result<FinancialOperationResponse, ServiceError>)
        requires
            old(self).spec_state().acceptor.spec_next_operation_id() < u64::MAX,
            entries_negatable(old(self).spec_state().book_manager@, command_entries(command)),
        ensures
            res matches Ok(r) && r.operation_id == old(self).spec_state().acceptor.spec_next_operation_id()
                && r.timestamp_ns == timestamp_ns as u64 && r.balances@ == operation_balances(
                old(self).spec_state().book_manager@,
                command_entries(command),
            ),
            final(self).spec_state().book_manager == old(self).spec_state().book_manager,
            final(self).spec_state().acceptor.spec_next_operation_id() == old(
                self,
            ).spec_state().acceptor.spec_next_operation_id() + 1,
            final(self).spec_state().acceptor.spec_last_accepted() == split_operation(
                command_entries(command),
                loaded_books(old(self).spec_state().book_manager@, command_entries(command)),
            ),
            final(self).spec_state().applier.spec_apply_count() == if old(
                self,
            ).spec_state().applier.spec_apply_count() < u64::MAX {
                old(self).spec_state().applier.spec_apply_count() + 1
            } else {
                old(self).spec_state().applier.spec_apply_count() as int
            },
    {
        let ghost catalog = self.state.book_manager@;
        let entries: Vec<OperationEntry> = match command {
            Some(c) => c.entries,
            None => Vec::new(),
        };
        let ghost books_spec = loaded_books(catalog, entries@);
        let ids = book_ids_to_load(&entries);
        let mut books: HashMap<u32, BookState> = HashMap::new();
        let n = ids.len();
        for i in 0..n
            invariant
                n == ids@.len(),
                ids@ == book_order(entries@),
                catalog == self.state.book_manager@,
                books@ =~= Map::new(
                    |id: u32| ids@.take(i as int).contains(id),
                    |id: u32| catalog.load(id),
                ),
        {
            let id = ids[i];
            let book = self.state.book_manager.load_book(id);
            books.insert(id, book);
            assert forall|x: u32| ids@.take(i + 1).contains(x) <==> (ids@.take(i as int).contains(x)
                || x == id) by {
                assert(ids@.take(i + 1) =~= ids@.take(i as int).push(id));
                if ids@.take(i as int).contains(x) {
                    let j = choose|j: int| 0 <= j < i && ids@.take(i as int)[j] == x;
                    assert(ids@.take(i + 1)[j] == x);
                }
                if x == id {
                    assert(ids@.take(i + 1)[i as int] == x);
                }
            }
        }
        assert(ids@.take(n as int) =~= ids@);
        assert(books@ =~= books_spec);
        proof {
            lemma_negation_safe_when_loaded(catalog, entries@, entries@.len() as int);
            assert(entries@.take(entries@.len() as int) =~= entries@);
            lemma_loaded_books_cover(catalog, entries@);
            lemma_loaded_never_missing(entries@, books_spec);
        }
        let parts = match preprocess_entries(&entries, &books) {
            Ok(parts) => parts,
            Err(e) => {
                return Err(e);
            },
        };
        let accepted = self.state.acceptor.accept(&parts, timestamp_ns);
        let ghost ending = accepted.ending_balances@;
        let (result, apply) = acknowledge(accepted);
        if self.state.applier.can_apply() {
            let _first = self.state.applier.apply(apply.operation_id, &apply.book_ids);
        }
        let res = operation_response(result);
        proof {
            let expected = operation_balances(catalog, entries@);
            let order = book_order(entries@);
            assert(book_views(parts@) == split_operation(entries@, books_spec));
            assert(book_views(parts@).len() == parts@.len());
            assert(split_operation(entries@, books_spec).len() == order.len());
            assert(ending.len() == parts@.len());
            assert forall|i: int| 0 <= i < order.len() implies balances_of(ending)[i] == expected[i] by {
                let id = order[i];
                assert(order.contains(id));
                assert(parts@[i]@ == book_views(parts@)[i]);
                assert(parts@[i]@ == book_part(entries@, books_spec, id));
                lemma_saturating_total_in_range(
                    book_ops(entries@, id, catalog.load(id).accounting_type),
                );
            }
            assert(balances_of(ending) =~= expected);
        }
        res
    }
}

} // verus!

verus! {

// ---------------------------------------------------------------------------
// Laws of the split
// ---------------------------------------------------------------------------

/// The number of entries across all parts of a split.
pub open spec fn parts_size(parts: Seq<BookView>) -> int
    decreases parts.len(),
{
    if parts.len() == 0 {
        0
    } else {
        parts_size(parts.drop_last()) + parts.last().ops.len()
    }
}

/// The number of entries posted to the books of `order`.
spec fn ops_count(entries: Seq<OperationEntry>, books: Map<u32, BookState>, order: Seq<u32>) -> int
    decreases order.len(),
{
    if order.len() == 0 {
        0
    } else {
        ops_count(entries, books, order.drop_last()) + book_ops(
            entries,
            order.last(),
            books[order.last()].accounting_type,
        ).len()
    }
}

proof fn lemma_parts_size_is_ops_count(
    entries: Seq<OperationEntry>,
    books: Map<u32, BookState>,
    order: Seq<u32>,
)
    ensures
        parts_size(order.map_values(|id: u32| book_part(entries, books, id))) == ops_count(
            entries,
            books,
            order,
        ),
    decreases order.len(),
{
    if order.len() > 0 {
        let parts = order.map_values(|id: u32| book_part(entries, books, id));
        assert(parts.drop_last() =~= order.drop_last().map_values(
            |id: u32| book_part(entries, books, id),
        ));
        lemma_parts_size_is_ops_count(entries, books, order.drop_last());
    }
}

/// Adding one entry adds one to the count of the order that holds its book.
proof fn lemma_ops_count_step(entries: Seq<OperationEntry>, books: Map<u32, BookState>, order: Seq<u32>)
    requires
        entries.len() > 0,
        order.no_duplicates(),
    ensures
        ops_count(entries, books, order) == ops_count(entries.drop_last(), books, order) + if order.contains(
            entries.last().book_id,
        ) {
            1int
        } else {
            0int
        },
    decreases order.len(),
{
    if order.len() > 0 {
        let rest = order.drop_last();
        assert forall|i: int, j: int| 0 <= i < j < rest.len() implies rest[i] != rest[j] by {
            assert(rest[i] == order[i] && rest[j] == order[j]);
        }
        lemma_ops_count_step(entries, books, rest);
        let x = entries.last().book_id;
        if order.contains(x) {
            if order.last() != x {
                let j = choose|j: int| 0 <= j < order.len() && order[j] == x;
                assert(rest[j] == x);
            } else {
                if rest.contains(x) {
                    let j = choose|j: int| 0 <= j < rest.len() && rest[j] == x;
                    assert(order[j] == order[order.len() - 1]);
                }
            }
        } else {
            if rest.contains(x) {
                let j = choose|j: int| 0 <= j < rest.len() && rest[j] == x;
                assert(order[j] == x);
            }
        }
    }
}

/// No entry is lost or repeated by the split: the parts together hold
/// exactly as many entries as the operation.
pub proof fn lemma_split_keeps_every_entry(entries: Seq<OperationEntry>, books: Map<u32, BookState>)
    ensures
        parts_size(split_operation(entries, books)) == entries.len(),
{
    lemma_parts_size_is_ops_count(entries, books, book_order(entries));
    lemma_split_count(entries, books);
}

proof fn lemma_split_count(entries: Seq<OperationEntry>, books: Map<u32, BookState>)
    ensures
        ops_count(entries, books, book_order(entries)) == entries.len(),
    decreases entries.len(),
{
    if entries.len() > 0 {
        let prefix = entries.drop_last();
        let x = entries.last().book_id;
        let prev = book_order(prefix);
        lemma_split_count(prefix, books);
        lemma_book_order_distinct(prefix);
        lemma_book_order_distinct(entries);
        lemma_ops_count_step(entries, books, prev);
        if !prev.contains(x) {
            assert(prev.push(x).drop_last() =~= prev);
            lemma_book_order_contains(prefix, x);
            lemma_book_ops_unmentioned(prefix, x, books[x].accounting_type);
        }
    }
}

/// Each book an operation mentions is answered exactly once: the books of
/// the answer are distinct, and they are exactly the books the entries name.
pub proof fn lemma_balances_name_each_book_once(
    catalog: BookManagerView,
    entries: Seq<OperationEntry>,
    id: u32,
)
    ensures
        operation_balances(catalog, entries).map_values(|b: BookBalance| b.book_id)
            == book_order(entries),
        book_order(entries).no_duplicates(),
        book_order(entries).contains(id) <==> mentions_book(entries, id),
{
    assert(operation_balances(catalog, entries).map_values(|b: BookBalance| b.book_id)
        =~= book_order(entries));
    lemma_book_order_distinct(entries);
    lemma_book_order_contains(entries, id);
}

/// The exact sum of signed amounts.
pub open spec fn exact_total(ops: Seq<EntryView>) -> int
    decreases ops.len(),
{
    if ops.len() == 0 {
        0
    } else {
        exact_total(ops.drop_last()) + ops.last().signed_amount
    }
}

/// Saturation only acts on overflow: when no partial sum leaves the range
/// of `i64`, the saturated total is the exact sum.
pub proof fn lemma_total_exact_without_overflow(ops: Seq<EntryView>)
    requires
        forall|k: int|
            0 <= k <= ops.len() ==> i64::MIN <= #[trigger] exact_total(ops.take(k)) <= i64::MAX,
    ensures
        saturating_total(ops) == exact_total(ops),
    decreases ops.len(),
{
    if ops.len() > 0 {
        let prefix = ops.drop_last();
        assert forall|k: int| 0 <= k <= prefix.len() implies i64::MIN <= #[trigger] exact_total(
            prefix.take(k),
        ) <= i64::MAX by {
            assert(prefix.take(k) =~= ops.take(k));
        }
        lemma_total_exact_without_overflow(prefix);
        assert(ops.take(ops.len() as int) =~= ops);
    }
}

} // verus!

verus! {

// ---------------------------------------------------------------------------
// Laws in terms of the requests' own fields
// ---------------------------------------------------------------------------

/// A created account loads as the request asked: its accounting type is read
/// from the request's `accounting_type` code alone, its balance type from the
/// `balance_type` code alone, and its overdraft flag is the request's flag,
/// whatever the other fields are.
pub proof fn lemma_created_account_loads_as_requested(
    v: BookManagerView,
    command: Option<CreateAccountCommand>,
)
    ensures
        v.after_create(
            command_or_default(command).spec_accounting_type(),
            command_or_default(command).spec_balance_type(),
            command_or_default(command).allow_overdraft,
        ).load(v.next_id) == requested_book(v.next_id, command),
        command matches Some(c) ==> v.after_create(
            command_or_default(command).spec_accounting_type(),
            command_or_default(command).spec_balance_type(),
            command_or_default(command).allow_overdraft,
        ).load(v.next_id).balance_type == if c.balance_type == 1 {
            BalanceType::Pending
        } else {
            BalanceType::Available
        },
        command matches Some(c) ==> v.after_create(
            command_or_default(command).spec_accounting_type(),
            command_or_default(command).spec_balance_type(),
            command_or_default(command).allow_overdraft,
        ).load(v.next_id).allow_overdraft == c.allow_overdraft,
{
}

/// A ledger code keeps the bytes it is given: byte `i` of the code is byte
/// `i` of the input while the input lasts, and zero after; so an input of at
/// most eight bytes is the code's prefix, and a longer one keeps its first
/// eight bytes.
pub proof fn lemma_ledger_code_keeps_bytes(bytes: Seq<u8>)
    ensures
        ledger_code_of(bytes).len() == 8,
        forall|i: int|
            0 <= i < 8 ==> #[trigger] ledger_code_of(bytes)[i] == if i < bytes.len() {
                bytes[i]
            } else {
                0u8
            },
        bytes.len() <= 8 ==> ledger_code_of(bytes).take(bytes.len() as int) == bytes,
        bytes.len() >= 8 ==> ledger_code_of(bytes) == bytes.take(8),
{
    if bytes.len() <= 8 {
        assert(ledger_code_of(bytes).take(bytes.len() as int) =~= bytes);
    } else {
        assert(ledger_code_of(bytes) =~= bytes.take(8));
    }
    if bytes.len() == 8 {
        assert(ledger_code_of(bytes) =~= bytes.take(8));
    }
}

/// Whether an entry posts on the same side as a book of type `book_type`,
/// read from the entry's own code: code 1 is the credit side, any other
/// code the debit side.
pub open spec fn same_side(e: OperationEntry, book_type: AccountType) -> bool {
    (e.accounting_type == 1) == (book_type == AccountType::Credit)
}

/// An entry posted to a book keeps its amount on the book's own side and
/// contributes exactly the negated amount on the other side, whatever the
/// amount's sign; its ledger code is the first eight bytes of its code's
/// UTF-8 encoding, padded with zeros.
pub proof fn lemma_posted_entry_signs(e: OperationEntry, book_type: AccountType)
    ensures
        same_side(e, book_type) ==> posted_entry(e, book_type).signed_amount == e.amount,
        !same_side(e, book_type) ==> posted_entry(e, book_type).signed_amount == -(e.amount as int),
        forall|i: int|
            0 <= i < 8 ==> #[trigger] posted_entry(e, book_type).ledger_code[i] == if i
                < encode_utf8(e.ledger_code@).len() {
                encode_utf8(e.ledger_code@)[i]
            } else {
                0u8
            },
{
    lemma_ledger_code_keeps_bytes(encode_utf8(e.ledger_code@));
}

/// The sum of the entries posted to book `id`, each taken as its amount on
/// the book's side and as the negated amount on the other side.
pub open spec fn signed_sum(entries: Seq<OperationEntry>, id: u32, book_type: AccountType) -> int
    decreases entries.len(),
{
    if entries.len() == 0 {
        0
    } else {
        let e = entries.last();
        signed_sum(entries.drop_last(), id, book_type) + if e.book_id != id {
            0
        } else if same_side(e, book_type) {
            e.amount as int
        } else {
            -(e.amount as int)
        }
    }
}

/// The number of entries posted to book `id`.
pub open spec fn entry_count(entries: Seq<OperationEntry>, id: u32) -> int
    decreases entries.len(),
{
    if entries.len() == 0 {
        0
    } else {
        entry_count(entries.drop_last(), id) + if entries.last().book_id == id {
            1int
        } else {
            0
        }
    }
}

/// A book receives every entry that names it and no other, and the exact
/// total of what it receives is the signed sum of those entries: amounts on
/// the book's side count as they are, amounts on the other side negated.
pub proof fn lemma_book_total_is_signed_sum(
    entries: Seq<OperationEntry>,
    id: u32,
    book_type: AccountType,
)
    ensures
        book_ops(entries, id, book_type).len() == entry_count(entries, id),
        exact_total(book_ops(entries, id, book_type)) == signed_sum(entries, id, book_type),
    decreases entries.len(),
{
    if entries.len() > 0 {
        let prefix = entries.drop_last();
        let e = entries.last();
        lemma_book_total_is_signed_sum(prefix, id, book_type);
        lemma_posted_entry_signs(e, book_type);
        let ops = book_ops(prefix, id, book_type);
        if e.book_id == id {
            assert(ops.push(posted_entry(e, book_type)).drop_last() =~= ops);
        }
    }
}

/// When no partial sum of a book's entries leaves the range of `i64`, the
/// balance the operation answers for that book is the signed sum of its
/// entries: amounts on the book's side as they are, the others negated.
pub proof fn lemma_answered_balance_is_signed_sum(
    catalog: BookManagerView,
    entries: Seq<OperationEntry>,
    i: int,
)
    requires
        0 <= i < book_order(entries).len(),
        forall|k: int|
            0 <= k <= book_ops(
                entries,
                book_order(entries)[i],
                catalog.load(book_order(entries)[i]).accounting_type,
            ).len() ==> i64::MIN <= #[trigger] exact_total(
                book_ops(
                    entries,
                    book_order(entries)[i],
                    catalog.load(book_order(entries)[i]).accounting_type,
                ).take(k),
            ) <= i64::MAX,
    ensures
        operation_balances(catalog, entries)[i].book_id == book_order(entries)[i],
        operation_balances(catalog, entries)[i].ending_balance == signed_sum(
            entries,
            book_order(entries)[i],
            catalog.load(book_order(entries)[i]).accounting_type,
        ),
{
    let id = book_order(entries)[i];
    let t = catalog.load(id).accounting_type;
    lemma_total_exact_without_overflow(book_ops(entries, id, t));
    lemma_book_total_is_signed_sum(entries, id, t);
    lemma_saturating_total_in_range(book_ops(entries, id, t));
}

} // verus!

verus! {

/// The entries a book receives keep the operation's order: splitting the
/// entries anywhere, the book receives what the first half posts to it,
/// then what the second half posts to it; and a single entry naming the
/// book is received as that one posted entry.
pub proof fn lemma_book_ops_keep_order(
    first: Seq<OperationEntry>,
    second: Seq<OperationEntry>,
    id: u32,
    book_type: AccountType,
)
    ensures
        book_ops(first + second, id, book_type) == book_ops(first, id, book_type) + book_ops(
            second,
            id,
            book_type,
        ),
        forall|e: OperationEntry|
            e.book_id == id ==> #[trigger] book_ops(seq![e], id, book_type) == seq![
                posted_entry(e, book_type),
            ],
    decreases second.len(),
{
    if second.len() == 0 {
        assert(first + second =~= first);
        assert(book_ops(first, id, book_type) + Seq::<EntryView>::empty() =~= book_ops(
            first,
            id,
            book_type,
        ));
    } else {
        lemma_book_ops_keep_order(first, second.drop_last(), id, book_type);
        assert((first + second).drop_last() =~= first + second.drop_last());
        assert((first + second).last() == second.last());
        let a = book_ops(first, id, book_type);
        let b = book_ops(second.drop_last(), id, book_type);
        if second.last().book_id == id {
            assert(a + b.push(posted_entry(second.last(), book_type)) =~= (a + b).push(
                posted_entry(second.last(), book_type),
            ));
        }
    }
    assert forall|e: OperationEntry| e.book_id == id implies #[trigger] book_ops(
        seq![e],
        id,
        book_type,
    ) == seq![posted_entry(e, book_type)] by {
        assert(seq![e].drop_last() =~= Seq::<OperationEntry>::empty());
        assert(seq![e].last() == e);
        assert(seq![e].len() == 1);
        assert(book_ops(Seq::<OperationEntry>::empty(), id, book_type) == Seq::<EntryView>::empty());
        assert(Seq::<EntryView>::empty().push(posted_entry(e, book_type)) =~= seq![
            posted_entry(e, book_type),
        ]);
    }
}

} // verus!

verus! {

/// Books are answered in the order they first appear: the books of a first
/// part of the entries come first, in their own order, whatever follows;
/// and a single entry's book is the only one.
pub proof fn lemma_book_order_keeps_first_appearance(
    first: Seq<OperationEntry>,
    second: Seq<OperationEntry>,
)
    ensures
        book_order(first).len() <= book_order(first + second).len(),
        book_order(first + second).take(book_order(first).len() as int) == book_order(first),
        forall|e: OperationEntry| #[trigger] book_order(seq![e]) == seq![e.book_id],
    decreases second.len(),
{
    if second.len() == 0 {
        assert(first + second =~= first);
        assert(book_order(first).take(book_order(first).len() as int) =~= book_order(first));
    } else {
        lemma_book_order_keeps_first_appearance(first, second.drop_last());
        assert((first + second).drop_last() =~= first + second.drop_last());
        let prev = book_order(first + second.drop_last());
        let n = book_order(first).len() as int;
        assert(prev.push((first + second).last().book_id).take(n) =~= prev.take(n));
    }
    assert forall|e: OperationEntry| #[trigger] book_order(seq![e]) == seq![e.book_id] by {
        assert(seq![e].drop_last() =~= Seq::<OperationEntry>::empty());
        assert(seq![e].last() == e);
        assert(book_order(Seq::<OperationEntry>::empty()) == Seq::<u32>::empty());
        assert(Seq::<u32>::empty().push(e.book_id) =~= seq![e.book_id]);
    }
}

} // verus!
