use ledger_api::actors::acceptor::{compute_ending_balance, Acceptor};
use ledger_api::actors::applier::Applier;
use ledger_api::actors::book_manager::BookManager;
use ledger_api::actors::writer::acknowledge;
use ledger_api::actors::{AcceptResult, AcceptedOperation, BookState, PreprocessedBook};
use ledger_api::proto::{AccountType, BalanceType};

fn book(id: u32, projected_balance: i128) -> BookState {
    BookState {
        id,
        accounting_type: AccountType::Debit,
        balance_type: BalanceType::Available,
        allow_overdraft: false,
        projected_balance,
        latest_segment: 1,
        latest_offset: 0,
    }
}

#[test]
fn book_ids_start_at_one_and_count_up() {
    let mut manager = BookManager::new();
    assert_eq!(manager.next_id(), 1);
    assert_eq!(manager.create(AccountType::Debit, BalanceType::Available, false), 1);
    assert_eq!(manager.create(AccountType::Credit, BalanceType::Pending, true), 2);
    assert_eq!(manager.create(AccountType::Credit, BalanceType::Available, false), 3);
    assert_eq!(manager.next_id(), 4);
    assert!(manager.can_create());
}

#[test]
fn created_book_loads_back() {
    let mut manager = BookManager::new();
    let first = manager.create(AccountType::Debit, BalanceType::Available, false);
    let id = manager.create(AccountType::Credit, BalanceType::Pending, true);
    let loaded = manager.load_book(id);
    assert_eq!(
        loaded,
        BookState {
            id,
            accounting_type: AccountType::Credit,
            balance_type: BalanceType::Pending,
            allow_overdraft: true,
            projected_balance: 0,
            latest_segment: 1,
            latest_offset: 0,
        }
    );
    assert_eq!(manager.load_book(first).accounting_type, AccountType::Debit);
}

#[test]
fn unknown_book_loads_as_default_debit_book() {
    let mut manager = BookManager::new();
    manager.create(AccountType::Credit, BalanceType::Pending, true);
    for id in [0u32, 2, 77, u32::MAX] {
        let loaded = manager.load_book(id);
        assert_eq!(
            loaded,
            BookState {
                id,
                accounting_type: AccountType::Debit,
                balance_type: BalanceType::Available,
                allow_overdraft: false,
                projected_balance: 0,
                latest_segment: 1,
                latest_offset: 0,
            }
        );
    }
}

#[test]
fn ending_balance_adds_and_clamps() {
    assert_eq!(compute_ending_balance(0, 250), 250);
    assert_eq!(compute_ending_balance(100, -250), -150);
    assert_eq!(compute_ending_balance(i64::MAX as i128, 1), i64::MAX);
    assert_eq!(compute_ending_balance(i64::MIN as i128, -1), i64::MIN);
    assert_eq!(compute_ending_balance(i128::MAX, i64::MAX), i64::MAX);
    assert_eq!(compute_ending_balance(i128::MIN, i64::MIN), i64::MIN);
    assert_eq!(compute_ending_balance(i128::MAX, i64::MIN), i64::MAX);
    assert_eq!(compute_ending_balance(-(1i128 << 70), 5), i64::MIN);
}

#[test]
fn acceptor_numbers_operations_in_sequence() {
    let mut acceptor = Acceptor::new();
    assert_eq!(acceptor.next_operation_id(), 1);
    let books = vec![
        PreprocessedBook { book_state: book(7, 10), incoming_total: 5, ops: vec![] },
        PreprocessedBook { book_state: book(3, 0), incoming_total: -8, ops: vec![] },
    ];
    let first = acceptor.accept(&books, 1_000);
    assert_eq!(first.operation_id, 1);
    assert_eq!(first.timestamp_ns, 1_000);
    assert_eq!(first.ending_balances, vec![(7, 15), (3, -8)]);
    let second = acceptor.accept(&Vec::new(), 2_000);
    assert_eq!(second.operation_id, 2);
    assert!(second.ending_balances.is_empty());
    assert_eq!(acceptor.next_operation_id(), 3);
    assert!(acceptor.can_accept());
}

#[test]
fn applier_reports_only_the_first_operation() {
    let mut applier = Applier::new();
    assert_eq!(applier.apply_count(), 0);
    assert!(applier.apply(1, &vec![1, 2]));
    assert!(!applier.apply(2, &vec![3]));
    assert!(!applier.apply(3, &vec![]));
    assert_eq!(applier.apply_count(), 3);
    assert!(applier.can_apply());
}

#[test]
fn writer_answers_and_hands_over_book_ids() {
    let accepted = AcceptedOperation {
        operation_id: 9,
        timestamp_ns: 42,
        ending_balances: vec![(5, 1), (2, -3), (8, 0)],
    };
    let (result, apply) = acknowledge(accepted);
    match result {
        AcceptResult::Accepted(op) => {
            assert_eq!(op.operation_id, 9);
            assert_eq!(op.timestamp_ns, 42);
            assert_eq!(op.ending_balances, vec![(5, 1), (2, -3), (8, 0)]);
        }
        other => panic!("unexpected answer {:?}", other),
    }
    assert_eq!(apply.operation_id, 9);
    assert_eq!(apply.book_ids, vec![5, 2, 8]);
}


#[test]
fn run_of_creations_counts_up_and_reads_back() {
    let mut manager = BookManager::new();
    let requests = [
        (AccountType::Credit, BalanceType::Pending, true),
        (AccountType::Debit, BalanceType::Available, false),
        (AccountType::Credit, BalanceType::Available, true),
        (AccountType::Debit, BalanceType::Pending, false),
    ];
    let mut ids = Vec::new();
    for (k, (a, b, o)) in requests.iter().enumerate() {
        let id = manager.create(*a, *b, *o);
        // a load between creations changes nothing
        let _ = manager.load_book(id);
        assert_eq!(id as usize, k + 1);
        ids.push(id);
    }
    for (id, (a, b, o)) in ids.iter().zip(requests.iter()) {
        let loaded = manager.load_book(*id);
        assert_eq!(loaded.accounting_type, *a);
        assert_eq!(loaded.balance_type, *b);
        assert_eq!(loaded.allow_overdraft, *o);
        assert_eq!(loaded.id, *id);
    }
}

#[test]
fn run_of_accepts_counts_up_from_one() {
    let mut acceptor = Acceptor::new();
    let ids: Vec<u64> = (0..5).map(|t| acceptor.accept(&Vec::new(), t).operation_id).collect();
    assert_eq!(ids, vec![1, 2, 3, 4, 5]);
}
