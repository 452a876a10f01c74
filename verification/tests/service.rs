use std::collections::HashMap;

use ledger_api::actors::acceptor::Acceptor;
use ledger_api::actors::applier::Applier;
use ledger_api::actors::book_manager::BookManager;
use ledger_api::actors::{AcceptResult, AcceptedOperation, AppState, BookState};
use ledger_api::decimal::decimal_text;
use ledger_api::error::{RpcCode, ServiceError};
use ledger_api::proto::{
    AccountType, BalanceType, BookBalance, CreateAccountCommand, FinancialOperationCommand,
    OperationEntry,
};
use ledger_api::service::{
    book_ids_to_load, encode_ledger_code, operation_response, preprocess_entries, LedgerApi,
};

fn fresh_api() -> LedgerApi {
    LedgerApi::new(AppState {
        book_manager: BookManager::new(),
        acceptor: Acceptor::new(),
        applier: Applier::new(),
    })
}

fn entry(book_id: u32, accounting_type: i32, amount: i64, ledger_code: &str) -> OperationEntry {
    OperationEntry { book_id, accounting_type, amount, ledger_code: ledger_code.to_string() }
}

fn book(id: u32, accounting_type: AccountType) -> BookState {
    BookState {
        id,
        accounting_type,
        balance_type: BalanceType::Available,
        allow_overdraft: false,
        projected_balance: 0,
        latest_segment: 1,
        latest_offset: 0,
    }
}

#[test]
fn decimal_text_renders_like_format() {
    for n in [0u32, 7, 10, 42, 1000, 65_535, 4_294_967_295] {
        assert_eq!(decimal_text(n), format!("{n}"));
    }
}

#[test]
fn wire_codes_read_with_default() {
    assert_eq!(AccountType::from_code(0), AccountType::Debit);
    assert_eq!(AccountType::from_code(1), AccountType::Credit);
    assert_eq!(AccountType::from_code(2), AccountType::Debit);
    assert_eq!(AccountType::from_code(-5), AccountType::Debit);
    assert_eq!(BalanceType::from_code(0), BalanceType::Available);
    assert_eq!(BalanceType::from_code(1), BalanceType::Pending);
    assert_eq!(BalanceType::from_code(9), BalanceType::Available);
    assert_eq!(AccountType::Credit.code(), 1);
    assert_eq!(BalanceType::Available.code(), 0);
}

#[test]
fn ledger_code_is_padded_to_eight_bytes() {
    assert_eq!(encode_ledger_code("AB"), [b'A', b'B', 0, 0, 0, 0, 0, 0]);
    assert_eq!(encode_ledger_code(""), [0u8; 8]);
    assert_eq!(encode_ledger_code("ABCDEFGH"), *b"ABCDEFGH");
}

#[test]
fn ledger_code_keeps_only_first_eight_bytes() {
    assert_eq!(encode_ledger_code("ABCDEFGHIJK"), *b"ABCDEFGH");
    // "é" is two bytes in UTF-8; the code is cut by bytes, not characters.
    assert_eq!(encode_ledger_code("abcdefgé"), [b'a', b'b', b'c', b'd', b'e', b'f', b'g', 0xc3]);
    assert_eq!(encode_ledger_code("é"), [0xc3, 0xa9, 0, 0, 0, 0, 0, 0]);
}

#[test]
fn books_load_in_order_of_first_appearance() {
    let entries = vec![
        entry(5, 0, 1, "a"),
        entry(2, 0, 1, "b"),
        entry(5, 1, 1, "c"),
        entry(9, 0, 1, "d"),
        entry(2, 0, 1, "e"),
    ];
    assert_eq!(book_ids_to_load(&entries), vec![5, 2, 9]);
    assert_eq!(book_ids_to_load(&Vec::new()), Vec::<u32>::new());
}

#[test]
fn preprocess_groups_and_signs_entries() {
    let mut books = HashMap::new();
    books.insert(1, book(1, AccountType::Debit));
    books.insert(2, book(2, AccountType::Credit));
    let entries = vec![
        entry(1, 0, 100, "SALE"),
        entry(2, 0, 40, "FEE"),
        entry(1, 1, 30, "REFUND"),
        entry(2, 1, 15, "FEE"),
    ];
    let parts = preprocess_entries(&entries, &books).unwrap();
    assert_eq!(parts.len(), 2);
    assert_eq!(parts[0].book_state, book(1, AccountType::Debit));
    assert_eq!(parts[0].incoming_total, 70);
    let signed: Vec<i64> = parts[0].ops.iter().map(|op| op.signed_amount).collect();
    assert_eq!(signed, vec![100, -30]);
    assert_eq!(parts[0].ops[0].ledger_code, *b"SALE\0\0\0\0");
    assert_eq!(parts[0].ops[1].ledger_code, *b"REFUND\0\0");
    assert_eq!(parts[1].book_state, book(2, AccountType::Credit));
    assert_eq!(parts[1].incoming_total, -25);
    let signed: Vec<i64> = parts[1].ops.iter().map(|op| op.signed_amount).collect();
    assert_eq!(signed, vec![-40, 15]);
}

#[test]
fn preprocess_total_saturates_at_each_step() {
    let mut books = HashMap::new();
    books.insert(4, book(4, AccountType::Debit));
    let entries = vec![
        entry(4, 0, i64::MAX, "A"),
        entry(4, 0, 10, "B"),
        entry(4, 1, 20, "C"),
    ];
    let parts = preprocess_entries(&entries, &books).unwrap();
    // MAX + 10 saturates to MAX; then 20 is taken off.
    assert_eq!(parts[0].incoming_total, i64::MAX - 20);
    let entries = vec![entry(4, 0, i64::MIN, "A"), entry(4, 0, -1, "B")];
    let parts = preprocess_entries(&entries, &books).unwrap();
    assert_eq!(parts[0].incoming_total, i64::MIN);
}

#[test]
fn preprocess_reports_first_missing_book() {
    let mut books = HashMap::new();
    books.insert(1, book(1, AccountType::Debit));
    let entries = vec![entry(1, 0, 5, "A"), entry(31, 0, 5, "B"), entry(8, 0, 5, "C")];
    match preprocess_entries(&entries, &books) {
        Err(ServiceError::Internal(msg)) => assert_eq!(msg, "missing book state for 31"),
        other => panic!("unexpected result {:?}", other),
    }
}

#[test]
fn preprocess_of_no_entries_is_empty() {
    let books = HashMap::new();
    assert!(preprocess_entries(&Vec::new(), &books).unwrap().is_empty());
}

#[test]
fn accepted_operation_is_answered_with_balances() {
    let accepted = AcceptedOperation {
        operation_id: 12,
        timestamp_ns: (1u128 << 64) + 99,
        ending_balances: vec![(3, -4), (1, 8)],
    };
    let response = operation_response(AcceptResult::Accepted(accepted)).unwrap();
    assert_eq!(response.operation_id, 12);
    assert_eq!(response.timestamp_ns, 99);
    assert_eq!(
        response.balances,
        vec![
            BookBalance { book_id: 3, ending_balance: -4 },
            BookBalance { book_id: 1, ending_balance: 8 },
        ]
    );
}

#[test]
fn rejected_operation_is_an_invalid_request() {
    match operation_response(AcceptResult::Rejected { book_id: 17 }) {
        Err(ServiceError::InvalidRequest(msg)) => assert_eq!(msg, "book 17 rejected"),
        other => panic!("unexpected result {:?}", other),
    }
}

#[test]
fn failed_operation_is_an_internal_error() {
    match operation_response(AcceptResult::Failure("writer channel closed".to_string())) {
        Err(ServiceError::Internal(msg)) => assert_eq!(msg, "writer channel closed"),
        other => panic!("unexpected result {:?}", other),
    }
}

#[test]
fn errors_map_to_status_codes() {
    let status = ServiceError::InvalidRequest("book 3 rejected".to_string()).into_status();
    assert_eq!(status.code, RpcCode::InvalidArgument);
    assert_eq!(status.message, "book 3 rejected");
    let status = ServiceError::Internal("boom".to_string()).into_status();
    assert_eq!(status.code, RpcCode::Internal);
    assert_eq!(status.message, "boom");
}

#[test]
fn errors_display_with_their_kind() {
    assert_eq!(
        ServiceError::InvalidRequest("x".to_string()).display_text(),
        "invalid request: x"
    );
    assert_eq!(ServiceError::Internal("y".to_string()).display_text(), "internal failure: y");
}

#[test]
fn create_account_hands_out_consecutive_ids() {
    let mut api = fresh_api();
    assert!(api.can_create_account());
    let first = api
        .create_account(Some(CreateAccountCommand {
            accounting_type: 1,
            balance_type: 1,
            allow_overdraft: true,
        }))
        .unwrap();
    assert_eq!(first.book_id, 1);
    let second = api.create_account(None).unwrap();
    assert_eq!(second.book_id, 2);
    let manager = &api.state().book_manager;
    assert_eq!(manager.load_book(1).accounting_type, AccountType::Credit);
    assert_eq!(manager.load_book(1).balance_type, BalanceType::Pending);
    assert!(manager.load_book(1).allow_overdraft);
    assert_eq!(manager.load_book(2).accounting_type, AccountType::Debit);
    assert_eq!(manager.load_book(2).balance_type, BalanceType::Available);
    assert!(!manager.load_book(2).allow_overdraft);
}

#[test]
fn operation_signs_entries_by_book_type() {
    let mut api = fresh_api();
    let credit = api
        .create_account(Some(CreateAccountCommand {
            accounting_type: 1,
            balance_type: 0,
            allow_overdraft: false,
        }))
        .unwrap()
        .book_id;
    let debit = api.create_account(None).unwrap().book_id;
    let command = FinancialOperationCommand {
        entries: vec![
            entry(credit, 1, 500, "DEPOSIT"),
            entry(debit, 1, 500, "DEPOSIT"),
            entry(credit, 0, 120, "WITHDRAW"),
        ],
    };
    let command = Some(command);
    assert!(api.can_execute(&command));
    let response = api.execute_operation(command, 5_000).unwrap();
    assert_eq!(response.operation_id, 1);
    assert_eq!(response.timestamp_ns, 5_000);
    assert_eq!(
        response.balances,
        vec![
            BookBalance { book_id: credit, ending_balance: 380 },
            BookBalance { book_id: debit, ending_balance: -500 },
        ]
    );
}

#[test]
fn operations_are_numbered_and_applied_in_sequence() {
    let mut api = fresh_api();
    let id = api.create_account(None).unwrap().book_id;
    let first = api
        .execute_operation(
            Some(FinancialOperationCommand { entries: vec![entry(id, 0, 10, "A")] }),
            1,
        )
        .unwrap();
    let second = api.execute_operation(None, 2).unwrap();
    assert_eq!(first.operation_id, 1);
    assert_eq!(second.operation_id, 2);
    assert!(second.balances.is_empty());
    assert_eq!(api.state().acceptor.next_operation_id(), 3);
    assert_eq!(api.state().applier.apply_count(), 2);
    // Balances are computed from the book's projected balance, which the
    // catalog loads as zero: they do not carry over between operations.
    assert_eq!(first.balances, vec![BookBalance { book_id: id, ending_balance: 10 }]);
}

#[test]
fn operation_on_unknown_book_uses_default_debit_book() {
    let mut api = fresh_api();
    let response = api
        .execute_operation(
            Some(FinancialOperationCommand {
                entries: vec![entry(44, 1, 7, "X"), entry(44, 0, 2, "Y")],
            }),
            0,
        )
        .unwrap();
    assert_eq!(response.balances, vec![BookBalance { book_id: 44, ending_balance: -5 }]);
}

#[test]
fn operation_that_would_negate_minimum_is_refused_by_check() {
    let api = fresh_api();
    let command = Some(FinancialOperationCommand { entries: vec![entry(1, 1, i64::MIN, "X")] });
    assert!(!api.can_execute(&command));
    let command = Some(FinancialOperationCommand { entries: vec![entry(1, 0, i64::MIN, "X")] });
    assert!(api.can_execute(&command));
}

#[test]
fn split_keeps_every_entry_once() {
    let mut books = HashMap::new();
    for id in [1u32, 2, 3] {
        books.insert(id, book(id, AccountType::Debit));
    }
    let entries = vec![
        entry(3, 0, 1, "A"),
        entry(1, 0, 2, "B"),
        entry(3, 1, 3, "C"),
        entry(2, 0, 4, "D"),
        entry(1, 0, 5, "E"),
        entry(3, 0, 6, "F"),
    ];
    let parts = preprocess_entries(&entries, &books).unwrap();
    let ids: Vec<u32> = parts.iter().map(|p| p.book_state.id).collect();
    assert_eq!(ids, vec![3, 1, 2]);
    let total: usize = parts.iter().map(|p| p.ops.len()).sum();
    assert_eq!(total, entries.len());
    let signed: Vec<i64> = parts[0].ops.iter().map(|op| op.signed_amount).collect();
    assert_eq!(signed, vec![1, -3, 6]);
}

#[test]
fn each_mentioned_book_is_answered_once() {
    let mut api = fresh_api();
    let response = api
        .execute_operation(
            Some(FinancialOperationCommand {
                entries: vec![entry(2, 0, 1, "A"), entry(1, 0, 1, "B"), entry(2, 0, 1, "C")],
            }),
            0,
        )
        .unwrap();
    let ids: Vec<u32> = response.balances.iter().map(|b| b.book_id).collect();
    assert_eq!(ids, vec![2, 1]);
}

#[test]
fn sign_check_looks_only_at_entries() {
    let api = fresh_api();
    let command = Some(FinancialOperationCommand { entries: vec![entry(3, 1, i64::MIN, "X")] });
    assert!(!api.can_sign_entries(&command));
    assert!(api.can_sign_entries(&None));
    let command = Some(FinancialOperationCommand { entries: vec![entry(3, 0, i64::MIN, "X")] });
    assert!(api.can_sign_entries(&command));
}
