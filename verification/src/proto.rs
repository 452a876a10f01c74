//! The messages of the ledger's RPC interface, as the service sees them:
//! enumerations travel as `i32` codes, and a code read back gives its
//! variant, or the variant of code zero when the code is unknown.

use vstd::prelude::*;

verus! {

/// How a book records its balance: debits increase a debit book, credits
/// increase a credit book.
#[derive(Clone, Copy, Debug, PartialEq, Eq, Structural)]
pub enum AccountType {
    Debit,
    Credit,
}

/// Which balance a book tracks.
#[derive(Clone, Copy, Debug, PartialEq, Eq, Structural)]
pub enum BalanceType {
    Available,
    Pending,
}

impl AccountType {
    /// The account type that wire code `code` stands for: `1` is `Credit`;
    /// `0` and every unknown code read as `Debit`.
    pub open spec fn spec_from_code(code: i32) -> AccountType {
        if code == 1 {
            AccountType::Credit
        } else {
            AccountType::Debit
        }
    }

    pub fn from_code(code: i32) -> (t: AccountType)
        ensures
            t == Self::spec_from_code(code),
    {
        if code == 1 {
            AccountType::Credit
        } else {
            AccountType::Debit
        }
    }

    /// The wire code of this account type.
    pub open spec fn spec_code(self) -> i32 {
        match self {
            AccountType::Debit => 0,
            AccountType::Credit => 1,
        }
    }

    pub fn code(&self) -> (c: i32)
        ensures
            c == self.spec_code(),
    {
        match self {
            AccountType::Debit => 0,
            AccountType::Credit => 1,
        }
    }
}

impl BalanceType {
    /// The balance type that wire code `code` stands for: `1` is `Pending`;
    /// `0` and every unknown code read as `Available`.
    pub open spec fn spec_from_code(code: i32) -> BalanceType {
        if code == 1 {
            BalanceType::Pending
        } else {
            BalanceType::Available
        }
    }

    pub fn from_code(code: i32) -> (t: BalanceType)
        ensures
            t == Self::spec_from_code(code),
    {
        if code == 1 {
            BalanceType::Pending
        } else {
            BalanceType::Available
        }
    }

    /// The wire code of this balance type.
    pub open spec fn spec_code(self) -> i32 {
        match self {
            BalanceType::Available => 0,
            BalanceType::Pending => 1,
        }
    }

    pub fn code(&self) -> (c: i32)
        ensures
            c == self.spec_code(),
    {
        match self {
            BalanceType::Available => 0,
            BalanceType::Pending => 1,
        }
    }
}

/// The command of an account-creation request.
#[derive(Clone, Copy, Debug, PartialEq, Eq, Structural)]
pub struct CreateAccountCommand {
    pub accounting_type: i32,
    pub balance_type: i32,
    pub allow_overdraft: bool,
}

impl Default for CreateAccountCommand {
    /// The command a request without one stands for: every field zero.
    fn default() -> (c: Self)
        ensures
            c == (CreateAccountCommand { accounting_type: 0, balance_type: 0, allow_overdraft: false }),
    {
        CreateAccountCommand { accounting_type: 0, balance_type: 0, allow_overdraft: false }
    }
}

impl CreateAccountCommand {
    pub open spec fn spec_accounting_type(&self) -> AccountType {
        AccountType::spec_from_code(self.accounting_type)
    }

    pub open spec fn spec_balance_type(&self) -> BalanceType {
        BalanceType::spec_from_code(self.balance_type)
    }

    /// The accounting type this command asks for.
    #[verifier::when_used_as_spec(spec_accounting_type)]
    pub fn accounting_type(&self) -> (t: AccountType)
        ensures
            t == self.spec_accounting_type(),
    {
        AccountType::from_code(self.accounting_type)
    }

    /// The balance type this command asks for.
    #[verifier::when_used_as_spec(spec_balance_type)]
    pub fn balance_type(&self) -> (t: BalanceType)
        ensures
            t == self.spec_balance_type(),
    {
        BalanceType::from_code(self.balance_type)
    }
}

/// The answer to an account-creation request.
#[derive(Clone, Copy, Debug, PartialEq, Eq, Structural)]
pub struct CreateAccountResponse {
    pub book_id: u32,
}

/// One posting of a financial operation: `amount` is posted to book
/// `book_id` on the side named by `accounting_type`.
#[derive(Clone, Debug)]
pub struct OperationEntry {
    pub book_id: u32,
    pub accounting_type: i32,
    pub amount: i64,
    pub ledger_code: String,
}

impl OperationEntry {
    pub open spec fn spec_accounting_type(&self) -> AccountType {
        AccountType::spec_from_code(self.accounting_type)
    }

    /// The side this entry posts to.
    #[verifier::when_used_as_spec(spec_accounting_type)]
    pub fn accounting_type(&self) -> (t: AccountType)
        ensures
            t == self.spec_accounting_type(),
    {
        AccountType::from_code(self.accounting_type)
    }
}

/// The command of a financial-operation request.
#[derive(Clone, Debug)]
pub struct FinancialOperationCommand {
    pub entries: Vec<OperationEntry>,
}

/// A book's balance after an operation.
#[derive(Clone, Copy, Debug, PartialEq, Eq, Structural)]
pub struct BookBalance {
    pub book_id: u32,
    pub ending_balance: i64,
}

/// The answer to a financial-operation request.
#[derive(Clone, Debug)]
pub struct FinancialOperationResponse {
    pub operation_id: u64,
    pub timestamp_ns: u64,
    pub balances: Vec<BookBalance>,
}

} // verus!
