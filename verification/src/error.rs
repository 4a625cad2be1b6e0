//! Why the ledger refuses an operation.

use vstd::prelude::*;

verus! {

/// A refusal. The operation that returns one has changed nothing.
#[derive(Clone, Copy, Debug, PartialEq, Eq, Structural)]
pub enum LedgerError {
    /// The one who asks for a loan is registered with another role than
    /// borrower.
    NotBorrower,
    /// No loan has this id.
    LoanNotFound,
    /// The loan is past the state in which it can be approved.
    LoanNotActive,
    /// The one who pays is not the borrower of the loan.
    NotLoanBorrower,
    /// The loan is not in the state in which it takes payments.
    LoanNotApproved,
    /// The amount of the payment is below zero.
    NegativePayment,
    /// What would be owed after the payment is below the least `i128`.
    AmountOverflow,
    /// The ids are used up: the last loan has the greatest `u32`.
    LoanIdsExhausted,
    /// The loan would fall due past the last second that a `u64` counts.
    DueDateOverflow,
}

} // verus!
