//! Loans and the steps of their life.

use crate::address::Address;
use crate::error::LedgerError;
use crate::policy::{due_date, last_second, least_amount, spec_due_date};
use vstd::prelude::*;

verus! {

/// Where a loan stands. A loan is made `Active`, an approval makes it
/// `Approved`, and the payment that leaves nothing owed makes it `Paid`.
/// Nothing here makes a loan `Defaulted`.
#[derive(Clone, Copy, Debug, PartialEq, Eq, Structural)]
pub enum LoanStatus {
    Active,
    Approved,
    Paid,
    Defaulted,
}

/// The record of a loan.
#[derive(Debug, PartialEq, Eq)]
pub struct Loan {
    pub id: u32,
    pub borrower: Address,
    /// The principal asked for.
    pub amount: i128,
    pub purpose: String,
    pub term_days: u32,
    /// In percent, fixed when the loan is made.
    pub interest_rate: u32,
    pub status: LoanStatus,
    /// What is still owed.
    pub amount_remaining: i128,
    /// The second at which the loan was asked for.
    pub created_at: u64,
    /// The second at which the loan falls due.
    pub due_date: u64,
    /// Who approved the loan, once somebody has.
    pub lender: Option<Address>,
}

/// A loan record as plain mathematics.
pub struct LoanView {
    pub id: nat,
    pub borrower: Seq<char>,
    pub amount: int,
    pub purpose: Seq<char>,
    pub term_days: nat,
    pub interest_rate: nat,
    pub status: LoanStatus,
    pub amount_remaining: int,
    pub created_at: nat,
    pub due_date: nat,
    pub lender: Option<Seq<char>>,
}

impl LoanView {
    /// The loan that `borrower` asks for at `now`: all of it is owed, nobody
    /// has approved it, and it falls due `term_days` days later.
    pub open spec fn opened(
        id: nat,
        borrower: Seq<char>,
        amount: int,
        purpose: Seq<char>,
        term_days: nat,
        interest_rate: nat,
        now: nat,
    ) -> LoanView {
        LoanView {
            id,
            borrower,
            amount,
            purpose,
            term_days,
            interest_rate,
            status: LoanStatus::Active,
            amount_remaining: amount,
            created_at: now,
            due_date: spec_due_date(now, term_days),
            lender: None,
        }
    }

    /// Whether this loan can be approved.
    pub open spec fn approval_check(self) -> Result<(), LedgerError> {
        if self.status == LoanStatus::Active {
            Ok(())
        } else {
            Err(LedgerError::LoanNotActive)
        }
    }

    /// This loan once `lender` has approved it.
    pub open spec fn approved_by(self, lender: Seq<char>) -> LoanView {
        LoanView { status: LoanStatus::Approved, lender: Some(lender), ..self }
    }

    /// Whether a loan with these terms can be made at `now`: its due date
    /// has to be a second that a `u64` counts.
    pub open spec fn opening_check(term_days: nat, now: nat) -> Result<(), LedgerError> {
        if spec_due_date(now, term_days) > last_second() {
            Err(LedgerError::DueDateOverflow)
        } else {
            Ok(())
        }
    }

    /// Whether this loan takes a payment of `amount` from `payer`. The payer
    /// is looked at first, then the status, then the amount: a payment
    /// below zero is none, and what is owed afterwards has to be an amount
    /// that a record can hold.
    pub open spec fn payment_check(self, payer: Seq<char>, amount: int) -> Result<
        (),
        LedgerError,
    > {
        if self.borrower != payer {
            Err(LedgerError::NotLoanBorrower)
        } else if self.status != LoanStatus::Approved {
            Err(LedgerError::LoanNotApproved)
        } else if amount < 0 {
            Err(LedgerError::NegativePayment)
        } else if self.amount_remaining - amount < least_amount() {
            Err(LedgerError::AmountOverflow)
        } else {
            Ok(())
        }
    }

    /// This loan once `amount` has been paid: that much less is owed, and
    /// the loan is paid where nothing is owed any more.
    pub open spec fn after_payment(self, amount: int) -> LoanView {
        let remaining = self.amount_remaining - amount;
        LoanView {
            amount_remaining: remaining,
            status: if remaining <= 0 {
                LoanStatus::Paid
            } else {
                self.status
            },
            ..self
        }
    }
}

/// The identity in an optional address.
pub open spec fn option_address_view(address: Option<Address>) -> Option<Seq<char>> {
    match address {
        Some(address) => Some(address@),
        None => None,
    }
}

impl View for Loan {
    type V = LoanView;

    open spec fn view(&self) -> LoanView {
        LoanView {
            id: self.id as nat,
            borrower: self.borrower@,
            amount: self.amount as int,
            purpose: self.purpose@,
            term_days: self.term_days as nat,
            interest_rate: self.interest_rate as nat,
            status: self.status,
            amount_remaining: self.amount_remaining as int,
            created_at: self.created_at as nat,
            due_date: self.due_date as nat,
            lender: option_address_view(self.lender),
        }
    }
}

impl Clone for Loan {
    fn clone(&self) -> (copy: Loan)
        ensures
            copy == *self,
    {
        Loan {
            id: self.id,
            borrower: self.borrower.clone(),
            amount: self.amount,
            purpose: self.purpose.clone(),
            term_days: self.term_days,
            interest_rate: self.interest_rate,
            status: self.status,
            amount_remaining: self.amount_remaining,
            created_at: self.created_at,
            due_date: self.due_date,
            lender: match &self.lender {
                Some(lender) => Some(lender.clone()),
                None => None,
            },
        }
    }
}

impl Loan {
    /// The record of a loan that `borrower` asks for at `now`, unless its
    /// due date is past the last second that a `u64` counts.
    pub fn open(
        id: u32,
        borrower: Address,
        amount: i128,
        purpose: String,
        term_days: u32,
        interest_rate: u32,
        now: u64,
    ) -> (r: Result<Loan, LedgerError>)
        ensures
            match r {
                Ok(loan) => {
                    &&& LoanView::opening_check(term_days as nat, now as nat) is Ok
                    &&& loan@ == LoanView::opened(
                        id as nat,
                        borrower@,
                        amount as int,
                        purpose@,
                        term_days as nat,
                        interest_rate as nat,
                        now as nat,
                    )
                },
                Err(e) => LoanView::opening_check(term_days as nat, now as nat) == Err::<
                    (),
                    LedgerError,
                >(e),
            },
    {
        let due: u64 = match due_date(now, term_days) {
            Some(due) => due,
            None => {
                return Err(LedgerError::DueDateOverflow);
            },
        };
        Ok(Loan {
            id,
            borrower,
            amount,
            purpose,
            term_days,
            interest_rate,
            status: LoanStatus::Active,
            amount_remaining: amount,
            created_at: now,
            due_date: due,
            lender: None,
        })
    }

    /// Approves the loan in the name of `lender`, if it is still `Active`.
    /// A loan in any other state is left as it is.
    pub fn approve(&mut self, lender: Address) -> (r: Result<(), LedgerError>)
        ensures
            r == old(self)@.approval_check(),
            r is Ok ==> final(self)@ == old(self)@.approved_by(lender@),
            r is Err ==> *final(self) == *old(self),
    {
        if self.status != LoanStatus::Active {
            return Err(LedgerError::LoanNotActive);
        }
        self.status = LoanStatus::Approved;
        self.lender = Some(lender);
        Ok(())
    }

    /// Takes a payment of `amount` from `payer`. Says whether the payment
    /// settled the loan.
    ///
    /// The payment is refused, and the loan left as it is, where `payer` is
    /// not the borrower, where the loan is not `Approved`, where `amount` is
    /// below zero, and where what would be owed fits no `i128`; the first of
    /// these that holds is the refusal.
    pub fn pay(&mut self, payer: &Address, amount: i128) -> (r: Result<bool, LedgerError>)
        ensures
            match r {
                Ok(settled) => {
                    &&& old(self)@.payment_check(payer@, amount as int) is Ok
                    &&& final(self)@ == old(self)@.after_payment(amount as int)
                    &&& settled == (final(self).status == LoanStatus::Paid)
                },
                Err(e) => {
                    &&& old(self)@.payment_check(payer@, amount as int) == Err::<(), LedgerError>(
                        e,
                    )
                    &&& *final(self) == *old(self)
                },
            },
    {
        if self.borrower != *payer {
            return Err(LedgerError::NotLoanBorrower);
        }
        if self.status != LoanStatus::Approved {
            return Err(LedgerError::LoanNotApproved);
        }
        if amount < 0 {
            return Err(LedgerError::NegativePayment);
        }
        let remaining: i128 = match self.amount_remaining.checked_sub(amount) {
            Some(remaining) => remaining,
            None => {
                return Err(LedgerError::AmountOverflow);
            },
        };
        self.amount_remaining = remaining;
        let settled: bool = remaining <= 0;
        if settled {
            self.status = LoanStatus::Paid;
        }
        Ok(settled)
    }
}

} // verus!
