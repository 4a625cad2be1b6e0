//! Accounts and their credit score.

use crate::address::Address;
use crate::error::LedgerError;
use crate::policy::{adjusted_score, clamped_score, spec_adjusted_score, spec_clamped_score};
use vstd::prelude::*;

verus! {

/// What an account may do. It is fixed when the account is registered.
#[derive(Clone, Copy, Debug, PartialEq, Eq, Structural)]
pub enum Role {
    Admin,
    Borrower,
    Lender,
}

/// The record of an account.
#[derive(Debug, PartialEq, Eq)]
pub struct User {
    /// Whose record this is.
    pub address: Address,
    pub role: Role,
    /// The name to show.
    pub name: String,
    /// From 0 to 1000 in every record that the ledger keeps.
    pub credit_score: u32,
    /// The second at which the account was registered.
    pub created_at: u64,
}

/// A user record as plain mathematics.
pub struct UserView {
    pub address: Seq<char>,
    pub role: Role,
    pub name: Seq<char>,
    pub credit_score: nat,
    pub created_at: nat,
}

impl UserView {
    /// The record of a borrower who registers at `now`. A score above 1000
    /// goes on record as 1000.
    pub open spec fn borrower(
        address: Seq<char>,
        name: Seq<char>,
        initial_score: nat,
        now: nat,
    ) -> UserView {
        UserView {
            address,
            role: Role::Borrower,
            name,
            credit_score: spec_clamped_score(initial_score),
            created_at: now,
        }
    }

    /// This record after a repayment (`positive`) or a default. Only the
    /// score differs.
    pub open spec fn after_event(self, positive: bool) -> UserView {
        UserView { credit_score: spec_adjusted_score(self.credit_score, positive), ..self }
    }
}

/// Whether the owner of `record` may ask for a loan: anyone without a
/// record may, and of those with a record the borrowers.
pub open spec fn spec_may_borrow(record: Option<UserView>) -> Result<(), LedgerError> {
    match record {
        Some(record) => if record.role == Role::Borrower {
            Ok(())
        } else {
            Err(LedgerError::NotBorrower)
        },
        None => Ok(()),
    }
}

/// The view of a user record that may be missing.
pub open spec fn option_user_view(user: Option<User>) -> Option<UserView> {
    match user {
        Some(user) => Some(user@),
        None => None,
    }
}

impl View for User {
    type V = UserView;

    open spec fn view(&self) -> UserView {
        UserView {
            address: self.address@,
            role: self.role,
            name: self.name@,
            credit_score: self.credit_score as nat,
            created_at: self.created_at as nat,
        }
    }
}

impl Clone for User {
    fn clone(&self) -> (copy: User)
        ensures
            copy == *self,
    {
        User {
            address: self.address.clone(),
            role: self.role,
            name: self.name.clone(),
            credit_score: self.credit_score,
            created_at: self.created_at,
        }
    }
}

impl User {
    /// The record of a borrower who registers at `now` with the score
    /// `initial_score`, or with 1000 where that is more.
    pub fn borrower(address: Address, name: String, initial_score: u32, now: u64) -> (user: User)
        ensures
            user@ == UserView::borrower(address@, name@, initial_score as nat, now as nat),
    {
        User {
            address,
            role: Role::Borrower,
            name,
            credit_score: clamped_score(initial_score),
            created_at: now,
        }
    }

    /// Whether the account with this record, or without one, may ask for a
    /// loan.
    pub fn may_borrow(record: Option<&User>) -> (r: Result<(), LedgerError>)
        ensures
            r == spec_may_borrow(
                match record {
                    Some(record) => Some(record@),
                    None => None,
                },
            ),
    {
        match record {
            Some(record) => {
                if record.role != Role::Borrower {
                    Err(LedgerError::NotBorrower)
                } else {
                    Ok(())
                }
            },
            None => Ok(()),
        }
    }

    /// Moves the credit score after a repayment (`positive`) or a default.
    pub fn record_event(&mut self, positive: bool)
        ensures
            final(self)@ == old(self)@.after_event(positive),
    {
        self.credit_score = adjusted_score(self.credit_score, positive);
    }
}

} // verus!
