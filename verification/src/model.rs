//! The ledger as plain mathematics: what it holds, and what each operation
//! makes of it.

use crate::error::LedgerError;
use crate::loan::{LoanStatus, LoanView};
use crate::policy::{last_loan_id, spec_due_date, spec_interest_rate};
use crate::user::{spec_may_borrow, UserView};
use vstd::prelude::*;

verus! {

/// All that the ledger keeps: the administrator, one record for each
/// registered account, one for each loan under its id, for each borrower
/// the ids of the loans asked for, oldest first, and the number of loans
/// made so far.
pub struct LedgerView {
    pub admin: Option<Seq<char>>,
    pub users: Map<Seq<char>, UserView>,
    pub loans: Map<nat, LoanView>,
    pub user_loans: Map<Seq<char>, Seq<nat>>,
    pub loan_count: nat,
}

/// One call of an operation that can change the ledger, with its
/// arguments.
pub enum Operation {
    Initialize { admin: Seq<char> },
    RegisterBorrower { user: Seq<char>, name: Seq<char>, initial_score: nat, now: nat },
    RequestLoan { borrower: Seq<char>, amount: int, purpose: Seq<char>, term_days: nat, now: nat },
    ApproveLoan { lender: Seq<char>, id: nat },
    MakePayment { payer: Seq<char>, id: nat, amount: int },
}

impl LedgerView {
    /// The ledger before anything has happened.
    pub open spec fn empty() -> LedgerView {
        LedgerView {
            admin: None,
            users: Map::empty(),
            loans: Map::empty(),
            user_loans: Map::empty(),
            loan_count: 0,
        }
    }

    /// The record of `user`, if there is one.
    pub open spec fn get_user(self, user: Seq<char>) -> Option<UserView> {
        if self.users.contains_key(user) {
            Some(self.users[user])
        } else {
            None
        }
    }

    /// The credit score of `user`, if there is a record.
    pub open spec fn credit_score(self, user: Seq<char>) -> Option<nat> {
        if self.users.contains_key(user) {
            Some(self.users[user].credit_score)
        } else {
            None
        }
    }

    /// The record of loan `id`, if there is one.
    pub open spec fn get_loan(self, id: nat) -> Option<LoanView> {
        if self.loans.contains_key(id) {
            Some(self.loans[id])
        } else {
            None
        }
    }

    /// The ids of the loans that `user` asked for, oldest first.
    pub open spec fn loan_ids(self, user: Seq<char>) -> Seq<nat> {
        if self.user_loans.contains_key(user) {
            self.user_loans[user]
        } else {
            Seq::empty()
        }
    }

    /// Looking up a loan by its id.
    pub open spec fn lookup(self) -> spec_fn(nat) -> Option<LoanView> {
        |id: nat| self.get_loan(id)
    }

    /// The loans that `user` asked for, oldest first. An id without a record
    /// is passed over.
    pub open spec fn get_user_loans(self, user: Seq<char>) -> Seq<LoanView> {
        self.loan_ids(user).filter_map(self.lookup())
    }

    /// The ledger once `admin` has been made its administrator.
    pub open spec fn initialize(self, admin: Seq<char>) -> LedgerView {
        LedgerView { admin: Some(admin), ..self }
    }

    /// The ledger once `user` has registered as a borrower. A record that
    /// `user` had before is replaced.
    pub open spec fn register_borrower(
        self,
        user: Seq<char>,
        name: Seq<char>,
        initial_score: nat,
        now: nat,
    ) -> LedgerView {
        LedgerView {
            users: self.users.insert(user, UserView::borrower(user, name, initial_score, now)),
            ..self
        }
    }

    /// Whether `borrower` is given a loan of `term_days` days at `now`.
    /// Anyone without a record may ask, and of those with a record the
    /// borrowers. Then there has to be an id left for the loan, and its due
    /// date has to be a second that a `u64` counts. The first of these that
    /// fails is the refusal.
    pub open spec fn request_check(self, borrower: Seq<char>, term_days: nat, now: nat) -> Result<
        (),
        LedgerError,
    > {
        if spec_may_borrow(self.get_user(borrower)) is Err {
            Err(LedgerError::NotBorrower)
        } else if self.loan_count >= last_loan_id() {
            Err(LedgerError::LoanIdsExhausted)
        } else {
            LoanView::opening_check(term_days, now)
        }
    }

    /// The id that the next loan gets.
    pub open spec fn next_loan_id(self) -> nat {
        self.loan_count + 1
    }

    /// The interest rate that `borrower` gets now.
    pub open spec fn calculate_interest_rate(self, borrower: Seq<char>) -> nat {
        spec_interest_rate(self.credit_score(borrower))
    }

    /// The record of the loan that `borrower` would be given now.
    pub open spec fn requested_loan(
        self,
        borrower: Seq<char>,
        amount: int,
        purpose: Seq<char>,
        term_days: nat,
        now: nat,
    ) -> LoanView {
        LoanView::opened(
            self.next_loan_id(),
            borrower,
            amount,
            purpose,
            term_days,
            self.calculate_interest_rate(borrower),
            now,
        )
    }

    /// The ledger once `borrower` has asked for a loan: unchanged where the
    /// request is refused, else with the new loan under the next id and that
    /// id at the end of the borrower's list.
    pub open spec fn request_loan(
        self,
        borrower: Seq<char>,
        amount: int,
        purpose: Seq<char>,
        term_days: nat,
        now: nat,
    ) -> LedgerView {
        if self.request_check(borrower, term_days, now) is Err {
            self
        } else {
            let id = self.next_loan_id();
            LedgerView {
                loans: self.loans.insert(
                    id,
                    self.requested_loan(borrower, amount, purpose, term_days, now),
                ),
                user_loans: self.user_loans.insert(borrower, self.loan_ids(borrower).push(id)),
                loan_count: id,
                ..self
            }
        }
    }

    /// Whether loan `id` can be approved.
    pub open spec fn approve_check(self, id: nat) -> Result<(), LedgerError> {
        match self.get_loan(id) {
            Some(loan) => loan.approval_check(),
            None => Err(LedgerError::LoanNotFound),
        }
    }

    /// The ledger once `lender` has tried to approve loan `id`.
    pub open spec fn approve_loan(self, lender: Seq<char>, id: nat) -> LedgerView {
        if self.approve_check(id) is Err {
            self
        } else {
            LedgerView { loans: self.loans.insert(id, self.loans[id].approved_by(lender)), ..self }
        }
    }

    /// Whether loan `id` takes a payment of `amount` from `payer`.
    pub open spec fn payment_check(self, payer: Seq<char>, id: nat, amount: int) -> Result<
        (),
        LedgerError,
    > {
        match self.get_loan(id) {
            Some(loan) => loan.payment_check(payer, amount),
            None => Err(LedgerError::LoanNotFound),
        }
    }

    /// The ledger once the score of `user` has taken in a repayment
    /// (`positive`) or a default. Without a record of `user` nothing
    /// changes.
    pub open spec fn update_credit_score(self, user: Seq<char>, positive: bool) -> LedgerView {
        if self.users.contains_key(user) {
            LedgerView { users: self.users.insert(user, self.users[user].after_event(positive)), ..self }
        } else {
            self
        }
    }

    /// The ledger once `payer` has tried to pay `amount` on loan `id`. A
    /// payment that leaves nothing owed settles the loan and is a repayment
    /// in the payer's credit score.
    pub open spec fn make_payment(self, payer: Seq<char>, id: nat, amount: int) -> LedgerView {
        if self.payment_check(payer, id, amount) is Err {
            self
        } else {
            let paid = self.loans[id].after_payment(amount);
            let scored = if paid.amount_remaining <= 0 {
                self.update_credit_score(payer, true)
            } else {
                self
            };
            LedgerView { loans: self.loans.insert(id, paid), ..scored }
        }
    }

    /// Whether a call is accepted, and if not, why. Naming the
    /// administrator and registering are always accepted.
    pub open spec fn check(self, op: Operation) -> Result<(), LedgerError> {
        match op {
            Operation::Initialize { .. } => Ok(()),
            Operation::RegisterBorrower { .. } => Ok(()),
            Operation::RequestLoan { borrower, term_days, now, .. } => self.request_check(
                borrower,
                term_days,
                now,
            ),
            Operation::ApproveLoan { id, .. } => self.approve_check(id),
            Operation::MakePayment { payer, id, amount } => self.payment_check(payer, id, amount),
        }
    }

    /// The ledger after one call.
    pub open spec fn apply(self, op: Operation) -> LedgerView {
        match op {
            Operation::Initialize { admin } => self.initialize(admin),
            Operation::RegisterBorrower { user, name, initial_score, now } => self.register_borrower(
                user,
                name,
                initial_score,
                now,
            ),
            Operation::RequestLoan { borrower, amount, purpose, term_days, now } => self.request_loan(
                borrower,
                amount,
                purpose,
                term_days,
                now,
            ),
            Operation::ApproveLoan { lender, id } => self.approve_loan(lender, id),
            Operation::MakePayment { payer, id, amount } => self.make_payment(payer, id, amount),
        }
    }

    /// The ledger after the calls of `history`, made in that order on an
    /// empty ledger.
    pub open spec fn after(history: Seq<Operation>) -> LedgerView
        decreases history.len(),
    {
        if history.len() == 0 {
            LedgerView::empty()
        } else {
            LedgerView::after(history.drop_last()).apply(history.last())
        }
    }

    /// The loans are numbered from 1 upward without a gap: the ids in use
    /// are those from 1 to `loan_count`.
    pub open spec fn ids_are_sequential(self) -> bool {
        forall|id: nat| #[trigger] self.loans.contains_key(id) <==> 1 <= id <= self.loan_count
    }

    /// Each record stands under its own id or identity.
    pub open spec fn records_are_keyed(self) -> bool {
        &&& forall|id: nat| #[trigger]
            self.loans.contains_key(id) ==> self.loans[id].id == id
        &&& forall|user: Seq<char>| #[trigger]
            self.users.contains_key(user) ==> self.users[user].address == user
    }

    /// Each list names loans of its owner that exist, in rising order of
    /// their ids.
    pub open spec fn lists_are_sound(self) -> bool {
        &&& forall|user: Seq<char>, k: int|
            self.user_loans.contains_key(user) && 0 <= k < self.user_loans[user].len() ==> {
                &&& self.loans.contains_key(#[trigger] self.user_loans[user][k])
                &&& self.loans[self.user_loans[user][k]].borrower == user
            }
        &&& forall|user: Seq<char>, i: int, j: int|
            self.user_loans.contains_key(user) && 0 <= i < j < self.user_loans[user].len()
                ==> #[trigger] self.user_loans[user][i] < #[trigger] self.user_loans[user][j]
    }

    /// Each loan is in the list of its borrower.
    pub open spec fn loans_are_listed(self) -> bool {
        forall|id: nat| #[trigger]
            self.loans.contains_key(id) ==> self.loan_ids(self.loans[id].borrower).contains(id)
    }

    /// Each loan is where the steps of its life can have brought it: it
    /// falls due a term after it was made; never more is owed than was
    /// lent; while it is `Active` all of it is owed and it has no lender;
    /// from its approval on it has one; once `Paid` nothing is owed; and
    /// none is `Defaulted`.
    pub open spec fn loans_are_coherent(self) -> bool {
        forall|id: nat| #[trigger]
            self.loans.contains_key(id) ==> {
                let loan = self.loans[id];
                &&& loan.due_date == spec_due_date(loan.created_at, loan.term_days)
                &&& loan.amount_remaining <= loan.amount
                &&& loan.status == LoanStatus::Active ==> loan.lender is None
                    && loan.amount_remaining == loan.amount
                &&& loan.status == LoanStatus::Approved ==> loan.lender is Some
                &&& loan.status == LoanStatus::Paid ==> loan.lender is Some && loan.amount_remaining
                    <= 0
                &&& loan.status != LoanStatus::Defaulted
            }
    }

    /// Every credit score on record is at most 1000.
    pub open spec fn scores_are_in_range(self) -> bool {
        forall|user: Seq<char>| #[trigger]
            self.users.contains_key(user) ==> self.users[user].credit_score <= 1000
    }

    /// What holds of the ledger at all times.
    pub open spec fn inv(self) -> bool {
        &&& self.ids_are_sequential()
        &&& self.scores_are_in_range()
        &&& self.records_are_keyed()
        &&& self.lists_are_sound()
        &&& self.loans_are_listed()
        &&& self.loans_are_coherent()
    }
}

} // verus!
