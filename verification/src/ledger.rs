//! The ledger: its records, and the operations on them.

use crate::address::Address;
use crate::error::LedgerError;
use crate::laws::law_call_keeps_invariant;
use crate::loan::{option_address_view, Loan, LoanView};
use crate::model::{LedgerView, Operation};
use crate::policy::{interest_rate, next_loan_id};
use crate::table::Table;
use crate::user::{option_user_view, User, UserView};
use vstd::prelude::*;

verus! {

/// The views of some loans, in their order.
pub open spec fn loan_views(loans: Seq<Loan>) -> Seq<LoanView> {
    loans.map_values(|loan: Loan| loan@)
}

/// The view of a loan that may be missing.
pub open spec fn option_loan_view(loan: Option<Loan>) -> Option<LoanView> {
    match loan {
        Some(loan) => Some(loan@),
        None => None,
    }
}

/// What is there among `found`, in its order.
pub open spec fn spec_present<T>(found: Seq<Option<T>>) -> Seq<T> {
    found.filter_map(|slot: Option<T>| slot)
}

/// Keeps what is there and passes over what is missing, without changing
/// the order.
pub fn present<T>(found: Vec<Option<T>>) -> (kept: Vec<T>)
    ensures
        kept@ == spec_present(found@),
{
    let mut kept: Vec<T> = Vec::new();
    let ghost all = found@;
    for slot in it: found
        invariant
            it.seq() == all,
            kept@ == spec_present(all.take(it.index() as int)),
    {
        proof {
            all.lemma_filter_map_take_succ(|slot: Option<T>| slot, it.index() as int);
        }
        match slot {
            Some(item) => {
                kept.push(item);
            },
            None => {},
        }
    }
    assert(all.take(all.len() as int) =~= all);
    kept
}

/// Taking a user record for its view.
spec fn user_view() -> spec_fn(User) -> UserView {
    |user: User| user@
}

/// Taking a list of ids as a sequence of numbers.
spec fn ids_view() -> spec_fn(Vec<u32>) -> Seq<nat> {
    |ids: Vec<u32>| ids@.map_values(|id: u32| id as nat)
}

/// The loans found for some ids, with the missing ones passed over, are the
/// ids looked up one by one.
proof fn lemma_present_lookups(
    ids: Seq<nat>,
    found: Seq<Option<Loan>>,
    lookup: spec_fn(nat) -> Option<LoanView>,
)
    requires
        ids.len() == found.len(),
        forall|k: int| 0 <= k < ids.len() ==> option_loan_view(#[trigger] found[k]) == lookup(ids[k]),
    ensures
        loan_views(spec_present(found)) == ids.filter_map(lookup),
    decreases ids.len(),
{
    if ids.len() == 0 {
        assert(loan_views(spec_present(found)) =~= ids.filter_map(lookup));
    } else {
        lemma_present_lookups(ids.drop_last(), found.drop_last(), lookup);
        assert(option_loan_view(found.last()) == lookup(ids.last()));
        let before = spec_present(found.drop_last());
        match found.last() {
            Some(loan) => {
                assert(spec_present(found) == before + seq![loan]);
                assert(loan_views(before + seq![loan]) =~= loan_views(before) + seq![loan@]);
            },
            None => {},
        }
    }
}

/// The lending ledger.
///
/// It keeps the administrator, the accounts, the loans and, for each
/// borrower, the list of the loans asked for. Its view is a [`LedgerView`];
/// every operation is stated as what it makes of that view.
///
/// The ledger does not know who calls it. Whoever calls an operation in
/// the name of an account has to have made sure that the account agreed.
pub struct RapidLoanContract {
    admin: Option<Address>,
    users: Table<User>,
    loans: Vec<Loan>,
    user_loans: Table<Vec<u32>>,
    loan_count: u32,
}

impl RapidLoanContract {
    pub closed spec fn view(&self) -> LedgerView {
        LedgerView {
            admin: option_address_view(self.admin),
            users: self.users@.map_values(user_view()),
            loans: Map::new(
                |id: nat| 1 <= id <= self.loans.len(),
                |id: nat| self.loans[id - 1]@,
            ),
            user_loans: self.user_loans@.map_values(ids_view()),
            loan_count: self.loan_count as nat,
        }
    }

    /// The records are stored as they should be, and what holds of a ledger
    /// at all times holds of this one.
    pub closed spec fn wf(&self) -> bool {
        &&& self.users.wf()
        &&& self.user_loans.wf()
        &&& self.loans.len() == self.loan_count
        &&& self@.inv()
    }

    /// A well-formed ledger is sound.
    pub proof fn lemma_wf_is_sound(&self)
        requires
            self.wf(),
        ensures
            self@.inv(),
    {
    }

    /// A ledger that holds nothing.
    pub fn new() -> (ledger: Self)
        ensures
            ledger.wf(),
            ledger@ == LedgerView::empty(),
    {
        let ledger = RapidLoanContract {
            admin: None,
            users: Table::new(),
            loans: Vec::new(),
            user_loans: Table::new(),
            loan_count: 0,
        };
        proof {
            assert(ledger@.users =~= LedgerView::empty().users);
            assert(ledger@.loans =~= LedgerView::empty().loans);
            assert(ledger@.user_loans =~= LedgerView::empty().user_loans);
        }
        ledger
    }

    /// Makes `admin` the administrator. Whoever was it before is it no
    /// longer.
    pub fn initialize(&mut self, admin: Address)
        requires
            old(self).wf(),
        ensures
            final(self).wf(),
            final(self)@ == old(self)@.initialize(admin@),
    {
        proof {
            law_call_keeps_invariant(self@, Operation::Initialize { admin: admin@ });
        }
        self.admin = Some(admin);
    }

    /// The administrator, once one was named.
    pub fn admin(&self) -> (admin: Option<Address>)
        ensures
            option_address_view(admin) == self@.admin,
    {
        match &self.admin {
            Some(admin) => Some(admin.clone()),
            None => None,
        }
    }

    /// How many loans were made so far.
    pub fn loan_count(&self) -> (count: u32)
        ensures
            count == self@.loan_count,
    {
        self.loan_count
    }

    /// Registers `user` as a borrower at the second `now`, with the score
    /// `initial_score` or, where that is above 1000, with 1000. A record
    /// that `user` had is replaced.
    pub fn register_borrower(&mut self, user: Address, name: String, initial_score: u32, now: u64)
        requires
            old(self).wf(),
        ensures
            final(self).wf(),
            final(self)@ == old(self)@.register_borrower(
                user@,
                name@,
                initial_score as nat,
                now as nat,
            ),
    {
        let ghost pre = self@;
        let ghost op = Operation::RegisterBorrower {
            user: user@,
            name: name@,
            initial_score: initial_score as nat,
            now: now as nat,
        };
        let user_data = User::borrower(user.clone(), name, initial_score, now);
        self.users.set(user, user_data);
        proof {
            assert(self@.users =~= pre.apply(op).users);
            law_call_keeps_invariant(pre, op);
        }
    }

    /// The record of `user`, if there is one.
    pub fn get_user(&self, user: &Address) -> (record: Option<User>)
        requires
            self.wf(),
        ensures
            option_user_view(record) == self@.get_user(user@),
    {
        match self.users.get(user) {
            Some(record) => Some(record.clone()),
            None => None,
        }
    }

    /// The record of loan `loan_id`, if there is one.
    pub fn get_loan(&self, loan_id: u32) -> (loan: Option<Loan>)
        requires
            self.wf(),
        ensures
            option_loan_view(loan) == self@.get_loan(loan_id as nat),
    {
        if 1 <= loan_id && loan_id <= self.loan_count {
            Some(self.loans[(loan_id - 1) as usize].clone())
        } else {
            None
        }
    }

    /// The loans that `user` asked for, oldest first.
    pub fn get_user_loans(&self, user: Address) -> (loans: Vec<Loan>)
        requires
            self.wf(),
        ensures
            loan_views(loans@) == self@.get_user_loans(user@),
    {
        let no_loans: Vec<u32> = Vec::new();
        let loan_ids: &Vec<u32> = match self.user_loans.get(&user) {
            Some(ids) => ids,
            None => &no_loans,
        };
        let ghost ids = self@.loan_ids(user@);
        assert(ids =~= ids_view()(*loan_ids));
        let mut found: Vec<Option<Loan>> = Vec::new();
        let mut i: usize = 0;
        while i < loan_ids.len()
            invariant
                self.wf(),
                i <= loan_ids.len(),
                found.len() == i,
                ids == ids_view()(*loan_ids),
                forall|k: int|
                    0 <= k < i ==> option_loan_view(#[trigger] found[k]) == self@.get_loan(ids[k]),
            decreases loan_ids.len() - i,
        {
            let loan = self.get_loan(loan_ids[i]);
            found.push(loan);
            i += 1;
        }
        proof {
            lemma_present_lookups(ids, found@, self@.lookup());
        }
        present(found)
    }

    /// The interest rate that `borrower` gets now.
    fn calculate_interest_rate(&self, borrower: &Address) -> (rate: u32)
        requires
            self.wf(),
        ensures
            rate == self@.calculate_interest_rate(borrower@),
    {
        match self.users.get(borrower) {
            Some(user_data) => interest_rate(Some(user_data.credit_score)),
            None => interest_rate(None),
        }
    }

    /// Takes a repayment (`positive`) or a default into the score of
    /// `user`, if `user` has a record.
    fn update_credit_score(&mut self, user: &Address, positive: bool)
        requires
            old(self).users.wf(),
            old(self).user_loans.wf(),
        ensures
            final(self).users.wf(),
            final(self).user_loans.wf(),
            final(self)@ == old(self)@.update_credit_score(user@, positive),
            final(self).loans == old(self).loans,
            final(self).loan_count == old(self).loan_count,
    {
        let ghost pre = self@;
        let found: Option<User> = match self.users.get(user) {
            Some(user_data) => Some(user_data.clone()),
            None => None,
        };
        if let Some(user_data) = found {
            let mut user_data = user_data;
            user_data.record_event(positive);
            self.users.set(user.clone(), user_data);
            proof {
                assert(self@.users =~= pre.update_credit_score(user@, positive).users);
            }
        }
    }

    /// Makes a loan for `borrower` at the second `now` and says its id.
    ///
    /// The loan gets the next id, the interest rate of the borrower's
    /// credit score at this moment, and a due date `term_days` days after
    /// `now`; all of `amount` is owed and nobody has approved it. The id
    /// goes to the end of the borrower's list. A borrower without a record
    /// is served.
    ///
    /// The request is refused, and nothing changes, where the borrower is
    /// registered with another role, where the last loan has the greatest
    /// id that a `u32` holds, and where the due date is past the last
    /// second that a `u64` counts; the first of these that holds is the
    /// refusal.
    pub fn request_loan(
        &mut self,
        borrower: Address,
        amount: i128,
        purpose: String,
        term_days: u32,
        now: u64,
    ) -> (r: Result<u32, LedgerError>)
        requires
            old(self).wf(),
        ensures
            final(self).wf(),
            final(self)@ == old(self)@.request_loan(
                borrower@,
                amount as int,
                purpose@,
                term_days as nat,
                now as nat,
            ),
            match r {
                Ok(loan_id) => old(self)@.request_check(borrower@, term_days as nat, now as nat)
                    is Ok && loan_id == old(self)@.next_loan_id(),
                Err(e) => old(self)@.request_check(borrower@, term_days as nat, now as nat) == Err::<
                    (),
                    LedgerError,
                >(e),
            },
    {
        let ghost pre = self@;
        let ghost op = Operation::RequestLoan {
            borrower: borrower@,
            amount: amount as int,
            purpose: purpose@,
            term_days: term_days as nat,
            now: now as nat,
        };
        proof {
            law_call_keeps_invariant(pre, op);
        }
        match User::may_borrow(self.users.get(&borrower)) {
            Ok(()) => {},
            Err(e) => {
                return Err(e);
            },
        }
        let loan_id: u32 = match next_loan_id(self.loan_count) {
            Some(loan_id) => loan_id,
            None => {
                return Err(LedgerError::LoanIdsExhausted);
            },
        };
        let interest_rate: u32 = self.calculate_interest_rate(&borrower);
        let opened = Loan::open(
            loan_id,
            borrower.clone(),
            amount,
            purpose,
            term_days,
            interest_rate,
            now,
        );
        let loan: Loan = match opened {
            Ok(loan) => loan,
            Err(e) => {
                return Err(e);
            },
        };
        self.loans.push(loan);
        self.loan_count = loan_id;

        let mut current_loans: Vec<u32> = match self.user_loans.get(&borrower) {
            Some(ids) => ids.clone(),
            None => Vec::new(),
        };
        current_loans.push(loan_id);
        proof {
            assert(ids_view()(current_loans) =~= pre.loan_ids(borrower@).push(loan_id as nat));
        }
        self.user_loans.set(borrower, current_loans);
        proof {
            assert(self@.loans =~= pre.apply(op).loans);
            assert(self@.user_loans =~= pre.apply(op).user_loans);
        }
        Ok(loan_id)
    }

    /// Approves loan `loan_id` in the name of `lender`.
    ///
    /// The loan has to exist and to be `Active`: it becomes `Approved`,
    /// with `lender` as its lender. Otherwise the call is refused and
    /// nothing changes.
    pub fn approve_loan(&mut self, lender: Address, loan_id: u32) -> (r: Result<(), LedgerError>)
        requires
            old(self).wf(),
        ensures
            final(self).wf(),
            final(self)@ == old(self)@.approve_loan(lender@, loan_id as nat),
            r == old(self)@.approve_check(loan_id as nat),
    {
        let ghost pre = self@;
        let ghost op = Operation::ApproveLoan { lender: lender@, id: loan_id as nat };
        proof {
            law_call_keeps_invariant(pre, op);
        }
        let mut loan: Loan = match self.get_loan(loan_id) {
            Some(loan) => loan,
            None => {
                return Err(LedgerError::LoanNotFound);
            },
        };
        match loan.approve(lender) {
            Ok(()) => {},
            Err(e) => {
                return Err(e);
            },
        }
        self.loans.set((loan_id - 1) as usize, loan);
        proof {
            assert(self@.loans =~= pre.apply(op).loans);
        }
        Ok(())
    }

    /// Pays `amount` on loan `loan_id` in the name of `borrower`.
    ///
    /// Then `amount` less is owed; where nothing is owed any more the loan
    /// becomes `Paid` and the borrower's credit score, if there is a record,
    /// takes in a repayment.
    ///
    /// The payment is refused, and nothing changes, where the loan does not
    /// exist, where `borrower` is not its borrower, where it is not
    /// `Approved`, where `amount` is below zero, and where what would be
    /// owed fits no `i128`; the first of these that holds is the refusal.
    pub fn make_payment(&mut self, borrower: Address, loan_id: u32, amount: i128) -> (r: Result<
        (),
        LedgerError,
    >)
        requires
            old(self).wf(),
        ensures
            final(self).wf(),
            final(self)@ == old(self)@.make_payment(borrower@, loan_id as nat, amount as int),
            r == old(self)@.payment_check(borrower@, loan_id as nat, amount as int),
    {
        let ghost pre = self@;
        let ghost op = Operation::MakePayment {
            payer: borrower@,
            id: loan_id as nat,
            amount: amount as int,
        };
        proof {
            law_call_keeps_invariant(pre, op);
        }
        let mut loan: Loan = match self.get_loan(loan_id) {
            Some(loan) => loan,
            None => {
                return Err(LedgerError::LoanNotFound);
            },
        };
        let settled: bool = match loan.pay(&borrower, amount) {
            Ok(settled) => settled,
            Err(e) => {
                return Err(e);
            },
        };
        if settled {
            self.update_credit_score(&borrower, true);
        }
        self.loans.set((loan_id - 1) as usize, loan);
        proof {
            assert(self@.loans =~= pre.apply(op).loans);
        }
        Ok(())
    }
}

} // verus!
