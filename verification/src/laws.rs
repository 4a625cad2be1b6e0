//! What holds of the ledger whatever is done with it.

use crate::error::LedgerError;
use crate::loan::{LoanStatus, LoanView};
use crate::model::{LedgerView, Operation};
use crate::policy::spec_interest_rate;
use crate::user::Role;
use vstd::prelude::*;

verus! {

/// Registering a borrower keeps the ledger sound.
proof fn lemma_register_keeps_invariant(
    pre: LedgerView,
    user: Seq<char>,
    name: Seq<char>,
    initial_score: nat,
    now: nat,
)
    requires
        pre.inv(),
    ensures
        pre.register_borrower(user, name, initial_score, now).inv(),
{
    let post = pre.register_borrower(user, name, initial_score, now);
    assert forall|id: nat| #[trigger] post.loans.contains_key(id) implies post.loan_ids(
        post.loans[id].borrower,
    ).contains(id) by {
        assert(pre.loan_ids(pre.loans[id].borrower).contains(id));
    }
}

/// A request for a loan keeps the ledger sound.
proof fn lemma_request_keeps_invariant(
    pre: LedgerView,
    borrower: Seq<char>,
    amount: int,
    purpose: Seq<char>,
    term_days: nat,
    now: nat,
)
    requires
        pre.inv(),
    ensures
        pre.request_loan(borrower, amount, purpose, term_days, now).inv(),
{
    let post = pre.request_loan(borrower, amount, purpose, term_days, now);
    if pre.request_check(borrower, term_days, now) is Ok {
        let id = pre.next_loan_id();
        let list = pre.loan_ids(borrower).push(id);
        assert(!pre.loans.contains_key(id));
        assert(post.user_loans[borrower] == list);
        assert forall|user: Seq<char>, k: int|
            post.user_loans.contains_key(user) && 0 <= k < post.user_loans[user].len() implies {
            &&& post.loans.contains_key(#[trigger] post.user_loans[user][k])
            &&& post.loans[post.user_loans[user][k]].borrower == user
        } by {
            if user == borrower {
                if k < pre.loan_ids(borrower).len() {
                    assert(pre.loans.contains_key(pre.user_loans[user][k]));
                }
            } else {
                assert(pre.loans.contains_key(pre.user_loans[user][k]));
            }
        }
        assert forall|user: Seq<char>, i: int, j: int|
            post.user_loans.contains_key(user) && 0 <= i < j < post.user_loans[user].len() implies
            #[trigger] post.user_loans[user][i] < #[trigger] post.user_loans[user][j] by {
            if user == borrower {
                if j == list.len() - 1 {
                    assert(pre.loans.contains_key(pre.user_loans[user][i]));
                } else {
                    assert(pre.user_loans[user][i] < pre.user_loans[user][j]);
                }
            } else {
                assert(pre.user_loans[user][i] < pre.user_loans[user][j]);
            }
        }
        assert forall|other: nat| #[trigger] post.loans.contains_key(other) implies post.loan_ids(
            post.loans[other].borrower,
        ).contains(other) by {
            if other == id {
                assert(list[list.len() - 1] == id);
            } else {
                let owner = pre.loans[other].borrower;
                assert(pre.loan_ids(owner).contains(other));
                let k = choose|k: int|
                    0 <= k < pre.loan_ids(owner).len() && pre.loan_ids(owner)[k] == other;
                if owner == borrower {
                    assert(list[k] == other);
                } else {
                    assert(post.loan_ids(owner)[k] == other);
                }
            }
        }
    }
}

/// An approval keeps the ledger sound.
proof fn lemma_approve_keeps_invariant(pre: LedgerView, lender: Seq<char>, id: nat)
    requires
        pre.inv(),
    ensures
        pre.approve_loan(lender, id).inv(),
{
    let post = pre.approve_loan(lender, id);
    if pre.approve_check(id) is Ok {
        assert forall|user: Seq<char>, k: int|
            post.user_loans.contains_key(user) && 0 <= k < post.user_loans[user].len() implies {
            &&& post.loans.contains_key(#[trigger] post.user_loans[user][k])
            &&& post.loans[post.user_loans[user][k]].borrower == user
        } by {
            assert(pre.loans.contains_key(pre.user_loans[user][k]));
        }
        assert forall|other: nat| #[trigger] post.loans.contains_key(other) implies post.loan_ids(
            post.loans[other].borrower,
        ).contains(other) by {
            assert(pre.loan_ids(pre.loans[other].borrower).contains(other));
        }
    }
}

/// A payment keeps the ledger sound.
proof fn lemma_payment_keeps_invariant(pre: LedgerView, payer: Seq<char>, id: nat, amount: int)
    requires
        pre.inv(),
    ensures
        pre.make_payment(payer, id, amount).inv(),
{
    let post = pre.make_payment(payer, id, amount);
    if pre.payment_check(payer, id, amount) is Ok {
        assert forall|user: Seq<char>, k: int|
            post.user_loans.contains_key(user) && 0 <= k < post.user_loans[user].len() implies {
            &&& post.loans.contains_key(#[trigger] post.user_loans[user][k])
            &&& post.loans[post.user_loans[user][k]].borrower == user
        } by {
            assert(pre.loans.contains_key(pre.user_loans[user][k]));
        }
        assert forall|other: nat| #[trigger] post.loans.contains_key(other) implies post.loan_ids(
            post.loans[other].borrower,
        ).contains(other) by {
            assert(pre.loan_ids(pre.loans[other].borrower).contains(other));
        }
    }
}

/// No call breaks what holds of the ledger at all times: a sound ledger is
/// sound after any one call, accepted or refused.
pub proof fn law_call_keeps_invariant(pre: LedgerView, op: Operation)
    requires
        pre.inv(),
    ensures
        pre.apply(op).inv(),
{
    match op {
        Operation::Initialize { admin } => {
            let post = pre.initialize(admin);
            assert forall|id: nat| #[trigger] post.loans.contains_key(id) implies post.loan_ids(
                post.loans[id].borrower,
            ).contains(id) by {
                assert(pre.loan_ids(pre.loans[id].borrower).contains(id));
            }
        },
        Operation::RegisterBorrower { user, name, initial_score, now } => {
            lemma_register_keeps_invariant(pre, user, name, initial_score, now);
        },
        Operation::RequestLoan { borrower, amount, purpose, term_days, now } => {
            lemma_request_keeps_invariant(pre, borrower, amount, purpose, term_days, now);
        },
        Operation::ApproveLoan { lender, id } => {
            lemma_approve_keeps_invariant(pre, lender, id);
        },
        Operation::MakePayment { payer, id, amount } => {
            lemma_payment_keeps_invariant(pre, payer, id, amount);
        },
    }
}

/// The ledger is sound at every moment of its life, whatever was called
/// and in whatever order.
pub proof fn law_ledger_is_always_sound(history: Seq<Operation>)
    ensures
        LedgerView::after(history).inv(),
    decreases history.len(),
{
    if history.len() > 0 {
        law_ledger_is_always_sound(history.drop_last());
        law_call_keeps_invariant(LedgerView::after(history.drop_last()), history.last());
    }
}

/// A loan as it is made: all of it is owed, it is `Active` and without a
/// lender, it was made at the moment of the request and falls due
/// `term_days` days of 86400 seconds later, and it stands under the id that
/// the request returned, which ends the borrower's list.
pub proof fn law_new_loan_is_active_and_owed_in_full(
    pre: LedgerView,
    borrower: Seq<char>,
    amount: int,
    purpose: Seq<char>,
    term_days: nat,
    now: nat,
)
    requires
        pre.request_check(borrower, term_days, now) is Ok,
    ensures
        ({
            let post = pre.request_loan(borrower, amount, purpose, term_days, now);
            let id = pre.next_loan_id();
            &&& post.loans.contains_key(id)
            &&& post.loans[id].id == id
            &&& post.loans[id].borrower == borrower
            &&& post.loans[id].amount == amount
            &&& post.loans[id].amount_remaining == amount
            &&& post.loans[id].status == LoanStatus::Active
            &&& post.loans[id].lender is None
            &&& post.loans[id].created_at == now
            &&& post.loans[id].due_date == now + term_days * 86400
            &&& post.loan_ids(borrower) == pre.loan_ids(borrower).push(id)
            &&& post.loan_count == id
        }),
{
}

/// The interest rate of a loan is that of the tier in which the borrower's
/// credit score stands when the loan is asked for, and 15 for a borrower
/// without a record.
pub proof fn law_interest_rate_follows_score(
    pre: LedgerView,
    borrower: Seq<char>,
    amount: int,
    purpose: Seq<char>,
    term_days: nat,
    now: nat,
)
    requires
        pre.request_check(borrower, term_days, now) is Ok,
    ensures
        ({
            let post = pre.request_loan(borrower, amount, purpose, term_days, now);
            let rate = post.loans[pre.next_loan_id()].interest_rate;
            &&& rate == spec_interest_rate(pre.credit_score(borrower))
            &&& !pre.users.contains_key(borrower) ==> rate == 15
            &&& pre.users.contains_key(borrower) ==> {
                let score = pre.users[borrower].credit_score;
                &&& 800 <= score <= 1000 ==> rate == 5
                &&& 600 <= score <= 799 ==> rate == 8
                &&& 400 <= score <= 599 ==> rate == 12
                &&& (score < 400 || score > 1000) ==> rate == 15
            }
        }),
{
}

/// Whether two records are of one loan on the same terms: all but the
/// status, what is owed and the lender is equal.
pub open spec fn same_terms(a: LoanView, b: LoanView) -> bool {
    &&& a.id == b.id
    &&& a.borrower == b.borrower
    &&& a.amount == b.amount
    &&& a.purpose == b.purpose
    &&& a.term_days == b.term_days
    &&& a.interest_rate == b.interest_rate
    &&& a.created_at == b.created_at
    &&& a.due_date == b.due_date
}

/// How far a loan has come on its way from `Active` to its end.
pub open spec fn stage(status: LoanStatus) -> nat {
    match status {
        LoanStatus::Active => 0,
        LoanStatus::Approved => 1,
        LoanStatus::Paid => 2,
        LoanStatus::Defaulted => 2,
    }
}

/// A loan stays, and keeps its terms: no call takes a loan away, gives its
/// id to another, or changes its borrower, principal, purpose, term,
/// interest rate or dates. A later change of the borrower's credit score
/// leaves the interest rate as it was.
pub proof fn law_terms_are_fixed(pre: LedgerView, op: Operation, id: nat)
    requires
        pre.inv(),
        pre.loans.contains_key(id),
    ensures
        pre.apply(op).loans.contains_key(id),
        same_terms(pre.loans[id], pre.apply(op).loans[id]),
{
}

/// A loan only moves forward: a call leaves its status as it is, or makes
/// an `Active` loan `Approved`, or an `Approved` loan `Paid`. A lender,
/// once named, stays.
pub proof fn law_status_moves_forward(pre: LedgerView, op: Operation, id: nat)
    requires
        pre.inv(),
        pre.loans.contains_key(id),
    ensures
        ({
            let before = pre.loans[id];
            let after = pre.apply(op).loans[id];
            &&& stage(before.status) <= stage(after.status)
            &&& {
                ||| after.status == before.status
                ||| before.status == LoanStatus::Active && after.status == LoanStatus::Approved
                    && op is ApproveLoan
                ||| before.status == LoanStatus::Approved && after.status == LoanStatus::Paid
                    && op is MakePayment
            }
            &&& before.lender is Some ==> after.lender == before.lender
        }),
{
}

/// An approval that is accepted makes the loan `Approved` with the one who
/// approved as its lender, and changes nothing else.
pub proof fn law_approval_names_the_lender(pre: LedgerView, lender: Seq<char>, id: nat)
    requires
        pre.approve_check(id) is Ok,
    ensures
        ({
            let post = pre.approve_loan(lender, id);
            &&& post.loans.contains_key(id)
            &&& post.loans[id].status == LoanStatus::Approved
            &&& post.loans[id].lender == Some(lender)
            &&& post.loans[id].amount_remaining == pre.loans[id].amount_remaining
            &&& same_terms(pre.loans[id], post.loans[id])
            &&& post.loans.remove(id) == pre.loans.remove(id)
            &&& post.users == pre.users
            &&& post.user_loans == pre.user_loans
            &&& post.loan_count == pre.loan_count
            &&& post.admin == pre.admin
        }),
{
    let post = pre.approve_loan(lender, id);
    assert(post.loans.remove(id) =~= pre.loans.remove(id));
}

/// A loan is approved once: after an accepted approval, a second one of
/// the same loan, by whomever, is refused because the loan is no longer
/// `Active`, and changes nothing.
pub proof fn law_second_approval_is_refused(
    pre: LedgerView,
    first: Seq<char>,
    second: Seq<char>,
    id: nat,
)
    requires
        pre.approve_check(id) is Ok,
    ensures
        ({
            let approved = pre.approve_loan(first, id);
            &&& approved.approve_check(id) == Err::<(), LedgerError>(LedgerError::LoanNotActive)
            &&& approved.approve_loan(second, id) == approved
        }),
{
}

/// Only an approved loan takes payments: on a loan in any other status a
/// payment, by whomever and of whatever amount, is refused, and neither
/// what is owed nor anything else in the ledger changes.
pub proof fn law_payment_needs_approval(pre: LedgerView, payer: Seq<char>, id: nat, amount: int)
    requires
        pre.loans.contains_key(id),
        pre.loans[id].status != LoanStatus::Approved,
    ensures
        pre.payment_check(payer, id, amount) is Err,
        pre.loans[id].borrower == payer ==> pre.payment_check(payer, id, amount) == Err::<
            (),
            LedgerError,
        >(LedgerError::LoanNotApproved),
        pre.make_payment(payer, id, amount) == pre,
        pre.make_payment(payer, id, amount).loans[id].amount_remaining
            == pre.loans[id].amount_remaining,
{
}

/// A refused call changes nothing at all.
pub proof fn law_refusal_changes_nothing(pre: LedgerView, op: Operation)
    requires
        pre.check(op) is Err,
    ensures
        pre.apply(op) == pre,
{
}

/// A payment below zero is refused, whoever makes it and on whatever loan,
/// and changes nothing.
pub proof fn law_negative_payment_is_refused(
    pre: LedgerView,
    payer: Seq<char>,
    id: nat,
    amount: int,
)
    requires
        amount < 0,
    ensures
        pre.payment_check(payer, id, amount) is Err,
        pre.payment_check(payer, id, 0) is Ok ==> pre.payment_check(payer, id, amount) == Err::<
            (),
            LedgerError,
        >(LedgerError::NegativePayment),
        pre.make_payment(payer, id, amount) == pre,
{
}

/// What is owed on a loan never rises: after any call, accepted or
/// refused, no more is owed on a loan than before, and less only after an
/// accepted payment on that loan.
pub proof fn law_what_is_owed_never_rises(pre: LedgerView, op: Operation, id: nat)
    requires
        pre.inv(),
        pre.loans.contains_key(id),
    ensures
        pre.apply(op).loans[id].amount_remaining <= pre.loans[id].amount_remaining,
        pre.apply(op).loans[id].amount_remaining < pre.loans[id].amount_remaining ==> (pre.check(
            op,
        ) is Ok && op is MakePayment && op->MakePayment_id == id),
{
}

/// An accepted payment takes its amount off what is owed. After it the
/// loan is `Paid` exactly if nothing is owed any more, and exactly then the
/// payer's credit score, where there is a record, has gone up by 20 but
/// not above 1000.
pub proof fn law_payment_reduces_what_is_owed(
    pre: LedgerView,
    payer: Seq<char>,
    id: nat,
    amount: int,
)
    requires
        pre.payment_check(payer, id, amount) is Ok,
    ensures
        ({
            let post = pre.make_payment(payer, id, amount);
            let owed = pre.loans[id].amount_remaining - amount;
            &&& post.loans[id].amount_remaining == owed
            &&& owed > 0 ==> post.loans[id].status == LoanStatus::Approved && post.users
                == pre.users
            &&& owed <= 0 ==> post.loans[id].status == LoanStatus::Paid
            &&& owed <= 0 && pre.users.contains_key(payer) ==> {
                let score = pre.users[payer].credit_score;
                post.users[payer].credit_score == if score + 20 <= 1000 {
                    score + 20
                } else {
                    1000
                }
            }
            &&& owed <= 0 && !pre.users.contains_key(payer) ==> post.users == pre.users
            &&& same_terms(pre.loans[id], post.loans[id])
            &&& post.loans[id].lender == pre.loans[id].lender
        }),
{
}

/// The list of a borrower grows at its end and nowhere else: a call either
/// leaves the list of `user` as it is or, where it is an accepted request
/// of `user`, adds the new id behind the others.
pub proof fn law_lists_grow_at_the_end(pre: LedgerView, op: Operation, user: Seq<char>)
    ensures
        ({
            let post = pre.apply(op);
            if op matches Operation::RequestLoan { borrower, .. } && borrower == user && pre.check(
                op,
            ) is Ok {
                post.loan_ids(user) == pre.loan_ids(user).push(pre.next_loan_id())
            } else {
                post.loan_ids(user) == pre.loan_ids(user)
            }
        }),
{
}

/// The loans of a user come in the order of the user's list, and an id
/// without a record adds nothing: with one more id at the end of the list
/// the loans are those of the shorter list, followed by the loan of that
/// id if it has a record.
pub proof fn law_user_loans_follow_the_list(ledger: LedgerView, user: Seq<char>)
    requires
        ledger.loan_ids(user).len() > 0,
    ensures
        ({
            let ids = ledger.loan_ids(user);
            let earlier = ids.drop_last().filter_map(ledger.lookup());
            ledger.get_user_loans(user) == match ledger.get_loan(ids.last()) {
                Some(loan) => earlier.push(loan),
                None => earlier,
            }
        }),
{
    let ids = ledger.loan_ids(user);
    let earlier = ids.drop_last().filter_map(ledger.lookup());
    match ledger.get_loan(ids.last()) {
        Some(loan) => {
            assert(earlier + seq![loan] =~= earlier.push(loan));
        },
        None => {},
    }
}

/// In a sound ledger every id of a list has its record, so a user has as
/// many loans as the list has ids, and loan `k` is the loan of id `k` of
/// the list.
pub proof fn law_user_loans_in_sound_ledger(ledger: LedgerView, user: Seq<char>)
    requires
        ledger.inv(),
    ensures
        ledger.get_user_loans(user).len() == ledger.loan_ids(user).len(),
        forall|k: int|
            0 <= k < ledger.loan_ids(user).len() ==> #[trigger] ledger.get_user_loans(user)[k]
                == ledger.loans[ledger.loan_ids(user)[k]],
{
    lemma_all_found(ledger, ledger.loan_ids(user));
}

/// Looking up ids that all have a record yields their records, one for one.
proof fn lemma_all_found(ledger: LedgerView, ids: Seq<nat>)
    requires
        forall|k: int| 0 <= k < ids.len() ==> ledger.loans.contains_key(#[trigger] ids[k]),
    ensures
        ids.filter_map(ledger.lookup()).len() == ids.len(),
        forall|k: int|
            0 <= k < ids.len() ==> #[trigger] ids.filter_map(ledger.lookup())[k]
                == ledger.loans[ids[k]],
    decreases ids.len(),
{
    if ids.len() > 0 {
        let shorter = ids.drop_last();
        assert forall|k: int| 0 <= k < shorter.len() implies ledger.loans.contains_key(
            #[trigger] shorter[k],
        ) by {
            assert(shorter[k] == ids[k]);
        }
        lemma_all_found(ledger, shorter);
        assert(ledger.loans.contains_key(ids[ids.len() - 1]));
    }
}

/// The ids of the loans count up from 1: in a sound ledger the ids in use
/// are exactly those from 1 to the number of loans made; an accepted
/// request returns the next number, which no loan had before and which is
/// above every id in use; and no other call makes a loan or changes the
/// count.
pub proof fn law_loan_ids_count_up(pre: LedgerView, op: Operation)
    requires
        pre.inv(),
    ensures
        forall|id: nat| #[trigger] pre.loans.contains_key(id) <==> 1 <= id <= pre.loan_count,
        ({
            let post = pre.apply(op);
            if op is RequestLoan && pre.check(op) is Ok {
                &&& post.loan_count == pre.loan_count + 1
                &&& !pre.loans.contains_key(post.loan_count)
                &&& post.loans.contains_key(post.loan_count)
                &&& forall|id: nat| #[trigger] pre.loans.contains_key(id) ==> id < post.loan_count
            } else {
                &&& post.loan_count == pre.loan_count
                &&& post.loans.dom() == pre.loans.dom()
            }
        }),
{
    let post = pre.apply(op);
    if !(op is RequestLoan && pre.check(op) is Ok) {
        assert(post.loans.dom() =~= pre.loans.dom());
    }
}

/// The first loan ever made has the id 1: on an empty ledger a request is
/// refused only for its due date, and the loan it makes stands under 1.
pub proof fn law_first_loan_has_id_one(
    borrower: Seq<char>,
    amount: int,
    purpose: Seq<char>,
    term_days: nat,
    now: nat,
)
    ensures
        LedgerView::empty().next_loan_id() == 1,
        LedgerView::empty().request_check(borrower, term_days, now) == LoanView::opening_check(
            term_days,
            now,
        ),
        LedgerView::empty().request_check(borrower, term_days, now) is Ok
            ==> LedgerView::empty().request_loan(
            borrower,
            amount,
            purpose,
            term_days,
            now,
        ).loans.contains_key(1),
{
}

/// A request is accepted from anyone who is not on record with another
/// role than borrower, as long as an id is left and the due date is a
/// second that a `u64` counts.
pub proof fn law_request_is_accepted(pre: LedgerView, borrower: Seq<char>, term_days: nat, now: nat)
    requires
        !pre.users.contains_key(borrower) || pre.users[borrower].role == Role::Borrower,
        pre.loan_count < 0xFFFF_FFFF,
        now + term_days * 86400 <= 0xFFFF_FFFF_FFFF_FFFF,
    ensures
        pre.request_check(borrower, term_days, now) is Ok,
{
}

/// The credit scores stay between 0 and 1000: a call on a ledger whose
/// scores are in that range leaves them there, whatever score a
/// registration names.
pub proof fn law_scores_stay_in_range(pre: LedgerView, op: Operation)
    requires
        pre.scores_are_in_range(),
    ensures
        pre.apply(op).scores_are_in_range(),
{
}

/// A registration puts the score on record as it is given, and 1000 in
/// place of any higher score.
pub proof fn law_registration_clamps_the_score(
    pre: LedgerView,
    user: Seq<char>,
    name: Seq<char>,
    initial_score: nat,
    now: nat,
)
    ensures
        ({
            let record = pre.register_borrower(user, name, initial_score, now).users[user];
            &&& record.credit_score <= 1000
            &&& initial_score <= 1000 ==> record.credit_score == initial_score
            &&& initial_score > 1000 ==> record.credit_score == 1000
        }),
{
}

/// A record of an account changes in two ways only: the account registers,
/// or it pays off a loan, which changes the credit score alone.
pub proof fn law_user_records_are_stable(pre: LedgerView, op: Operation, user: Seq<char>)
    requires
        pre.users.contains_key(user),
        !(op matches Operation::RegisterBorrower { user: registered, .. } && registered == user),
    ensures
        ({
            let before = pre.users[user];
            let post = pre.apply(op);
            &&& post.users.contains_key(user)
            &&& post.users[user].address == before.address
            &&& post.users[user].role == before.role
            &&& post.users[user].name == before.name
            &&& post.users[user].created_at == before.created_at
            &&& !(op matches Operation::MakePayment { payer, .. } && payer == user)
                ==> post.users[user] == before
        }),
{
}

} // verus!
