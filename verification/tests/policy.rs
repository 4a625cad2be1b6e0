use rapid_loan::policy::{
    adjusted_score, clamped_score, due_date, interest_rate, interest_rate_for_score, next_loan_id,
};
use rapid_loan::{Address, LedgerError, Loan, LoanStatus, Role, User};

fn address(id: &str) -> Address {
    Address::new(id)
}

fn open(amount: i128) -> Loan {
    Loan::open(1, address("b"), amount, "phone".to_string(), 10, 8, 500).unwrap()
}

fn approved_loan(amount: i128) -> Loan {
    let mut loan = Loan::open(
        1,
        address("borrower"),
        amount,
        "equipment".to_string(),
        10,
        8,
        500,
    )
    .unwrap();
    assert_eq!(loan.approve(address("lender")), Ok(()));
    loan
}

#[test]
fn interest_rate_has_four_tiers() {
    assert_eq!(interest_rate_for_score(850), 5);
    assert_eq!(interest_rate_for_score(650), 8);
    assert_eq!(interest_rate_for_score(450), 12);
    assert_eq!(interest_rate_for_score(100), 15);
}

#[test]
fn interest_rate_changes_at_the_edges_of_the_tiers() {
    assert_eq!(interest_rate_for_score(0), 15);
    assert_eq!(interest_rate_for_score(399), 15);
    assert_eq!(interest_rate_for_score(400), 12);
    assert_eq!(interest_rate_for_score(599), 12);
    assert_eq!(interest_rate_for_score(600), 8);
    assert_eq!(interest_rate_for_score(799), 8);
    assert_eq!(interest_rate_for_score(800), 5);
    assert_eq!(interest_rate_for_score(1000), 5);
    assert_eq!(interest_rate_for_score(1001), 15);
    assert_eq!(interest_rate_for_score(u32::MAX), 15);
}

#[test]
fn interest_rate_without_a_record_is_the_highest() {
    assert_eq!(interest_rate(None), 15);
    assert_eq!(interest_rate(Some(850)), 5);
    assert_eq!(interest_rate(Some(0)), 15);
}

#[test]
fn repayment_adds_twenty_up_to_a_thousand() {
    assert_eq!(adjusted_score(500, true), 520);
    assert_eq!(adjusted_score(0, true), 20);
    assert_eq!(adjusted_score(979, true), 999);
    assert_eq!(adjusted_score(980, true), 1000);
    assert_eq!(adjusted_score(981, true), 1000);
    assert_eq!(adjusted_score(1000, true), 1000);
    assert_eq!(adjusted_score(5000, true), 1000);
    assert_eq!(adjusted_score(u32::MAX, true), 1000);
}

#[test]
fn default_takes_thirty_down_to_zero() {
    assert_eq!(adjusted_score(500, false), 470);
    assert_eq!(adjusted_score(1000, false), 970);
    assert_eq!(adjusted_score(31, false), 1);
    assert_eq!(adjusted_score(30, false), 0);
    assert_eq!(adjusted_score(29, false), 0);
    assert_eq!(adjusted_score(0, false), 0);
}

#[test]
fn due_date_is_a_term_of_days_after_the_start() {
    assert_eq!(due_date(1_000, 30), Some(1_000 + 30 * 86_400));
    assert_eq!(due_date(0, 0), Some(0));
    assert_eq!(due_date(7, 1), Some(86_407));
    assert_eq!(
        due_date(0, u32::MAX),
        Some(u32::MAX as u64 * 86_400)
    );
    assert_eq!(due_date(u64::MAX - 86_400, 1), Some(u64::MAX));
}

#[test]
fn due_date_past_the_last_second_is_none() {
    assert_eq!(due_date(u64::MAX, 1), None);
    assert_eq!(due_date(u64::MAX - 86_399, 1), None);
    assert_eq!(due_date(u64::MAX, 0), Some(u64::MAX));
}

#[test]
fn a_score_above_a_thousand_counts_as_a_thousand() {
    assert_eq!(clamped_score(0), 0);
    assert_eq!(clamped_score(999), 999);
    assert_eq!(clamped_score(1000), 1000);
    assert_eq!(clamped_score(1001), 1000);
    assert_eq!(clamped_score(5000), 1000);
    assert_eq!(clamped_score(u32::MAX), 1000);
    let user = User::borrower(address("ana"), "Ana".to_string(), 5000, 9);
    assert_eq!(user.credit_score, 1000);
    let user = User::borrower(address("ana"), "Ana".to_string(), 1000, 9);
    assert_eq!(user.credit_score, 1000);
}

#[test]
fn the_next_loan_id_is_one_more_until_the_ids_are_used_up() {
    assert_eq!(next_loan_id(0), Some(1));
    assert_eq!(next_loan_id(1), Some(2));
    assert_eq!(next_loan_id(41), Some(42));
    assert_eq!(next_loan_id(u32::MAX - 1), Some(u32::MAX));
    assert_eq!(next_loan_id(u32::MAX), None);
}

#[test]
fn a_new_borrower_has_the_score_given() {
    let user = User::borrower(address("ana"), "Ana".to_string(), 720, 99);
    assert_eq!(user.address, address("ana"));
    assert_eq!(user.role, Role::Borrower);
    assert_eq!(user.name, "Ana");
    assert_eq!(user.credit_score, 720);
    assert_eq!(user.created_at, 99);
}

#[test]
fn an_event_moves_the_score_and_nothing_else() {
    let mut user = User::borrower(address("ana"), "Ana".to_string(), 990, 99);
    user.record_event(true);
    assert_eq!(
        user,
        User {
            address: address("ana"),
            role: Role::Borrower,
            name: "Ana".to_string(),
            credit_score: 1000,
            created_at: 99,
        }
    );
    user.record_event(false);
    assert_eq!(user.credit_score, 970);
    assert_eq!(user.name, "Ana");
}

#[test]
fn only_borrowers_and_strangers_may_borrow() {
    let mut user = User::borrower(address("ana"), "Ana".to_string(), 700, 1);
    assert_eq!(User::may_borrow(None), Ok(()));
    assert_eq!(User::may_borrow(Some(&user)), Ok(()));
    user.role = Role::Lender;
    assert_eq!(User::may_borrow(Some(&user)), Err(LedgerError::NotBorrower));
    user.role = Role::Admin;
    assert_eq!(User::may_borrow(Some(&user)), Err(LedgerError::NotBorrower));
}

#[test]
fn a_loan_is_opened_active_and_owed_in_full() {
    let loan = Loan::open(
        7,
        address("borrower"),
        2_500,
        "vehicle".to_string(),
        90,
        12,
        1_700_000_000,
    );
    assert_eq!(
        loan,
        Ok(Loan {
            id: 7,
            borrower: address("borrower"),
            amount: 2_500,
            purpose: "vehicle".to_string(),
            term_days: 90,
            interest_rate: 12,
            status: LoanStatus::Active,
            amount_remaining: 2_500,
            created_at: 1_700_000_000,
            due_date: 1_700_000_000 + 90 * 86_400,
            lender: None,
        })
    );
}

#[test]
fn a_loan_that_falls_due_past_the_last_second_is_not_opened() {
    assert_eq!(
        Loan::open(1, address("b"), 5, "x".to_string(), 1, 15, u64::MAX),
        Err(LedgerError::DueDateOverflow)
    );
    assert_eq!(
        Loan::open(1, address("b"), 5, "x".to_string(), u32::MAX, 15, u64::MAX / 2 * 2),
        Err(LedgerError::DueDateOverflow)
    );
    let last = Loan::open(1, address("b"), 5, "x".to_string(), 1, 15, u64::MAX - 86_400);
    assert_eq!(last.unwrap().due_date, u64::MAX);
}

#[test]
fn approval_names_the_lender_once() {
    let mut loan = open(100);
    assert_eq!(loan.approve(address("first")), Ok(()));
    assert_eq!(loan.status, LoanStatus::Approved);
    assert_eq!(loan.lender, Some(address("first")));
    let approved = loan.clone();
    assert_eq!(
        loan.approve(address("second")),
        Err(LedgerError::LoanNotActive)
    );
    assert_eq!(loan, approved);
}

#[test]
fn approval_is_refused_in_every_state_but_active() {
    for status in [
        LoanStatus::Approved,
        LoanStatus::Paid,
        LoanStatus::Defaulted,
    ] {
        let mut loan = open(100);
        loan.status = status;
        let before = loan.clone();
        assert_eq!(
            loan.approve(address("lender")),
            Err(LedgerError::LoanNotActive)
        );
        assert_eq!(loan, before);
    }
}

#[test]
fn a_part_payment_leaves_the_loan_approved() {
    let mut loan = approved_loan(100);
    assert_eq!(loan.pay(&address("borrower"), 40), Ok(false));
    assert_eq!(loan.amount_remaining, 60);
    assert_eq!(loan.status, LoanStatus::Approved);
    assert_eq!(loan.amount, 100);
}

#[test]
fn the_last_payment_settles_the_loan() {
    let mut loan = approved_loan(100);
    assert_eq!(loan.pay(&address("borrower"), 99), Ok(false));
    assert_eq!(loan.pay(&address("borrower"), 1), Ok(true));
    assert_eq!(loan.amount_remaining, 0);
    assert_eq!(loan.status, LoanStatus::Paid);
    assert_eq!(loan.lender, Some(address("lender")));
}

#[test]
fn a_payment_above_what_is_owed_settles_the_loan_too() {
    let mut loan = approved_loan(100);
    assert_eq!(loan.pay(&address("borrower"), 250), Ok(true));
    assert_eq!(loan.amount_remaining, -150);
    assert_eq!(loan.status, LoanStatus::Paid);
}

#[test]
fn a_payment_below_zero_is_refused() {
    let mut loan = approved_loan(100);
    let before = loan.clone();
    assert_eq!(
        loan.pay(&address("borrower"), -10),
        Err(LedgerError::NegativePayment)
    );
    assert_eq!(
        loan.pay(&address("borrower"), -1),
        Err(LedgerError::NegativePayment)
    );
    assert_eq!(
        loan.pay(&address("borrower"), i128::MIN),
        Err(LedgerError::NegativePayment)
    );
    assert_eq!(loan, before);
    assert_eq!(loan.amount_remaining, 100);
    assert_eq!(loan.pay(&address("borrower"), 0), Ok(false));
    assert_eq!(loan.amount_remaining, 100);
}

#[test]
fn a_payment_below_zero_comes_after_payer_and_status() {
    let mut loan = approved_loan(100);
    assert_eq!(
        loan.pay(&address("other"), -10),
        Err(LedgerError::NotLoanBorrower)
    );
    loan.status = LoanStatus::Active;
    assert_eq!(
        loan.pay(&address("borrower"), -10),
        Err(LedgerError::LoanNotApproved)
    );
}

#[test]
fn a_payment_that_leaves_an_amount_no_record_can_hold_is_refused() {
    let mut loan = approved_loan(i128::MIN);
    let before = loan.clone();
    assert_eq!(
        loan.pay(&address("borrower"), 1),
        Err(LedgerError::AmountOverflow)
    );
    assert_eq!(
        loan.pay(&address("borrower"), i128::MAX),
        Err(LedgerError::AmountOverflow)
    );
    assert_eq!(loan, before);
    assert_eq!(loan.pay(&address("borrower"), 0), Ok(true));
    assert_eq!(loan.amount_remaining, i128::MIN);

    let mut loan = approved_loan(i128::MIN + 5);
    assert_eq!(loan.pay(&address("borrower"), 5), Ok(true));
    assert_eq!(loan.amount_remaining, i128::MIN);
}

#[test]
fn what_is_owed_never_rises_over_a_run_of_payments() {
    let mut loan = approved_loan(1_000);
    let mut owed = loan.amount_remaining;
    for amount in [0, 5, -3, 200, -1, 0, 794, -9] {
        let _ = loan.pay(&address("borrower"), amount);
        assert!(loan.amount_remaining <= owed);
        owed = loan.amount_remaining;
    }
    assert_eq!(owed, 1);
    assert_eq!(loan.status, LoanStatus::Approved);
    for amount in [7, 1, -9, 0] {
        let _ = loan.pay(&address("borrower"), amount);
        assert!(loan.amount_remaining <= owed);
        owed = loan.amount_remaining;
    }
    assert_eq!(owed, -6);
    assert_eq!(loan.status, LoanStatus::Paid);
}

#[test]
fn a_payment_of_nothing_settles_a_loan_of_nothing() {
    let mut loan = approved_loan(0);
    assert_eq!(loan.pay(&address("borrower"), 0), Ok(true));
    assert_eq!(loan.status, LoanStatus::Paid);
}

#[test]
fn a_payment_by_another_is_refused_before_the_status_is_looked_at() {
    let mut loan = open(100);
    let before = loan.clone();
    assert_eq!(
        loan.pay(&address("other"), 10),
        Err(LedgerError::NotLoanBorrower)
    );
    assert_eq!(loan, before);
    let mut loan = approved_loan(100);
    let before = loan.clone();
    assert_eq!(
        loan.pay(&address("other"), 10),
        Err(LedgerError::NotLoanBorrower)
    );
    assert_eq!(loan, before);
}

#[test]
fn a_payment_is_refused_in_every_state_but_approved() {
    for status in [LoanStatus::Active, LoanStatus::Paid, LoanStatus::Defaulted] {
        let mut loan = approved_loan(100);
        loan.status = status;
        let before = loan.clone();
        assert_eq!(
            loan.pay(&address("borrower"), 10),
            Err(LedgerError::LoanNotApproved)
        );
        assert_eq!(loan, before);
    }
}

#[test]
fn addresses_are_equal_when_their_text_is() {
    assert_eq!(address("a"), address("a"));
    assert_ne!(address("a"), address("b"));
    assert_ne!(address("a"), address("A"));
    assert_ne!(address(""), address(" "));
    assert_eq!(address("GABC").as_str(), "GABC");
    assert_eq!(address("x").clone(), address("x"));
}
