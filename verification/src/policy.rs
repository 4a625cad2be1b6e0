//! The rules that turn a credit score into an interest rate, a repayment
//! into a new score, and a term into a due date.

use vstd::prelude::*;

verus! {

/// The highest credit score.
pub const MAX_CREDIT_SCORE: u32 = 1000;

/// What a fully repaid loan adds to the borrower's score.
pub const REPAYMENT_BONUS: u32 = 20;

/// What a default takes from the borrower's score.
pub const DEFAULT_PENALTY: u32 = 30;

/// The rate, in percent, for scores from 800 to 1000.
pub const RATE_EXCELLENT: u32 = 5;

/// The rate, in percent, for scores from 600 to 799.
pub const RATE_GOOD: u32 = 8;

/// The rate, in percent, for scores from 400 to 599.
pub const RATE_FAIR: u32 = 12;

/// The rate, in percent, for every other score and for a borrower without a
/// record.
pub const RATE_RISKY: u32 = 15;

/// The length of a day in seconds.
pub const SECONDS_PER_DAY: u64 = 86400;

/// The greatest `u32`, the last id that a loan can have.
pub open spec fn last_loan_id() -> nat {
    0xFFFF_FFFF
}

/// The greatest `u64`, the last second that a date can name.
pub open spec fn last_second() -> nat {
    0xFFFF_FFFF_FFFF_FFFF
}

/// The least `i128`, the least amount that a record can hold.
pub open spec fn least_amount() -> int {
    -0x8000_0000_0000_0000_0000_0000_0000_0000
}

/// The score as it goes on record: scores above 1000 count as 1000.
pub open spec fn spec_clamped_score(score: nat) -> nat {
    if score <= 1000 {
        score
    } else {
        1000
    }
}

/// The interest rate of the tier that `score` falls in.
pub open spec fn spec_rate_for_score(score: nat) -> nat {
    if 800 <= score <= 1000 {
        5
    } else if 600 <= score <= 799 {
        8
    } else if 400 <= score <= 599 {
        12
    } else {
        15
    }
}

/// The interest rate for a borrower whose record shows `score`, or who has
/// no record.
pub open spec fn spec_interest_rate(score: Option<nat>) -> nat {
    match score {
        Some(score) => spec_rate_for_score(score),
        None => 15,
    }
}

/// The score after one event: a repayment adds 20 and stops at 1000, a
/// default takes 30 and stops at 0.
pub open spec fn spec_adjusted_score(score: nat, positive: bool) -> nat {
    if positive {
        if score + 20 <= 1000 {
            score + 20
        } else {
            1000
        }
    } else {
        if score >= 30 {
            (score - 30) as nat
        } else {
            0
        }
    }
}

/// The second at which a loan made at `created_at` for `term_days` days
/// falls due.
pub open spec fn spec_due_date(created_at: nat, term_days: nat) -> nat {
    created_at + term_days * 86400
}

/// The score as it goes on record: scores above 1000 count as 1000.
pub fn clamped_score(score: u32) -> (clamped: u32)
    ensures
        clamped == spec_clamped_score(score as nat),
{
    if score <= MAX_CREDIT_SCORE {
        score
    } else {
        MAX_CREDIT_SCORE
    }
}

/// The id of the loan that follows `loan_count` loans, or `None` where the
/// ids are used up.
pub fn next_loan_id(loan_count: u32) -> (id: Option<u32>)
    ensures
        match id {
            Some(id) => id == loan_count + 1,
            None => loan_count == last_loan_id(),
        },
{
    loan_count.checked_add(1)
}

/// The interest rate, in percent, for a credit score.
pub fn interest_rate_for_score(score: u32) -> (rate: u32)
    ensures
        rate == spec_rate_for_score(score as nat),
{
    if 800 <= score && score <= MAX_CREDIT_SCORE {
        RATE_EXCELLENT
    } else if 600 <= score && score <= 799 {
        RATE_GOOD
    } else if 400 <= score && score <= 599 {
        RATE_FAIR
    } else {
        RATE_RISKY
    }
}

/// The interest rate, in percent, for a borrower of whom the score is known
/// or who has no record.
pub fn interest_rate(score: Option<u32>) -> (rate: u32)
    ensures
        rate == spec_interest_rate(
            match score {
                Some(score) => Some(score as nat),
                None => None,
            },
        ),
{
    match score {
        Some(score) => interest_rate_for_score(score),
        None => RATE_RISKY,
    }
}

/// The credit score after a repayment (`positive`) or a default.
pub fn adjusted_score(score: u32, positive: bool) -> (adjusted: u32)
    ensures
        adjusted == spec_adjusted_score(score as nat, positive),
{
    if positive {
        if score <= MAX_CREDIT_SCORE - REPAYMENT_BONUS {
            score + REPAYMENT_BONUS
        } else {
            MAX_CREDIT_SCORE
        }
    } else {
        score.saturating_sub(DEFAULT_PENALTY)
    }
}

/// The due date of a loan, or `None` where it lies past the last second
/// that a `u64` can count.
pub fn due_date(created_at: u64, term_days: u32) -> (due: Option<u64>)
    ensures
        match due {
            Some(due) => due == spec_due_date(created_at as nat, term_days as nat),
            None => spec_due_date(created_at as nat, term_days as nat) > last_second(),
        },
{
    let term: u64 = term_days as u64 * SECONDS_PER_DAY;
    created_at.checked_add(term)
}

} // verus!
