//! A peer-to-peer lending ledger and the URL-safe base64 decoder that
//! travels with it, both verified with Verus.
//!
//! Borrowers ask for loans, lenders approve them, borrowers pay them back,
//! and a repaid loan raises the borrower's credit score, which in turn sets
//! the interest rate of the next loan.
//!
//! - [`ledger`] holds [`RapidLoanContract`], the ledger with its records and
//!   operations. It knows neither clock nor caller: the time is an argument,
//!   and whoever calls in the name of an account has made sure that the
//!   account agreed.
//! - [`model`] is the ledger as mathematics, the view that the contracts of
//!   the operations speak of, and [`laws`] proves what holds of it whatever
//!   is called: ids that count up from 1, loans that only move forward,
//!   terms that stay as they were agreed.
//! - [`loan`], [`user`] and [`policy`] hold the records and the rules on one
//!   record, for those who keep the records elsewhere.
//! - [`base64_url`] decodes URL-safe base64 held in a host byte string, and
//!   proves that it takes back what encoding does. [`host`] lists what is
//!   taken on trust about such byte strings.

pub mod address;
pub mod base64_url;
pub mod error;
pub mod host;
pub mod laws;
pub mod ledger;
pub mod loan;
pub mod model;
pub mod policy;
mod table;
pub mod user;

pub use address::Address;
pub use base64_url::{decode, decode_char, DecodeError};
pub use error::LedgerError;
pub use ledger::{present, RapidLoanContract};
pub use loan::{Loan, LoanStatus};
pub use user::{Role, User};
