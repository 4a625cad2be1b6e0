//! What this library takes on trust about the host's byte strings.
//!
//! A `soroban_sdk::Bytes` is a handle to a byte string that the host keeps.
//! Nothing here is proved: each contract below restates what the SDK and the
//! host do, for the calls that the decoder makes. The host meters every call
//! and aborts the whole invocation once its budget is spent; such an abort
//! is an event of the environment and no contract here speaks of it.

use soroban_sdk::{Bytes, Env};
use vstd::prelude::*;

verus! {

/// The host environment, carried through and never looked into.
#[verifier::external_type_specification]
#[verifier::external_body]
pub struct ExEnv(soroban_sdk::Env);

/// A byte string kept by the host; its content is [`bytes_seq`].
#[verifier::external_type_specification]
#[verifier::external_body]
pub struct ExBytes(soroban_sdk::Bytes);

/// The bytes that the host keeps for `b`, first to last.
pub uninterp spec fn bytes_seq(b: Bytes) -> Seq<u8>;

/// `Bytes::new` makes a host byte string that holds nothing.
pub assume_specification[ soroban_sdk::Bytes::new ](env: &Env) -> (b: Bytes)
    ensures
        bytes_seq(b) == Seq::<u8>::empty(),
;

/// `Bytes::to_alloc_vec` copies the content out, byte for byte. The vector
/// is made as long as `Bytes::len` says, which is a `u32`.
pub assume_specification[ soroban_sdk::Bytes::to_alloc_vec ](b: &Bytes) -> (v: Vec<u8>)
    ensures
        v@ == bytes_seq(*b),
        v@.len() <= u32::MAX,
;

/// `Bytes::push_back` appends one byte and keeps the rest. The host fails
/// the call where the new length does not fit a `u32`, so the old length
/// has to be below the greatest `u32`.
pub assume_specification[ soroban_sdk::Bytes::push_back ](b: &mut Bytes, x: u8)
    requires
        bytes_seq(*old(b)).len() < u32::MAX,
    ensures
        bytes_seq(*final(b)) == bytes_seq(*old(b)).push(x),
;

} // verus!
