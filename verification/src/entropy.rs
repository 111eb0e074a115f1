//! Random numbers and fresh identifiers, all from the operating system's
//! random source.
//!
//! The source is asked through its fallible entry only, so that a source
//! which does not answer gives `InternalRandomnessFailure` and never a panic.
//! Numbers are drawn from a ChaCha generator seeded from the source for each
//! draw; identifiers are sixteen bytes of the source, written as a version-4
//! UUID.

use crate::bignat::BigNat;
use crate::encoding::{be_bytes, be_value};
use crate::error::AuthError;
use num_bigint::{BigUint, RandBigInt};
use rand::rngs::{OsRng, StdRng};
use rand::{RngCore, SeedableRng};
use uuid::Builder;
use vstd::prelude::*;

verus! {

/// The error of `rand`'s fallible calls.
#[verifier::external_type_specification]
#[verifier::external_body]
pub struct ExRandError(rand::Error);

/// The text of the version-4 UUID that `uuid` makes of sixteen bytes: the
/// bytes with the version and variant bits set, in hyphenated lower-case
/// hexadecimal. It depends on the bytes alone.
pub uninterp spec fn uuid_v4_text(bytes: Seq<u8>) -> Seq<char>;

/// `StdRng::from_rng(OsRng)`, then `RandBigInt::gen_biguint_below` on that
/// generator: a number drawn uniformly below the bound, as its minimal bytes,
/// or the error with which the operating system refused the seed. The seeded
/// generator cannot fail; `gen_biguint_below` asserts that the bound is not
/// zero. Which number comes is not said: only that it is below the bound.
#[verifier::external_body]
fn be_random_below(bound: &[u8]) -> (r: Result<Vec<u8>, rand::Error>)
    requires
        be_value(bound@) != 0,
    ensures
        r matches Ok(v) ==> be_value(v@) < be_value(bound@) && v@ == be_bytes(be_value(v@)),
{
    let mut rng = StdRng::from_rng(OsRng)?;
    Ok(rng.gen_biguint_below(&BigUint::from_bytes_be(bound)).to_bytes_be())
}

/// `OsRng::try_fill_bytes` on sixteen bytes: the bytes that the operating
/// system handed out, or its error. Nothing is claimed of which it is, nor of
/// the bytes.
#[verifier::external_body]
fn os_random_16() -> (r: Result<[u8; 16], rand::Error>) {
    let mut bytes = [0u8; 16];
    OsRng.try_fill_bytes(&mut bytes)?;
    Ok(bytes)
}

/// `uuid::Builder::from_random_bytes`, `into_uuid` and `to_string`: the
/// version-4 UUID of the bytes in hyphenated form, which is 36 characters
/// long. Nothing here draws or can fail.
#[verifier::external_body]
fn uuid_v4_of(bytes: [u8; 16]) -> (r: String)
    ensures
        r@ == uuid_v4_text(bytes@),
        r@.len() == 36,
{
    Builder::from_random_bytes(bytes).into_uuid().to_string()
}

/// Whether the operating system's random source answers. Which it is lies
/// with the operating system: `availability_of` says what is returned for
/// either answer.
pub fn source_available() -> (r: Result<(), AuthError>)
    ensures
        r matches Err(e) ==> e == AuthError::InternalRandomnessFailure,
{
    match availability_of(os_random_16()) {
        Ok(_) => Ok(()),
        Err(e) => Err(e),
    }
}

/// What an answer of the random source comes to: what the source handed out
/// where it answered, `InternalRandomnessFailure` where it gave an error,
/// whatever the error.
pub fn availability_of<T>(answer: Result<T, rand::Error>) -> (r: Result<T, AuthError>)
    ensures
        r == match answer {
            Ok(drawn) => Ok::<T, AuthError>(drawn),
            Err(_) => Err::<T, AuthError>(AuthError::InternalRandomnessFailure),
        },
{
    match answer {
        Ok(drawn) => Ok(drawn),
        Err(_) => Err(AuthError::InternalRandomnessFailure),
    }
}

/// A number drawn uniformly from `[0, bound)`, for a bound that is not zero.
pub fn random_below(bound: &BigNat) -> (r: Result<BigNat, AuthError>)
    requires
        bound@ != 0,
    ensures
        r matches Ok(n) ==> n@ < bound@,
        r matches Err(e) ==> e == AuthError::InternalRandomnessFailure,
{
    match availability_of(be_random_below(bound.to_bytes_be().as_slice())) {
        Ok(bytes) => Ok(BigNat::from_minimal_bytes(bytes)),
        Err(e) => Err(e),
    }
}

/// The identifier that sixteen drawn bytes give, or the failure of the draw
/// as it is.
pub fn identifier_from(drawn: Result<[u8; 16], AuthError>) -> (r: Result<String, AuthError>)
    ensures
        match drawn {
            Ok(bytes) => r matches Ok(id) && id@ == uuid_v4_text(bytes@) && id@.len() == 36,
            Err(e) => r == Err::<String, AuthError>(e),
        },
{
    match drawn {
        Ok(bytes) => Ok(uuid_v4_of(bytes)),
        Err(e) => Err(e),
    }
}

/// A fresh random identifier of 36 characters.
pub fn fresh_identifier() -> (r: Result<String, AuthError>)
    ensures
        r matches Ok(id) ==> id@.len() == 36,
        r matches Err(e) ==> e == AuthError::InternalRandomnessFailure,
{
    identifier_from(availability_of(os_random_16()))
}

} // verus!
