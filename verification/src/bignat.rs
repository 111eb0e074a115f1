//! Natural numbers of any size.
//!
//! A `BigNat` keeps its number as the minimal big-endian byte string, the form
//! in which it also travels. Its view is the number itself. The arithmetic is
//! done by `num_bigint::BigUint`: each operation below hands the byte strings
//! to one trusted wrapper that makes the call on them and hands back the
//! bytes of the result.

use crate::encoding::{
    be_bytes, be_value, is_minimal, lemma_be_bytes_is_minimal, lemma_be_value_of_be_bytes,
};
use crate::group::{lemma_mod_exp_bound, mod_exp};
use num_bigint::BigUint;
use vstd::arithmetic::div_mod::lemma_mod_bound;
use vstd::prelude::*;

verus! {

/// `BigUint::from_bytes_be` followed by `BigUint::to_bytes_be`: reads the bytes
/// as a big-endian number and writes that number without leading zero bytes
/// (zero as the single byte `0`).
#[verifier::external_body]
fn be_normalize(bytes: &[u8]) -> (r: Vec<u8>)
    ensures
        r@ == be_bytes(be_value(bytes@)),
{
    BigUint::from_bytes_be(bytes).to_bytes_be()
}

/// `BigUint::modpow`: `(base ^ exponent) % modulus` on the numbers that the
/// three byte strings denote. The outside function panics on a zero modulus.
#[verifier::external_body]
fn be_modpow(base: &[u8], exponent: &[u8], modulus: &[u8]) -> (r: Vec<u8>)
    requires
        be_value(modulus@) != 0,
    ensures
        r@ == be_bytes(mod_exp(be_value(base@), be_value(exponent@), be_value(modulus@))),
{
    let b = BigUint::from_bytes_be(base);
    let e = BigUint::from_bytes_be(exponent);
    let m = BigUint::from_bytes_be(modulus);
    b.modpow(&e, &m).to_bytes_be()
}

/// `BigUint`'s `*`: the product of the two numbers.
#[verifier::external_body]
fn be_mul(a: &[u8], b: &[u8]) -> (r: Vec<u8>)
    ensures
        r@ == be_bytes(be_value(a@) * be_value(b@)),
{
    (BigUint::from_bytes_be(a) * BigUint::from_bytes_be(b)).to_bytes_be()
}

/// `BigUint`'s `-`: the difference of the two numbers. The outside operator
/// panics where the second exceeds the first.
#[verifier::external_body]
fn be_sub(a: &[u8], b: &[u8]) -> (r: Vec<u8>)
    requires
        be_value(a@) >= be_value(b@),
    ensures
        r@ == be_bytes((be_value(a@) - be_value(b@)) as nat),
{
    (BigUint::from_bytes_be(a) - BigUint::from_bytes_be(b)).to_bytes_be()
}

/// `BigUint`'s `%`: the remainder of the first number on division by the
/// second. The outside operator panics on a zero divisor.
#[verifier::external_body]
fn be_rem(a: &[u8], m: &[u8]) -> (r: Vec<u8>)
    requires
        be_value(m@) != 0,
    ensures
        r@ == be_bytes(be_value(a@) % be_value(m@)),
{
    (BigUint::from_bytes_be(a) % BigUint::from_bytes_be(m)).to_bytes_be()
}

/// `BigUint`'s `>=`: whether the first number is at least the second.
#[verifier::external_body]
fn be_ge(a: &[u8], b: &[u8]) -> (r: bool)
    ensures
        r == (be_value(a@) >= be_value(b@)),
{
    BigUint::from_bytes_be(a) >= BigUint::from_bytes_be(b)
}

/// A natural number of any size.
#[derive(Debug)]
pub struct BigNat {
    bytes: Vec<u8>,
}

impl View for BigNat {
    type V = nat;

    closed spec fn view(&self) -> nat {
        be_value(self.bytes@)
    }
}

impl BigNat {
    /// The bytes held are the minimal big-endian string of the number.
    #[verifier::type_invariant]
    spec fn minimal(self) -> bool {
        self.bytes@ == be_bytes(be_value(self.bytes@))
    }

    /// The number that a big-endian byte string denotes. Leading zero bytes
    /// and the empty string are accepted.
    pub fn from_bytes_be(bytes: &[u8]) -> (r: BigNat)
        ensures
            r@ == be_value(bytes@),
    {
        let v = be_normalize(bytes);
        proof {
            lemma_be_value_of_be_bytes(be_value(bytes@));
        }
        BigNat { bytes: v }
    }

    /// The number whose minimal byte string is `bytes`.
    pub(crate) fn from_minimal_bytes(bytes: Vec<u8>) -> (r: BigNat)
        requires
            bytes@ == be_bytes(be_value(bytes@)),
        ensures
            r@ == be_value(bytes@),
    {
        BigNat { bytes }
    }

    /// The minimal big-endian byte string of the number.
    pub fn to_bytes_be(&self) -> (r: Vec<u8>)
        ensures
            r@ == be_bytes(self@),
            be_value(r@) == self@,
            is_minimal(r@),
    {
        proof {
            use_type_invariant(self);
            lemma_be_bytes_is_minimal(self@);
        }
        let r = self.bytes.clone();
        assert(r@ =~= self.bytes@);
        r
    }

    /// The number `v`.
    pub fn from_u64(v: u64) -> (r: BigNat)
        ensures
            r@ == v,
    {
        let bytes = u64_be_bytes(v);
        proof {
            lemma_be_value_of_be_bytes(v as nat);
        }
        BigNat { bytes }
    }

    /// Whether the number is zero.
    pub fn is_zero(&self) -> (r: bool)
        ensures
            r == (self@ == 0),
    {
        proof {
            use_type_invariant(self);
            assert(be_bytes(0) =~= seq![0u8]);
            if self.bytes@.len() == 1 && self.bytes@[0] == 0 {
                assert(self.bytes@.drop_last() =~= Seq::<u8>::empty());
                assert(be_value(self.bytes@.drop_last()) == 0);
            }
        }
        self.bytes.len() == 1 && self.bytes[0] == 0
    }

    /// Whether the two numbers are the same. As both are held in minimal form,
    /// this is so exactly when their bytes are.
    pub fn equals(&self, other: &BigNat) -> (r: bool)
        ensures
            r == (self@ == other@),
    {
        proof {
            use_type_invariant(self);
            use_type_invariant(other);
        }
        let n = self.bytes.len();
        if n != other.bytes.len() {
            return false;
        }
        let mut i: usize = 0;
        while i < n
            invariant
                i <= n,
                n == self.bytes@.len(),
                n == other.bytes@.len(),
                self.minimal(),
                other.minimal(),
                forall|j: int| 0 <= j < i ==> self.bytes@[j] == other.bytes@[j],
            decreases n - i,
        {
            if self.bytes[i] != other.bytes[i] {
                return false;
            }
            i += 1;
        }
        assert(self.bytes@ =~= other.bytes@);
        true
    }

    /// Whether this number is at least the other.
    pub fn ge(&self, other: &BigNat) -> (r: bool)
        ensures
            r == (self@ >= other@),
    {
        be_ge(self.bytes.as_slice(), other.bytes.as_slice())
    }

    /// The product of the two numbers.
    pub fn mul(&self, other: &BigNat) -> (r: BigNat)
        ensures
            r@ == self@ * other@,
    {
        let bytes = be_mul(self.bytes.as_slice(), other.bytes.as_slice());
        proof {
            lemma_be_value_of_be_bytes(self@ * other@);
        }
        BigNat { bytes }
    }

    /// This number less the other, which must not exceed it.
    pub fn sub(&self, other: &BigNat) -> (r: BigNat)
        requires
            self@ >= other@,
        ensures
            r@ == self@ - other@,
    {
        let bytes = be_sub(self.bytes.as_slice(), other.bytes.as_slice());
        proof {
            lemma_be_value_of_be_bytes((self@ - other@) as nat);
        }
        BigNat { bytes }
    }

    /// The remainder of this number on division by a modulus that is not zero.
    pub fn rem(&self, modulus: &BigNat) -> (r: BigNat)
        requires
            modulus@ != 0,
        ensures
            r@ == self@ % modulus@,
            r@ < modulus@,
    {
        let bytes = be_rem(self.bytes.as_slice(), modulus.bytes.as_slice());
        proof {
            lemma_be_value_of_be_bytes(self@ % modulus@);
            lemma_mod_bound(self@ as int, modulus@ as int);
        }
        BigNat { bytes }
    }

    /// `self ^ exponent mod modulus`, for a modulus that is not zero. The result
    /// is a function of the three numbers alone.
    pub fn modpow(&self, exponent: &BigNat, modulus: &BigNat) -> (r: BigNat)
        requires
            modulus@ != 0,
        ensures
            r@ == mod_exp(self@, exponent@, modulus@),
            r@ < modulus@,
    {
        let bytes = be_modpow(
            self.bytes.as_slice(),
            exponent.bytes.as_slice(),
            modulus.bytes.as_slice(),
        );
        proof {
            lemma_be_value_of_be_bytes(mod_exp(self@, exponent@, modulus@));
            lemma_mod_exp_bound(self@, exponent@, modulus@);
        }
        BigNat { bytes }
    }
}

impl Clone for BigNat {
    fn clone(&self) -> (r: BigNat)
        ensures
            r@ == self@,
    {
        proof {
            use_type_invariant(self);
        }
        let bytes = self.bytes.clone();
        assert(bytes@ =~= self.bytes@);
        BigNat { bytes }
    }
}

/// The minimal big-endian bytes of a machine integer.
fn u64_be_bytes(v: u64) -> (r: Vec<u8>)
    ensures
        r@ == be_bytes(v as nat),
    decreases v,
{
    if v < 256 {
        let r = vec![v as u8];
        assert(r@ =~= seq![v as u8]);
        r
    } else {
        let mut r = u64_be_bytes(v / 256);
        r.push((v % 256) as u8);
        r
    }
}

} // verus!
