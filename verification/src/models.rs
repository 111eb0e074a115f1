//! The data of the protocol: the group parameters, a registered user and an
//! authentication attempt in flight.

use crate::bignat::BigNat;
use crate::group::{is_group, moduli_usable};
use vstd::prelude::*;

verus! {

/// The public parameters that prover and verifier share: a modulus `p`, the
/// order `q` of the subgroup, and two generators `g` and `h` of that subgroup.
/// Group elements are taken modulo `p`, exponents modulo `q`.
pub struct Params {
    pub p: BigNat,
    pub q: BigNat,
    pub g: BigNat,
    pub h: BigNat,
}

/// The parameters as numbers.
pub struct ParamsView {
    pub p: nat,
    pub q: nat,
    pub g: nat,
    pub h: nat,
}

impl View for Params {
    type V = ParamsView;

    open spec fn view(&self) -> ParamsView {
        ParamsView { p: self.p@, q: self.q@, g: self.g@, h: self.h@ }
    }
}

impl ParamsView {
    /// The moduli can be computed with: `p` is at least two, `q` is not zero.
    pub open spec fn usable(self) -> bool {
        moduli_usable(self.p, self.q)
    }

    /// The parameters describe a subgroup of order dividing `q`.
    pub open spec fn is_group(self) -> bool {
        is_group(self.p, self.q, self.g, self.h)
    }
}

impl Params {
    /// Whether the moduli can be computed with.
    pub fn is_usable(&self) -> (r: bool)
        ensures
            r == self@.usable(),
    {
        let two = BigNat::from_u64(2);
        self.p.ge(&two) && !self.q.is_zero()
    }

    /// Whether the parameters describe a subgroup of order dividing `q`: the
    /// moduli are usable, `q` divides `p - 1`, and `g` and `h` raised to `q`
    /// give one.
    pub fn is_group(&self) -> (r: bool)
        ensures
            r == self@.is_group(),
    {
        if !self.is_usable() {
            return false;
        }
        let one = BigNat::from_u64(1);
        let p_less_one = self.p.sub(&one);
        p_less_one.rem(&self.q).is_zero() && self.g.modpow(&self.q, &self.p).equals(&one)
            && self.h.modpow(&self.q, &self.p).equals(&one)
    }
}

impl Clone for Params {
    fn clone(&self) -> (r: Params)
        ensures
            r@ == self@,
    {
        Params { p: self.p.clone(), q: self.q.clone(), g: self.g.clone(), h: self.h.clone() }
    }
}

/// A registered user: the name and the two public keys `y1 = g^x mod p` and
/// `y2 = h^x mod p` of the user's secret `x`.
pub struct User {
    pub name: String,
    pub y1: BigNat,
    pub y2: BigNat,
}

/// A registered user as plain values.
pub struct UserView {
    pub name: Seq<char>,
    pub y1: nat,
    pub y2: nat,
}

impl View for User {
    type V = UserView;

    open spec fn view(&self) -> UserView {
        UserView { name: self.name@, y1: self.y1@, y2: self.y2@ }
    }
}

/// An authentication attempt in flight: who it is for, the prover's
/// commitment `r1 = g^k mod p`, `r2 = h^k mod p`, and the verifier's
/// challenge `c`.
pub struct AuthChallenge {
    pub username: String,
    pub r1: BigNat,
    pub r2: BigNat,
    pub c: BigNat,
}

/// An attempt as plain values.
pub struct AuthChallengeView {
    pub username: Seq<char>,
    pub r1: nat,
    pub r2: nat,
    pub c: nat,
}

impl View for AuthChallenge {
    type V = AuthChallengeView;

    open spec fn view(&self) -> AuthChallengeView {
        AuthChallengeView { username: self.username@, r1: self.r1@, r2: self.r2@, c: self.c@ }
    }
}

} // verus!
