//! The verifier: the check of a response, and the service that keeps the
//! registered users and the attempts in flight.
//!
//! An attempt goes from issued to verified or rejected, and either way it is
//! over: the record of the challenge is taken out on the first verification
//! that finds it, so that the same answer cannot be played again.

use crate::bignat::BigNat;
use crate::encoding::{be_bytes, be_value};
use crate::entropy::{fresh_identifier, random_below};
use crate::error::AuthError;
use crate::group::mod_exp;
use crate::models::{AuthChallenge, AuthChallengeView, Params, ParamsView, User, UserView};
use crate::primes::is_prime;
use crate::protocol::{accepts, inverse_exponent, lemma_completeness, response};
use crate::soundness::lemma_changed_commitment_is_rejected_for_prime;
use crate::store::Table;
use vstd::arithmetic::div_mod::lemma_sub_mod_noop_right;
use vstd::prelude::*;

verus! {

/// The verifier's side of the mathematics, for parameters whose moduli were
/// found usable when it was made.
pub struct Verifier {
    params: Params,
}

impl View for Verifier {
    type V = ParamsView;

    closed spec fn view(&self) -> ParamsView {
        self.params@
    }
}

impl Verifier {
    /// The moduli are usable.
    #[verifier::type_invariant]
    spec fn usable(self) -> bool {
        self.params@.usable()
    }

    /// A verifier for these parameters, unless `p` is below two or `q` is zero.
    pub fn new(params: Params) -> (r: Option<Verifier>)
        ensures
            r is Some <==> params@.usable(),
            r matches Some(v) ==> v@ == params@,
    {
        if params.is_usable() {
            Some(Verifier { params })
        } else {
            None
        }
    }

    /// The parameters, which are usable.
    pub fn params(&self) -> (r: &Params)
        ensures
            r@ == self@,
            r@.usable(),
    {
        proof {
            use_type_invariant(self);
        }
        &self.params
    }

    /// Whether `y` lies in the subgroup: it is a residue that is not zero, and
    /// `y^q` is one. Registration does not ask this of public keys; a caller
    /// who wants it of them asks here.
    pub fn is_member(&self, y: &BigNat) -> (r: bool)
        ensures
            r == (0 < y@ < self@.p && mod_exp(y@, self@.q, self@.p) == 1),
    {
        proof {
            use_type_invariant(self);
        }
        let one = BigNat::from_u64(1);
        !y.is_zero() && !y.ge(&self.params.p) && y.modpow(&self.params.q, &self.params.p).equals(
            &one,
        )
    }

    /// The exponent `(p - 1 - c) mod (p - 1)` that undoes the challenge `c`.
    pub fn inverse_exponent(&self, c: &BigNat) -> (e: BigNat)
        ensures
            e@ == inverse_exponent(self@.p, c@),
    {
        proof {
            use_type_invariant(self);
        }
        let one = BigNat::from_u64(1);
        let n = self.params.p.sub(&one);
        let reduced = c.rem(&n);
        proof {
            lemma_sub_mod_noop_right(n@ as int, c@ as int, n@ as int);
        }
        n.sub(&reduced).rem(&n)
    }

    /// Whether the response `s` satisfies both of the verifier's equations,
    /// for the public keys of `user` and the commitment and challenge of
    /// `attempt`.
    pub fn check(&self, user: &User, attempt: &AuthChallenge, s: &BigNat) -> (r: bool)
        ensures
            r == accepts(
                self@.p,
                self@.g,
                self@.h,
                user.y1@,
                user.y2@,
                attempt.r1@,
                attempt.r2@,
                attempt.c@,
                s@,
            ),
    {
        proof {
            use_type_invariant(self);
        }
        let p = &self.params.p;
        let e = self.inverse_exponent(&attempt.c);
        let lhs1 = self.params.g.modpow(s, p);
        let rhs1 = attempt.r1.mul(&user.y1.modpow(&e, p)).rem(p);
        let lhs2 = self.params.h.modpow(s, p);
        let rhs2 = attempt.r2.mul(&user.y2.modpow(&e, p)).rem(p);
        lhs1.equals(&rhs1) && lhs2.equals(&rhs2)
    }

    /// A fresh challenge, drawn uniformly below `q`.
    pub fn draw_challenge(&self) -> (r: Result<BigNat, AuthError>)
        ensures
            r matches Ok(c) ==> c@ < self@.q,
            r matches Err(e) ==> e == AuthError::InternalRandomnessFailure,
    {
        proof {
            use_type_invariant(self);
        }
        random_below(&self.params.q)
    }
}

/// What the service holds: the parameters, the registered users by name, and
/// the attempts in flight by identifier.
pub struct ServiceView {
    pub params: ParamsView,
    pub users: Map<Seq<char>, UserView>,
    pub challenges: Map<Seq<char>, AuthChallengeView>,
}

impl ServiceView {
    /// The state after `name` was registered with the keys `y1`, `y2`.
    pub open spec fn with_user(self, name: Seq<char>, y1: nat, y2: nat) -> ServiceView {
        ServiceView { users: self.users.insert(name, UserView { name, y1, y2 }), ..self }
    }

    /// The state after an attempt was recorded under `id`.
    pub open spec fn with_challenge(self, id: Seq<char>, attempt: AuthChallengeView) -> ServiceView {
        ServiceView { challenges: self.challenges.insert(id, attempt), ..self }
    }

    /// The state after the attempt under `id`, if there was one, was taken out.
    pub open spec fn without_challenge(self, id: Seq<char>) -> ServiceView {
        ServiceView { challenges: self.challenges.remove(id), ..self }
    }

    /// Whether a challenge can be issued to `user` under the identifier `id`:
    /// `NotFound` where the user is not registered, and otherwise
    /// `InternalRandomnessFailure` where the identifier is already taken.
    pub open spec fn issue_outcome(self, user: Seq<char>, id: Seq<char>) -> Result<(), AuthError> {
        if !self.users.contains_key(user) {
            Err(AuthError::NotFound)
        } else if self.challenges.contains_key(id) {
            Err(AuthError::InternalRandomnessFailure)
        } else {
            Ok(())
        }
    }

    /// What the response `s` to the attempt under `id` comes to: `NotFound`
    /// where the attempt is unknown or its user is no longer registered,
    /// `InvalidProof` where one of the two equations fails, `Ok` where both
    /// hold.
    pub open spec fn verdict(self, id: Seq<char>, s: nat) -> Result<(), AuthError> {
        if !self.challenges.contains_key(id) {
            Err(AuthError::NotFound)
        } else {
            let attempt = self.challenges[id];
            if !self.users.contains_key(attempt.username) {
                Err(AuthError::NotFound)
            } else {
                let user = self.users[attempt.username];
                if accepts(
                    self.params.p,
                    self.params.g,
                    self.params.h,
                    user.y1,
                    user.y2,
                    attempt.r1,
                    attempt.r2,
                    attempt.c,
                    s,
                ) {
                    Ok(())
                } else {
                    Err(AuthError::InvalidProof)
                }
            }
        }
    }
}

/// An attempt that has been verified or rejected is gone: a second
/// verification under the same identifier finds nothing, whatever the response.
pub proof fn lemma_consumed_challenge_not_found(state: ServiceView, id: Seq<char>, s: nat)
    ensures
        state.without_challenge(id).verdict(id, s) == Err::<(), AuthError>(AuthError::NotFound),
{
}

/// A registration is seen by what follows it: once `name` is registered, a
/// challenge for `name` is never refused as not found.
pub proof fn lemma_registered_user_is_found(
    state: ServiceView,
    name: Seq<char>,
    y1: nat,
    y2: nat,
    id: Seq<char>,
)
    ensures
        state.with_user(name, y1, y2).issue_outcome(name, id) != Err::<(), AuthError>(
            AuthError::NotFound,
        ),
{
}

/// Modulo a prime `p`, an attempt that is verified is rejected as an invalid
/// proof once the first half of its commitment is changed modulo `p`, for
/// every registered key `y1` that is not a multiple of `p`. The second
/// equation may well still hold.
pub proof fn lemma_changed_commitment_is_invalid(
    state: ServiceView,
    id: Seq<char>,
    s: nat,
    changed: nat,
)
    requires
        is_prime(state.params.p),
        state.verdict(id, s) == Ok::<(), AuthError>(()),
        state.users[state.challenges[id].username].y1 % state.params.p != 0,
        changed % state.params.p != state.challenges[id].r1 % state.params.p,
    ensures
        state.with_challenge(
            id,
            AuthChallengeView { r1: changed, ..state.challenges[id] },
        ).verdict(id, s) == Err::<(), AuthError>(AuthError::InvalidProof),
{
    let attempt = state.challenges[id];
    let user = state.users[attempt.username];
    lemma_changed_commitment_is_rejected_for_prime(
        state.params.p,
        state.params.g,
        state.params.h,
        user.y1,
        user.y2,
        attempt.r1,
        attempt.r2,
        attempt.c,
        s,
        changed,
    );
}

/// The whole exchange with an honest prover ends in acceptance. In a group of
/// order `q`, let the user be registered with the keys `g^x`, `h^x`, and let
/// the attempt under `id` hold the commitment `g^k`, `h^k` and any challenge
/// `c`. Then the response `(k - c * x) mod q` is verified.
pub proof fn lemma_honest_prover_is_verified(state: ServiceView, id: Seq<char>, x: nat, k: nat)
    requires
        state.params.is_group(),
        state.challenges.contains_key(id),
        state.users.contains_key(state.challenges[id].username),
        state.users[state.challenges[id].username].y1 == mod_exp(
            state.params.g,
            x,
            state.params.p,
        ),
        state.users[state.challenges[id].username].y2 == mod_exp(
            state.params.h,
            x,
            state.params.p,
        ),
        state.challenges[id].r1 == mod_exp(state.params.g, k, state.params.p),
        state.challenges[id].r2 == mod_exp(state.params.h, k, state.params.p),
    ensures
        state.verdict(id, response(k, state.challenges[id].c, x, state.params.q)) == Ok::<
            (),
            AuthError,
        >(()),
{
    let params = state.params;
    lemma_completeness(params.p, params.q, params.g, params.h, x, k, state.challenges[id].c);
}

/// The authentication service: the verifier together with the store of users
/// and of attempts.
pub struct AuthService {
    verifier: Verifier,
    users: Table<User>,
    challenges: Table<AuthChallenge>,
}

impl View for AuthService {
    type V = ServiceView;

    closed spec fn view(&self) -> ServiceView {
        ServiceView { params: self.verifier@, users: self.users@, challenges: self.challenges@ }
    }
}

impl AuthService {
    /// A service for these parameters with nobody registered and no attempt in
    /// flight, unless `p` is below two or `q` is zero.
    pub fn new(params: Params) -> (r: Option<AuthService>)
        ensures
            r is Some <==> params@.usable(),
            r matches Some(service) ==> service@ == (ServiceView {
                params: params@,
                users: Map::empty(),
                challenges: Map::empty(),
            }),
    {
        match Verifier::new(params) {
            Some(verifier) => Some(
                AuthService { verifier, users: Table::new(), challenges: Table::new() },
            ),
            None => None,
        }
    }

    /// The parameters of the service, which are usable.
    pub fn params(&self) -> (r: &Params)
        ensures
            r@ == self@.params,
            r@.usable(),
    {
        self.verifier.params()
    }

    /// Whether `user` is registered.
    pub fn is_registered(&self, user: &str) -> (r: bool)
        ensures
            r == self@.users.contains_key(user@),
    {
        self.users.contains_key(user)
    }

    /// Whether an attempt is in flight under `auth_id`.
    pub fn is_pending(&self, auth_id: &str) -> (r: bool)
        ensures
            r == self@.challenges.contains_key(auth_id@),
    {
        self.challenges.contains_key(auth_id)
    }

    /// The number of attempts in flight.
    pub fn pending(&self) -> (r: usize)
        ensures
            r == self@.challenges.len(),
    {
        self.challenges.len()
    }

    /// Registers `user` with the public keys that the big-endian byte strings
    /// `y1` and `y2` denote. A user of that name who is registered already gets
    /// the new keys. This always succeeds, and touches nothing else.
    pub fn register(&mut self, user: String, y1: &[u8], y2: &[u8])
        ensures
            final(self)@ == old(self)@.with_user(user@, be_value(y1@), be_value(y2@)),
    {
        let name = user.clone();
        let record = User {
            name: user,
            y1: BigNat::from_bytes_be(y1),
            y2: BigNat::from_bytes_be(y2),
        };
        self.users.insert(name, record);
    }

    /// Records an attempt of `user` with the commitment `(r1, r2)` and the
    /// challenge `c` under the identifier `id`. Fails with `NotFound` where
    /// the user is not registered, and otherwise with
    /// `InternalRandomnessFailure` where the identifier is already in use; a
    /// failure leaves everything as it was.
    pub fn issue_challenge(
        &mut self,
        user: &str,
        r1: BigNat,
        r2: BigNat,
        c: BigNat,
        id: String,
    ) -> (r: Result<(), AuthError>)
        ensures
            r == old(self)@.issue_outcome(user@, id@),
            r is Err ==> final(self)@ == old(self)@,
            r is Ok ==> final(self)@ == old(self)@.with_challenge(
                id@,
                AuthChallengeView { username: user@, r1: r1@, r2: r2@, c: c@ },
            ),
    {
        if !self.users.contains_key(user) {
            return Err(AuthError::NotFound);
        }
        if self.challenges.contains_key(id.as_str()) {
            return Err(AuthError::InternalRandomnessFailure);
        }
        let attempt = AuthChallenge { username: user.to_owned(), r1, r2, c };
        self.challenges.insert(id, attempt);
        Ok(())
    }

    /// Opens an attempt for `user` with the commitment that the byte strings
    /// `r1`, `r2` denote: draws a challenge `c` below `q` and a fresh
    /// identifier, records the attempt and returns the identifier with the
    /// minimal bytes of `c`.
    ///
    /// Fails with `NotFound` exactly where the user is not registered. For a
    /// registered user the call fails only with `InternalRandomnessFailure`,
    /// where the random source does not answer or hands out an identifier that
    /// is in use. A failure records nothing.
    pub fn create_authentication_challenge(&mut self, user: &str, r1: &[u8], r2: &[u8]) -> (r:
        Result<(String, Vec<u8>), AuthError>)
        ensures
            r is Err ==> final(self)@ == old(self)@,
            r matches Err(e) ==> (e == AuthError::NotFound <==> !old(self)@.users.contains_key(
                user@,
            )) && (e == AuthError::NotFound || e == AuthError::InternalRandomnessFailure),
            r matches Ok(issued) ==> {
                &&& old(self)@.users.contains_key(user@)
                &&& !old(self)@.challenges.contains_key(issued.0@)
                &&& issued.0@.len() == 36
                &&& be_value(issued.1@) < old(self)@.params.q
                &&& issued.1@ == be_bytes(be_value(issued.1@))
                &&& final(self)@ == old(self)@.with_challenge(
                    issued.0@,
                    AuthChallengeView {
                        username: user@,
                        r1: be_value(r1@),
                        r2: be_value(r2@),
                        c: be_value(issued.1@),
                    },
                )
            },
    {
        if !self.users.contains_key(user) {
            return Err(AuthError::NotFound);
        }
        let c = match self.verifier.draw_challenge() {
            Ok(c) => c,
            Err(e) => {
                return Err(e);
            },
        };
        let id = match fresh_identifier() {
            Ok(id) => id,
            Err(e) => {
                return Err(e);
            },
        };
        let c_bytes = c.to_bytes_be();
        let auth_id = id.clone();
        match self.issue_challenge(user, BigNat::from_bytes_be(r1), BigNat::from_bytes_be(r2), c, id) {
            Ok(()) => Ok((auth_id, c_bytes)),
            Err(e) => Err(e),
        }
    }

    /// What the response `s` to the attempt under `auth_id` comes to, with
    /// nothing changed.
    pub fn check_response(&self, auth_id: &str, s: &BigNat) -> (r: Result<(), AuthError>)
        ensures
            r == self@.verdict(auth_id@, s@),
    {
        match self.challenges.get(auth_id) {
            None => Err(AuthError::NotFound),
            Some(attempt) => match self.users.get(attempt.username.as_str()) {
                None => Err(AuthError::NotFound),
                Some(user) => {
                    if self.verifier.check(user, attempt, s) {
                        Ok(())
                    } else {
                        Err(AuthError::InvalidProof)
                    }
                },
            },
        }
    }

    /// Verifies the response that the byte string `s` denotes against the
    /// attempt under `auth_id`, and mints a session identifier where it holds.
    ///
    /// The outcome is that of `verdict`: `NotFound` for an unknown attempt (or
    /// one whose user is gone), `InvalidProof` where an equation fails. In each
    /// of these cases, and on success, the attempt is over and its record is
    /// taken out. Where the response holds but the random source cannot mint a
    /// session, the call fails with `InternalRandomnessFailure`, no session
    /// exists and the attempt stays as it was: `settle` says what each outcome
    /// of the mint comes to.
    pub fn verify_authentication(&mut self, auth_id: &str, s: &[u8]) -> (r: Result<
        String,
        AuthError,
    >)
        ensures
            match r {
                Ok(session) => {
                    &&& old(self)@.verdict(auth_id@, be_value(s@)) == Ok::<(), AuthError>(())
                    &&& session@.len() == 36
                    &&& final(self)@ == old(self)@.without_challenge(auth_id@)
                },
                Err(AuthError::InternalRandomnessFailure) => {
                    &&& old(self)@.verdict(auth_id@, be_value(s@)) == Ok::<(), AuthError>(())
                    &&& final(self)@ == old(self)@
                },
                Err(e) => {
                    &&& old(self)@.verdict(auth_id@, be_value(s@)) == Err::<(), AuthError>(e)
                    &&& final(self)@ == old(self)@.without_challenge(auth_id@)
                },
            },
    {
        let s = BigNat::from_bytes_be(s);
        match self.check_response(auth_id, &s) {
            Ok(()) => self.settle(auth_id, fresh_identifier()),
            Err(e) => {
                let _ = self.challenges.remove(auth_id);
                Err(e)
            },
        }
    }

    /// Ends an attempt whose response was found to hold, given what the mint
    /// of the session came to. With a session minted, the record of the
    /// attempt is taken out and the session is handed on. With the mint
    /// failed, the failure is handed on and the attempt stays as it was.
    pub fn settle(&mut self, auth_id: &str, minted: Result<String, AuthError>) -> (r: Result<
        String,
        AuthError,
    >)
        ensures
            match minted {
                Ok(session) => r == Ok::<String, AuthError>(session) && final(self)@ == old(
                    self,
                )@.without_challenge(auth_id@),
                Err(e) => r == Err::<String, AuthError>(e) && final(self)@ == old(self)@,
            },
    {
        match minted {
            Ok(session) => {
                let _ = self.challenges.remove(auth_id);
                Ok(session)
            },
            Err(e) => Err(e),
        }
    }

    /// The service holds finitely many users and finitely many attempts, so
    /// that their numbers can be compared from one call to the next.
    pub proof fn lemma_stores_are_finite(&self)
        ensures
            self@.users.dom().finite(),
            self@.challenges.dom().finite(),
    {
        self.users.lemma_is_finite();
        self.challenges.lemma_is_finite();
    }
}

} // verus!
