//! The prover: the commitment that opens an attempt, and the response to the
//! verifier's challenge.

use crate::bignat::BigNat;
use crate::entropy::random_below;
use crate::error::AuthError;
use crate::group::mod_exp;
pub use crate::models::Params;
use crate::protocol::response;
use vstd::arithmetic::div_mod::{
    lemma_fundamental_div_mod, lemma_fundamental_div_mod_converse_mod, lemma_mod_bound,
};
use vstd::prelude::*;

verus! {

/// What `commitment_with_nonce` returns for a secret `x` and a nonce `k`: the
/// public keys `g^x`, `h^x` and the commitment `g^k`, `h^k`, all modulo `p`.
pub open spec fn commitment_of(
    out: (BigNat, BigNat, BigNat, BigNat),
    params: &Params,
    x: nat,
    k: nat,
) -> bool {
    &&& out.0@ == mod_exp(params.g@, x, params.p@)
    &&& out.1@ == mod_exp(params.h@, x, params.p@)
    &&& out.2@ == mod_exp(params.g@, k, params.p@)
    &&& out.3@ == mod_exp(params.h@, k, params.p@)
}

/// The public keys `(y1, y2)` of the secret `x` and the commitment `(r1, r2)`
/// to the nonce `k`, in the order `(y1, y2, r1, r2)`.
pub fn commitment_with_nonce(params: &Params, x: &BigNat, k: &BigNat) -> (out: (
    BigNat,
    BigNat,
    BigNat,
    BigNat,
))
    requires
        params.p@ != 0,
    ensures
        commitment_of(out, params, x@, k@),
{
    let y1 = params.g.modpow(x, &params.p);
    let y2 = params.h.modpow(x, &params.p);
    let r1 = params.g.modpow(k, &params.p);
    let r2 = params.h.modpow(k, &params.p);
    (y1, y2, r1, r2)
}

/// Draws a fresh nonce `k` below `q` and returns `((y1, y2, r1, r2), k)` for
/// it. The nonce is handed back for the response and must go nowhere else.
/// Fails, with nothing computed, only where the random source does.
pub fn commitment(params: &Params, x: &BigNat) -> (r: Result<
    ((BigNat, BigNat, BigNat, BigNat), BigNat),
    AuthError,
>)
    requires
        params.p@ != 0,
        params.q@ != 0,
    ensures
        r matches Ok(pair) ==> pair.1@ < params.q@ && commitment_of(pair.0, params, x@, pair.1@),
        r matches Err(e) ==> e == AuthError::InternalRandomnessFailure,
{
    match random_below(&params.q) {
        Ok(k) => {
            let out = commitment_with_nonce(params, x, &k);
            Ok((out, k))
        },
        Err(e) => Err(e),
    }
}

/// The response `s = (k - c * x) mod q` to the challenge `c`, for the nonce `k`
/// of the commitment and the secret `x`. It is the true residue: where `c * x`
/// exceeds `k` the difference is taken the other way round and subtracted from
/// `q`, and a remainder of zero there gives `s = 0`, not `s = q`.
pub fn challenge_response(params: &Params, k: &BigNat, c: &BigNat, x: &BigNat) -> (s: BigNat)
    requires
        params.q@ != 0,
    ensures
        s@ == response(k@, c@, x@, params.q@),
        s@ < params.q@,
{
    let q = &params.q;
    let cx = c.mul(x);
    proof {
        lemma_mod_bound(k@ - c@ * x@, q@ as int);
    }
    if k.ge(&cx) {
        k.sub(&cx).rem(q)
    } else {
        let over = cx.sub(k).rem(q);
        proof {
            // k - c x == -(c x - k), and c x - k == q * t + over
            let d = (c@ * x@ - k@) as int;
            let m = q@ as int;
            let t = d / m;
            lemma_fundamental_div_mod(d, m);
            if over@ == 0 {
                assert(k@ - c@ * x@ == m * (-t) + 0) by (nonlinear_arith)
                    requires
                        d == m * t + 0,
                        d == c@ * x@ - k@,
                ;
                lemma_fundamental_div_mod_converse_mod(k@ - c@ * x@, m, -t, 0);
            } else {
                assert(k@ - c@ * x@ == m * (-t - 1) + (m - over@)) by (nonlinear_arith)
                    requires
                        d == m * t + over@,
                        d == c@ * x@ - k@,
                ;
                lemma_fundamental_div_mod_converse_mod(k@ - c@ * x@, m, -t - 1, m - over@);
            }
        }
        if over.is_zero() {
            over
        } else {
            q.sub(&over)
        }
    }
}

} // verus!
