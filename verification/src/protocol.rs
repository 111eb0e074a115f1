//! The Chaum–Pedersen exchange as mathematics: what the prover answers, what
//! the verifier accepts, and why an honest prover is never turned away.

use crate::group::{
    is_group, lemma_mod_exp_adds, lemma_mod_exp_congruent, lemma_mod_exp_multiplies, mod_exp,
    moduli_usable,
};
use vstd::arithmetic::div_mod::*;
use vstd::prelude::*;

verus! {

/// The prover's answer `s = (k - c * x) mod q`, as the true residue in
/// `[0, q)` also where `c * x` exceeds `k`.
pub open spec fn response(k: nat, c: nat, x: nat, q: nat) -> nat {
    ((k - c * x) % (q as int)) as nat
}

/// The exponent `(p - 1 - c) mod (p - 1)` by which the verifier raises a public
/// key to undo the challenge.
pub open spec fn inverse_exponent(p: nat, c: nat) -> nat {
    ((p - 1 - c) % (p - 1)) as nat
}

/// The verifier's equation for one generator:
/// `base^s mod p == (r * y^((p-1-c) mod (p-1))) mod p`.
pub open spec fn branch_accepts(p: nat, base: nat, y: nat, r: nat, c: nat, s: nat) -> bool {
    mod_exp(base, s, p) == (r * mod_exp(y, inverse_exponent(p, c), p)) % p
}

/// The textbook form of the same equation: `base^s * y^c ≡ r (mod p)`.
pub open spec fn textbook_branch(p: nat, base: nat, y: nat, r: nat, c: nat, s: nat) -> bool {
    (mod_exp(base, s, p) * mod_exp(y, c, p)) % p == r % p
}

/// The verifier accepts when the equation holds for both generators.
pub open spec fn accepts(
    p: nat,
    g: nat,
    h: nat,
    y1: nat,
    y2: nat,
    r1: nat,
    r2: nat,
    c: nat,
    s: nat,
) -> bool {
    branch_accepts(p, g, y1, r1, c, s) && branch_accepts(p, h, y2, r2, c, s)
}

/// The answer is a residue modulo `q`, and adding `c * x` back gives the nonce
/// again modulo `q`: exactly the nonce where that was drawn below `q`.
pub proof fn lemma_response_recovers_nonce(k: nat, c: nat, x: nat, q: nat)
    requires
        q > 0,
    ensures
        response(k, c, x, q) < q,
        (response(k, c, x, q) + c * x) % q == k % q,
        k < q ==> (response(k, c, x, q) + c * x) % q == k,
{
    let d = k - c * x;
    let m = q as int;
    lemma_mod_bound(d, m);
    lemma_add_mod_noop(d, (c * x) as int, m);
    lemma_mod_twice(d, m);
    lemma_add_mod_noop(d % m, (c * x) as int, m);
    assert(d + c * x == k);
    if k < q {
        lemma_small_mod(k, q);
    }
}

/// The answer is zero, and not `q`, exactly where `k` and `c * x` agree
/// modulo `q`.
pub proof fn lemma_response_zero(k: nat, c: nat, x: nat, q: nat)
    requires
        q > 0,
    ensures
        response(k, c, x, q) == 0 <==> k % q == (c * x) % q,
{
    lemma_mod_equivalence(k as int, (c * x) as int, q as int);
    lemma_mod_bound(k - c * x, q as int);
}

/// The inverse exponent cancels the challenge modulo `p - 1`, and so modulo
/// every `q` that divides `p - 1`.
pub proof fn lemma_inverse_exponent_cancels(p: nat, q: nat, c: nat)
    requires
        moduli_usable(p, q),
        (p - 1) % (q as int) == 0,
    ensures
        inverse_exponent(p, c) < p - 1,
        ((inverse_exponent(p, c) + c) as int) % (p - 1) == 0,
        (inverse_exponent(p, c) + c) % q == 0,
{
    let n = p - 1;
    let e = inverse_exponent(p, c);
    lemma_mod_bound(n - c, n);
    // e + c is a multiple of p - 1
    lemma_mod_equivalence(n - c, e as int, n);
    lemma_small_mod(e, n as nat);
    assert((n - c - e) % n == 0);
    lemma_mod_equivalence(n, (e + c) as int, n);
    lemma_mod_self_0(n);
    assert(((e + c) as int) % n == 0);
    // and p - 1 is a multiple of q
    let b = n / (q as int);
    lemma_fundamental_div_mod(n, q as int);
    lemma_div_pos_is_pos(n, q as int);
    assert(n == q * b);
    assert(b > 0) by (nonlinear_arith)
        requires
            n == q * b,
            n > 0,
            q > 0,
    ;
    lemma_mod_mod((e + c) as int, q as int, b);
}

/// One half of completeness: with a public key `g^x` and a commitment `g^k`,
/// the honest answer satisfies the verifier's equation for `g`, whatever the
/// challenge.
pub proof fn lemma_honest_branch_accepts(p: nat, q: nat, g: nat, x: nat, k: nat, c: nat)
    requires
        moduli_usable(p, q),
        (p - 1) % (q as int) == 0,
        mod_exp(g, q, p) == 1,
    ensures
        branch_accepts(p, g, mod_exp(g, x, p), mod_exp(g, k, p), c, response(k, c, x, q)),
{
    let e = inverse_exponent(p, c);
    let s = response(k, c, x, q);
    let m = q as int;
    lemma_inverse_exponent_cancels(p, q, c);
    // right-hand side: g^k * (g^x)^e == g^(k + x e)
    lemma_mod_exp_multiplies(g, x, e, p);
    lemma_mod_exp_adds(g, k, x * e, p);
    // k + x e and k - c x differ by x (e + c), a multiple of q
    lemma_mul_mod_noop_right(x as int, (e + c) as int, m);
    assert(x * 0 == 0);
    assert((x * (e + c)) % q == 0);
    assert((k + x * e) - (k - c * x) == x * (e + c)) by (nonlinear_arith);
    lemma_mod_equivalence((k + x * e) as int, k - c * x, m);
    lemma_mod_bound(k - c * x, m);
    lemma_small_mod(s, q);
    assert(s % q == (k + x * e) % q);
    lemma_mod_exp_congruent(g, q, p, s, k + x * e);
}

/// Completeness: in a group of order `q`, for every secret, nonce and
/// challenge, the honest prover's answer is accepted. The public keys are
/// `g^x` and `h^x`, the commitment is `g^k` and `h^k`, the answer is
/// `(k - c * x) mod q`.
pub proof fn lemma_completeness(p: nat, q: nat, g: nat, h: nat, x: nat, k: nat, c: nat)
    requires
        is_group(p, q, g, h),
    ensures
        accepts(
            p,
            g,
            h,
            mod_exp(g, x, p),
            mod_exp(h, x, p),
            mod_exp(g, k, p),
            mod_exp(h, k, p),
            c,
            response(k, c, x, q),
        ),
{
    lemma_honest_branch_accepts(p, q, g, x, k, c);
    lemma_honest_branch_accepts(p, q, h, x, k, c);
}

} // verus!
