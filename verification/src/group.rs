//! Modular exponentiation and the subgroup it is done in.
//!
//! Group elements are residues modulo `p`; exponents are taken modulo the
//! order `q` of the subgroup that the two generators span.

use vstd::arithmetic::div_mod::*;
use vstd::arithmetic::power::*;
use vstd::prelude::*;

verus! {

/// `base ^ exponent mod modulus`, for a modulus that is not zero.
pub open spec fn mod_exp(base: nat, exponent: nat, modulus: nat) -> nat {
    (pow(base as int, exponent) % (modulus as int)) as nat
}

/// The least that any operation needs of the parameters: a modulus of at
/// least two and an order that is not zero.
pub open spec fn moduli_usable(p: nat, q: nat) -> bool {
    p >= 2 && q >= 1
}

/// `(p, q, g, h)` describes a subgroup of order dividing `q` in the residues
/// modulo `p`: `q` divides `p - 1`, and both generators raised to `q` give one.
pub open spec fn is_group(p: nat, q: nat, g: nat, h: nat) -> bool {
    &&& moduli_usable(p, q)
    &&& (p - 1) % (q as int) == 0
    &&& mod_exp(g, q, p) == 1
    &&& mod_exp(h, q, p) == 1
}

/// `g` has order exactly `q` modulo `p`: `q` is the least positive exponent
/// that takes it to one.
pub open spec fn has_order(g: nat, q: nat, p: nat) -> bool {
    &&& q >= 1
    &&& mod_exp(g, q, p) == 1
    &&& forall|d: nat| 0 < d < q ==> #[trigger] mod_exp(g, d, p) != 1
}

/// A modular power is a residue.
pub proof fn lemma_mod_exp_bound(base: nat, exponent: nat, modulus: nat)
    requires
        modulus > 0,
    ensures
        mod_exp(base, exponent, modulus) < modulus,
        mod_exp(base, exponent, modulus) == pow(base as int, exponent) % (modulus as int),
{
    lemma_mod_bound(pow(base as int, exponent), modulus as int);
}

/// Anything to the power zero is one, reduced.
pub proof fn lemma_mod_exp_zero(base: nat, modulus: nat)
    requires
        modulus >= 2,
    ensures
        mod_exp(base, 0, modulus) == 1,
{
    lemma_pow0(base as int);
    lemma_small_mod(1, modulus);
}

/// Multiplying two powers of one base adds the exponents.
pub proof fn lemma_mod_exp_adds(base: nat, e1: nat, e2: nat, modulus: nat)
    requires
        modulus > 0,
    ensures
        (mod_exp(base, e1, modulus) * mod_exp(base, e2, modulus)) % modulus == mod_exp(
            base,
            e1 + e2,
            modulus,
        ),
{
    let m = modulus as int;
    lemma_mod_exp_bound(base, e1, modulus);
    lemma_mod_exp_bound(base, e2, modulus);
    lemma_mod_exp_bound(base, e1 + e2, modulus);
    lemma_pow_adds(base as int, e1, e2);
    lemma_mul_mod_noop(pow(base as int, e1), pow(base as int, e2), m);
}

/// Raising a power to a power multiplies the exponents.
pub proof fn lemma_mod_exp_multiplies(base: nat, e1: nat, e2: nat, modulus: nat)
    requires
        modulus > 0,
    ensures
        mod_exp(mod_exp(base, e1, modulus), e2, modulus) == mod_exp(base, e1 * e2, modulus),
{
    let m = modulus as int;
    lemma_mod_exp_bound(base, e1, modulus);
    lemma_pow_mod_noop(pow(base as int, e1), e2, m);
    lemma_pow_multiplies(base as int, e1, e2);
}

/// Where `g ^ q` is one, whole multiples of `q` in the exponent fall away.
pub proof fn lemma_mod_exp_multiple_of_order(g: nat, q: nat, p: nat, a: nat, t: nat)
    requires
        p > 0,
        mod_exp(g, q, p) == 1,
    ensures
        mod_exp(g, a + q * t, p) == mod_exp(g, a, p),
{
    let m = p as int;
    lemma_mod_exp_bound(g, q, p);
    lemma_mod_exp_bound(g, a, p);
    // (g^q)^t is one modulo p
    lemma_mod_exp_multiplies(g, q, t, p);
    assert(mod_exp(1, t, p) == mod_exp(g, q * t, p));
    lemma1_pow(t);
    assert(mod_exp(g, q * t, p) == 1int % m);
    // g^(a + q t) = g^a * g^(q t)
    lemma_mod_exp_adds(g, a, q * t, p);
    assert((mod_exp(g, a, p) * (1int % m)) % m == mod_exp(g, a + q * t, p));
    lemma_mul_mod_noop_right(mod_exp(g, a, p) as int, 1, m);
    assert(mod_exp(g, a, p) * 1 == mod_exp(g, a, p)) by (nonlinear_arith);
    lemma_small_mod(mod_exp(g, a, p), p);
}

/// Where `g ^ q` is one, the power depends on the exponent modulo `q` only.
pub proof fn lemma_mod_exp_congruent(g: nat, q: nat, p: nat, a: nat, b: nat)
    requires
        p > 0,
        q > 0,
        mod_exp(g, q, p) == 1,
        a % q == b % q,
    ensures
        mod_exp(g, a, p) == mod_exp(g, b, p),
{
    let r = a % q;
    lemma_fundamental_div_mod(a as int, q as int);
    lemma_fundamental_div_mod(b as int, q as int);
    lemma_div_pos_is_pos(a as int, q as int);
    lemma_div_pos_is_pos(b as int, q as int);
    lemma_mod_exp_multiple_of_order(g, q, p, r, a / q);
    lemma_mod_exp_multiple_of_order(g, q, p, r, b / q);
    assert(a == r + q * (a / q));
    assert(b == r + q * (b / q));
}

/// Where `g` has order exactly `q`, two powers agree only if the exponents
/// agree modulo `q`.
pub proof fn lemma_mod_exp_injective(g: nat, q: nat, p: nat, a: nat, b: nat)
    requires
        p >= 2,
        has_order(g, q, p),
        mod_exp(g, a, p) == mod_exp(g, b, p),
    ensures
        a % q == b % q,
{
    let ra = a % q;
    let rb = b % q;
    lemma_mod_bound(a as int, q as int);
    lemma_mod_bound(b as int, q as int);
    lemma_mod_twice(a as int, q as int);
    lemma_mod_twice(b as int, q as int);
    lemma_mod_exp_congruent(g, q, p, a, ra);
    lemma_mod_exp_congruent(g, q, p, b, rb);
    if ra < rb {
        lemma_mod_exp_gap(g, q, p, ra, rb);
        assert(0 < (rb - ra) as nat && ((rb - ra) as nat) < q);
    } else if rb < ra {
        lemma_mod_exp_gap(g, q, p, rb, ra);
        assert(0 < (ra - rb) as nat && ((ra - rb) as nat) < q);
    }
}

/// Two equal powers with exponents up to `q`, where `g ^ q` is one: the gap
/// between the exponents takes `g` to one as well.
pub proof fn lemma_mod_exp_gap(g: nat, q: nat, p: nat, lo: nat, hi: nat)
    requires
        p >= 2,
        mod_exp(g, q, p) == 1,
        lo <= hi <= q,
        mod_exp(g, lo, p) == mod_exp(g, hi, p),
    ensures
        mod_exp(g, (hi - lo) as nat, p) == 1,
{
    let d = (hi - lo) as nat;
    let back = (q - hi) as nat;
    // shift both sides by `back`: g^(lo + back) == g^(hi + back) == g^q == 1
    lemma_mod_exp_adds(g, lo, back, p);
    lemma_mod_exp_adds(g, hi, back, p);
    assert(hi + back == q);
    assert(mod_exp(g, lo + back, p) == 1);
    // and lo + back + d == q
    lemma_mod_exp_adds(g, lo + back, d, p);
    assert(lo + back + d == q);
    assert((1 * mod_exp(g, d, p)) % p == 1);
    lemma_mod_exp_bound(g, d, p);
    assert(1 * mod_exp(g, d, p) == mod_exp(g, d, p)) by (nonlinear_arith);
    lemma_small_mod(mod_exp(g, d, p), p);
}

} // verus!
