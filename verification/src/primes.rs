//! Prime moduli: a product is a multiple of a prime only if a factor is, so
//! that whatever is not a multiple of the prime can be cancelled.

use crate::group::{lemma_mod_exp_bound, mod_exp};
use vstd::arithmetic::div_mod::*;
use vstd::arithmetic::mul::*;
use vstd::arithmetic::power::{lemma_pow0, lemma_pow1, lemma_pow_adds, lemma_pow_positive, pow};
use vstd::prelude::*;

verus! {

/// `d` divides `n`.
pub open spec fn divides(d: nat, n: nat) -> bool {
    n % d == 0
}

/// `p` is a prime: at least two, and divided by nothing between one and
/// itself.
pub open spec fn is_prime(p: nat) -> bool {
    p >= 2 && forall|d: nat| 1 < d < p ==> !#[trigger] divides(d, p)
}

/// Euclid's lemma for a factor below the prime: where `p` divides `a * b` and
/// `0 < a < p`, it divides `b`.
pub proof fn lemma_prime_divides_other_factor(p: nat, a: nat, b: nat)
    requires
        is_prime(p),
        0 < a < p,
        (a * b) % p == 0,
    ensures
        b % p == 0,
    decreases a,
{
    if a == 1 {
        assert(a * b == b) by (nonlinear_arith)
            requires
                a == 1,
        ;
    } else {
        // p = a t + r with 0 < r < a, and p divides r b as well
        let t = p / a;
        let r = p % a;
        lemma_fundamental_div_mod(p as int, a as int);
        lemma_mod_bound(p as int, a as int);
        assert(!divides(a, p));
        assert(0 < r < a);
        let m = p as int;
        assert(r * b == p * b - t * (a * b)) by (nonlinear_arith)
            requires
                p == a * t + r,
        ;
        lemma_mod_multiples_basic(b as int, m);
        lemma_mul_is_commutative(p as int, b as int);
        lemma_mul_mod_noop_right(t as int, (a * b) as int, m);
        assert(t * 0 == 0);
        assert((t * (a * b)) % p == 0);
        lemma_sub_mod_noop((p * b) as int, (t * (a * b)) as int, m);
        lemma_small_mod(0, p);
        assert((r * b) % p == 0);
        lemma_prime_divides_other_factor(p, r, b);
    }
}

/// Modulo a prime, the product of two numbers that are not multiples of it is
/// not a multiple of it.
pub proof fn lemma_prime_has_no_zero_divisors(p: nat, a: nat, b: nat)
    requires
        is_prime(p),
        a % p != 0,
        b % p != 0,
    ensures
        (a * b) % p != 0,
{
    let reduced = a % p;
    lemma_mod_bound(a as int, p as int);
    lemma_mul_mod_noop_left(a as int, b as int, p as int);
    if (a * b) % p == 0 {
        lemma_prime_divides_other_factor(p, reduced, b);
    }
}

/// Modulo a prime, no power of a number that is not a multiple of it is zero.
pub proof fn lemma_power_is_not_multiple(p: nat, y: nat, e: nat)
    requires
        is_prime(p),
        y % p != 0,
    ensures
        mod_exp(y, e, p) != 0,
    decreases e,
{
    lemma_mod_exp_bound(y, e, p);
    if e == 0 {
        lemma_pow0(y as int);
        lemma_small_mod(1, p);
    } else {
        let rest = (e - 1) as nat;
        lemma_power_is_not_multiple(p, y, rest);
        lemma_mod_exp_bound(y, rest, p);
        assert(y > 0) by {
            if y == 0 {
                lemma_small_mod(0, p);
            }
        }
        lemma_pow_positive(y as int, rest);
        lemma_pow_adds(y as int, 1, rest);
        lemma_pow1(y as int);
        let tail = pow(y as int, rest) as nat;
        assert(pow(y as int, e) == y * tail);
        lemma_prime_has_no_zero_divisors(p, y, tail);
    }
}

/// Modulo a prime, a factor that is not a multiple of it can be cancelled.
pub proof fn lemma_prime_cancels(p: nat, y: nat, a: nat, b: nat)
    requires
        is_prime(p),
        y % p != 0,
        (a * y) % p == (b * y) % p,
    ensures
        a % p == b % p,
    decreases
            (if a >= b {
                0nat
            } else {
                1nat
            }),
{
    if a >= b {
        let d = (a - b) as nat;
        let m = p as int;
        lemma_mod_equivalence((a * y) as int, (b * y) as int, m);
        assert(a * y - b * y == d * y) by (nonlinear_arith)
            requires
                d == a - b,
        ;
        assert((d * y) % p == 0);
        if d % p != 0 {
            lemma_prime_has_no_zero_divisors(p, d, y);
        }
        lemma_mod_equivalence(a as int, b as int, m);
    } else {
        lemma_prime_cancels(p, y, b, a);
    }
}

} // verus!
