//! What an accepted exchange pins down.
//!
//! The verifier's equation is the textbook one in another dress, and once the
//! public keys and three of the four values `r1`, `r2`, `c`, `s` are fixed, the
//! fourth is fixed too: the commitment modulo `p`, the challenge and the
//! response modulo `q`. A value that differs from an accepted one in a single
//! bit is therefore turned away, as long as the moduli are odd.

use crate::group::{
    has_order, is_group, lemma_mod_exp_adds, lemma_mod_exp_bound, lemma_mod_exp_congruent,
    lemma_mod_exp_injective, lemma_mod_exp_zero, mod_exp, moduli_usable,
};
use crate::primes::{is_prime, lemma_power_is_not_multiple, lemma_prime_cancels};
use crate::protocol::{
    accepts, branch_accepts, inverse_exponent, lemma_honest_branch_accepts,
    lemma_inverse_exponent_cancels, response, textbook_branch,
};
use vstd::arithmetic::div_mod::*;
use vstd::arithmetic::mul::*;
use vstd::arithmetic::power2::{lemma2_to64, lemma_pow2_pos, lemma_pow2_unfold, pow2};
use vstd::prelude::*;

verus! {

/// The two numbers differ by a power of two.
pub open spec fn differ_by_power_of_two(a: nat, b: nat) -> bool {
    exists|j: nat| a == b + #[trigger] pow2(j) || b == a + pow2(j)
}

/// The number `a` with bit `j` of its binary form flipped: `2^j` more where
/// the bit was clear, `2^j` less where it was set.
pub open spec fn flip_bit(a: nat, j: nat) -> nat {
    if (a / pow2(j)) % 2 == 0 {
        a + pow2(j)
    } else {
        (a - pow2(j)) as nat
    }
}

/// Flipping one bit moves a number by a power of two.
pub proof fn lemma_flip_bit_moves_by_power_of_two(a: nat, j: nat)
    ensures
        differ_by_power_of_two(a, flip_bit(a, j)),
        flip_bit(a, j) != a,
{
    lemma_pow2_pos(j);
    if (a / pow2(j)) % 2 != 0 {
        // the bit is set, so the number is at least 2^j
        lemma_fundamental_div_mod(a as int, pow2(j) as int);
        lemma_mod_bound(a as int, pow2(j) as int);
        assert(a >= pow2(j)) by (nonlinear_arith)
            requires
                a == pow2(j) * (a / pow2(j)) + a % pow2(j),
                a / pow2(j) >= 1,
                a % pow2(j) >= 0,
        ;
        assert(a == flip_bit(a, j) + pow2(j));
    } else {
        assert(flip_bit(a, j) == a + pow2(j));
    }
}

/// Where `y * z` is one modulo `m`, multiplying by `y` and then by `z` gives
/// the number back.
pub proof fn lemma_cancel(a: nat, y: nat, z: nat, m: nat)
    requires
        m > 0,
        (y * z) % m == 1,
    ensures
        (((a * y) % m) * z) % m == a % m,
{
    let mi = m as int;
    lemma_mul_mod_noop_left((a * y) as int, z as int, mi);
    lemma_mul_is_associative(a as int, y as int, z as int);
    lemma_mul_mod_noop_right(a as int, (y * z) as int, mi);
    assert(a * 1 == a) by (nonlinear_arith);
}

/// A key `y` with `y^q = 1` raised to the inverse exponent is the inverse of
/// `y^c`.
pub proof fn lemma_inverse_pair(p: nat, q: nat, y: nat, c: nat)
    requires
        moduli_usable(p, q),
        (p - 1) % (q as int) == 0,
        mod_exp(y, q, p) == 1,
    ensures
        (mod_exp(y, inverse_exponent(p, c), p) * mod_exp(y, c, p)) % p == 1,
        (mod_exp(y, c, p) * mod_exp(y, inverse_exponent(p, c), p)) % p == 1,
{
    let e = inverse_exponent(p, c);
    lemma_inverse_exponent_cancels(p, q, c);
    lemma_mod_exp_adds(y, e, c, p);
    lemma_small_mod(0, q);
    lemma_mod_exp_congruent(y, q, p, e + c, 0);
    lemma_mod_exp_zero(y, p);
    lemma_mul_is_commutative(mod_exp(y, e, p) as int, mod_exp(y, c, p) as int);
}

/// The verifier's equation holds exactly where the textbook equation
/// `base^s * y^c ≡ r (mod p)` does, for every key `y` with `y^q = 1`.
pub proof fn lemma_check_is_textbook(
    p: nat,
    q: nat,
    base: nat,
    y: nat,
    r: nat,
    c: nat,
    s: nat,
)
    requires
        moduli_usable(p, q),
        (p - 1) % (q as int) == 0,
        mod_exp(y, q, p) == 1,
    ensures
        branch_accepts(p, base, y, r, c, s) <==> textbook_branch(p, base, y, r, c, s),
{
    let big_y = mod_exp(y, inverse_exponent(p, c), p);
    let big_z = mod_exp(y, c, p);
    let big_g = mod_exp(base, s, p);
    lemma_inverse_pair(p, q, y, c);
    lemma_mod_exp_bound(base, s, p);
    if branch_accepts(p, base, y, r, c, s) {
        lemma_cancel(r, big_y, big_z, p);
    }
    if textbook_branch(p, base, y, r, c, s) {
        lemma_cancel(big_g, big_z, big_y, p);
        lemma_small_mod(big_g, p);
        lemma_mul_mod_noop_left(r as int, big_y as int, p as int);
    }
}

/// An accepted commitment is the only one modulo `p`: with keys, challenge and
/// response fixed, two commitments that both satisfy the equation agree
/// modulo `p`.
pub proof fn lemma_commitment_is_determined(
    p: nat,
    q: nat,
    base: nat,
    y: nat,
    c: nat,
    s: nat,
    r: nat,
    other: nat,
)
    requires
        moduli_usable(p, q),
        (p - 1) % (q as int) == 0,
        mod_exp(y, q, p) == 1,
        branch_accepts(p, base, y, r, c, s),
        branch_accepts(p, base, y, other, c, s),
    ensures
        r % p == other % p,
{
    lemma_check_is_textbook(p, q, base, y, r, c, s);
    lemma_check_is_textbook(p, q, base, y, other, c, s);
}

/// An accepted response is the only one modulo `q`, where the generator has
/// order exactly `q`.
pub proof fn lemma_response_is_determined(
    p: nat,
    q: nat,
    base: nat,
    y: nat,
    r: nat,
    c: nat,
    s: nat,
    other: nat,
)
    requires
        p >= 2,
        has_order(base, q, p),
        branch_accepts(p, base, y, r, c, s),
        branch_accepts(p, base, y, r, c, other),
    ensures
        s % q == other % q,
{
    lemma_mod_exp_injective(base, q, p, s, other);
}

/// An accepted challenge is the only one modulo `q`, where the generator
/// satisfies `base^q = 1` and the public key has order exactly `q`.
pub proof fn lemma_challenge_is_determined(
    p: nat,
    q: nat,
    base: nat,
    y: nat,
    r: nat,
    s: nat,
    c: nat,
    other: nat,
)
    requires
        moduli_usable(p, q),
        (p - 1) % (q as int) == 0,
        mod_exp(base, q, p) == 1,
        has_order(y, q, p),
        branch_accepts(p, base, y, r, c, s),
        branch_accepts(p, base, y, r, other, s),
    ensures
        c % q == other % q,
{
    let big_g = mod_exp(base, s, p);
    let z1 = mod_exp(y, c, p);
    let z2 = mod_exp(y, other, p);
    lemma_check_is_textbook(p, q, base, y, r, c, s);
    lemma_check_is_textbook(p, q, base, y, r, other, s);
    assert((big_g * z1) % p == (big_g * z2) % p);
    // the inverse of base^s is base^t, with s + t a multiple of q
    let t = (q - s % q) as nat;
    lemma_mod_bound(s as int, q as int);
    lemma_fundamental_div_mod(s as int, q as int);
    lemma_div_pos_is_pos(s as int, q as int);
    lemma_mul_is_distributive_add(q as int, (s / q) as int, 1);
    assert(s + t == q * (s / q + 1));
    lemma_mod_multiples_basic((s / q + 1) as int, q as int);
    lemma_mul_is_commutative(q as int, (s / q + 1) as int);
    assert((s + t) % q == 0);
    lemma_small_mod(0, q);
    lemma_mod_exp_congruent(base, q, p, s + t, 0);
    lemma_mod_exp_zero(base, p);
    lemma_mod_exp_adds(base, s, t, p);
    let inv = mod_exp(base, t, p);
    assert((big_g * inv) % p == 1);
    // cancel base^s on both sides
    lemma_mul_is_commutative(big_g as int, z1 as int);
    lemma_mul_is_commutative(big_g as int, z2 as int);
    lemma_cancel(z1, big_g, inv, p);
    lemma_cancel(z2, big_g, inv, p);
    lemma_mod_exp_bound(y, c, p);
    lemma_mod_exp_bound(y, other, p);
    lemma_small_mod(z1, p);
    lemma_small_mod(z2, p);
    assert(z1 == z2);
    lemma_mod_exp_injective(y, q, p, c, other);
}

/// No power of two is a multiple of an odd number above one.
pub proof fn lemma_power_of_two_not_multiple(m: nat, j: nat)
    requires
        m > 1,
        m % 2 == 1,
    ensures
        pow2(j) % m != 0,
    decreases j,
{
    if j == 0 {
        lemma2_to64();
        lemma_small_mod(1, m);
    } else {
        let half = pow2((j - 1) as nat);
        lemma_pow2_unfold(j);
        lemma_power_of_two_not_multiple(m, (j - 1) as nat);
        if pow2(j) % m == 0 {
            let t = pow2(j) / m;
            lemma_fundamental_div_mod(pow2(j) as int, m as int);
            assert(2 * half == m * t);
            // m is odd, so t is even
            let a = m / 2;
            assert(m * t == 2 * (a * t) + t) by (nonlinear_arith)
                requires
                    m == 2 * a + 1,
            ;
            assert(t == 2 * (half - a * t));
            let u = t / 2;
            assert(m * t == 2 * (m * u)) by (nonlinear_arith)
                requires
                    t == 2 * u,
            ;
            assert(half == m * u);
            lemma_mod_multiples_basic(u as int, m as int);
            lemma_mul_is_commutative(m as int, u as int);
            assert(half % m == 0);
        }
    }
}

/// Two numbers that differ by a power of two differ modulo every odd number
/// above one.
pub proof fn lemma_power_of_two_apart(a: nat, b: nat, m: nat)
    requires
        m > 1,
        m % 2 == 1,
        differ_by_power_of_two(a, b),
    ensures
        a % m != b % m,
{
    let j = choose|j: nat| a == b + #[trigger] pow2(j) || b == a + pow2(j);
    lemma_power_of_two_not_multiple(m, j);
    lemma_mod_equivalence(a as int, b as int, m as int);
    lemma_mod_equivalence(b as int, a as int, m as int);
}

/// A commitment that differs from an accepted one by a power of two, in
/// either half, is rejected. The modulus `p` is odd, and both public keys
/// satisfy `y^q = 1`.
pub proof fn lemma_changed_commitment_is_rejected(
    p: nat,
    q: nat,
    g: nat,
    h: nat,
    y1: nat,
    y2: nat,
    r1: nat,
    r2: nat,
    c: nat,
    s: nat,
    changed: nat,
)
    requires
        is_group(p, q, g, h),
        p % 2 == 1,
        mod_exp(y1, q, p) == 1,
        mod_exp(y2, q, p) == 1,
        accepts(p, g, h, y1, y2, r1, r2, c, s),
    ensures
        differ_by_power_of_two(r1, changed) ==> !accepts(p, g, h, y1, y2, changed, r2, c, s),
        differ_by_power_of_two(r2, changed) ==> !accepts(p, g, h, y1, y2, r1, changed, c, s),
{
    if differ_by_power_of_two(r1, changed) {
        lemma_power_of_two_apart(r1, changed, p);
        if branch_accepts(p, g, y1, changed, c, s) {
            lemma_commitment_is_determined(p, q, g, y1, c, s, r1, changed);
        }
    }
    if differ_by_power_of_two(r2, changed) {
        lemma_power_of_two_apart(r2, changed, p);
        if branch_accepts(p, h, y2, changed, c, s) {
            lemma_commitment_is_determined(p, q, h, y2, c, s, r2, changed);
        }
    }
}

/// A response that differs from an accepted one by a power of two is
/// rejected. The order `q` is odd and above one, and `g` has order exactly `q`.
pub proof fn lemma_changed_response_is_rejected(
    p: nat,
    q: nat,
    g: nat,
    h: nat,
    y1: nat,
    y2: nat,
    r1: nat,
    r2: nat,
    c: nat,
    s: nat,
    changed: nat,
)
    requires
        p >= 2,
        q > 1,
        q % 2 == 1,
        has_order(g, q, p),
        accepts(p, g, h, y1, y2, r1, r2, c, s),
        differ_by_power_of_two(s, changed),
    ensures
        !accepts(p, g, h, y1, y2, r1, r2, c, changed),
{
    lemma_power_of_two_apart(s, changed, q);
    if branch_accepts(p, g, y1, r1, c, changed) {
        lemma_response_is_determined(p, q, g, y1, r1, c, s, changed);
    }
}

/// A challenge that differs from an accepted one by a power of two is
/// rejected. The order `q` is odd and above one, and the public key `y1` has
/// order exactly `q`.
pub proof fn lemma_changed_challenge_is_rejected(
    p: nat,
    q: nat,
    g: nat,
    h: nat,
    y1: nat,
    y2: nat,
    r1: nat,
    r2: nat,
    c: nat,
    s: nat,
    changed: nat,
)
    requires
        is_group(p, q, g, h),
        q > 1,
        q % 2 == 1,
        has_order(y1, q, p),
        accepts(p, g, h, y1, y2, r1, r2, c, s),
        differ_by_power_of_two(c, changed),
    ensures
        !accepts(p, g, h, y1, y2, r1, r2, changed, s),
{
    lemma_power_of_two_apart(c, changed, q);
    if branch_accepts(p, g, y1, r1, changed, s) {
        lemma_challenge_is_determined(p, q, g, y1, r1, s, c, changed);
    }
}

/// Modulo a prime `p`, an accepted commitment is the only one, for every
/// public key that is not a multiple of `p`: the key need not lie in the
/// subgroup.
pub proof fn lemma_commitment_is_determined_for_prime(
    p: nat,
    base: nat,
    y: nat,
    c: nat,
    s: nat,
    r: nat,
    other: nat,
)
    requires
        is_prime(p),
        y % p != 0,
        branch_accepts(p, base, y, r, c, s),
        branch_accepts(p, base, y, other, c, s),
    ensures
        r % p == other % p,
{
    let undo = mod_exp(y, inverse_exponent(p, c), p);
    lemma_power_is_not_multiple(p, y, inverse_exponent(p, c));
    lemma_mod_exp_bound(y, inverse_exponent(p, c), p);
    lemma_small_mod(undo, p);
    lemma_prime_cancels(p, undo, r, other);
}

/// Modulo a prime `p`, a commitment that differs from an accepted one modulo
/// `p`, in either half, is rejected, as long as the public key of that half
/// is not a multiple of `p`.
pub proof fn lemma_changed_commitment_is_rejected_for_prime(
    p: nat,
    g: nat,
    h: nat,
    y1: nat,
    y2: nat,
    r1: nat,
    r2: nat,
    c: nat,
    s: nat,
    changed: nat,
)
    requires
        is_prime(p),
        accepts(p, g, h, y1, y2, r1, r2, c, s),
    ensures
        y1 % p != 0 && changed % p != r1 % p ==> !accepts(p, g, h, y1, y2, changed, r2, c, s),
        y2 % p != 0 && changed % p != r2 % p ==> !accepts(p, g, h, y1, y2, r1, changed, c, s),
{
    if y1 % p != 0 && branch_accepts(p, g, y1, changed, c, s) {
        lemma_commitment_is_determined_for_prime(p, g, y1, c, s, r1, changed);
    }
    if y2 % p != 0 && branch_accepts(p, h, y2, changed, c, s) {
        lemma_commitment_is_determined_for_prime(p, h, y2, c, s, r2, changed);
    }
}

/// Modulo an odd prime `p`, flipping any single bit of either half of an
/// accepted commitment gives a rejected one, as long as the public key of
/// that half is not a multiple of `p`.
pub proof fn lemma_flipped_commitment_is_rejected_for_prime(
    p: nat,
    g: nat,
    h: nat,
    y1: nat,
    y2: nat,
    r1: nat,
    r2: nat,
    c: nat,
    s: nat,
    j: nat,
)
    requires
        is_prime(p),
        p % 2 == 1,
        accepts(p, g, h, y1, y2, r1, r2, c, s),
    ensures
        y1 % p != 0 ==> !accepts(p, g, h, y1, y2, flip_bit(r1, j), r2, c, s),
        y2 % p != 0 ==> !accepts(p, g, h, y1, y2, r1, flip_bit(r2, j), c, s),
{
    lemma_flip_bit_moves_by_power_of_two(r1, j);
    lemma_flip_bit_moves_by_power_of_two(r2, j);
    lemma_power_of_two_apart(r1, flip_bit(r1, j), p);
    lemma_power_of_two_apart(r2, flip_bit(r2, j), p);
    lemma_changed_commitment_is_rejected_for_prime(p, g, h, y1, y2, r1, r2, c, s, flip_bit(r1, j));
    lemma_changed_commitment_is_rejected_for_prime(p, g, h, y1, y2, r1, r2, c, s, flip_bit(r2, j));
}

/// A response computed with another secret is rejected, unless the two
/// secrets give the same product with the challenge modulo `q` (as they do for
/// a challenge of zero). The public keys and the commitment are those of the
/// secret `x` and the nonce `k`, and `g` has order exactly `q`.
pub proof fn lemma_wrong_secret_is_rejected(
    p: nat,
    q: nat,
    g: nat,
    h: nat,
    x: nat,
    k: nat,
    c: nat,
    wrong: nat,
)
    requires
        is_group(p, q, g, h),
        has_order(g, q, p),
        (c * x) % q != (c * wrong) % q,
    ensures
        !accepts(
            p,
            g,
            h,
            mod_exp(g, x, p),
            mod_exp(h, x, p),
            mod_exp(g, k, p),
            mod_exp(h, k, p),
            c,
            response(k, c, wrong, q),
        ),
{
    let y1 = mod_exp(g, x, p);
    let r1 = mod_exp(g, k, p);
    let honest = response(k, c, x, q);
    let other = response(k, c, wrong, q);
    lemma_honest_branch_accepts(p, q, g, x, k, c);
    if branch_accepts(p, g, y1, r1, c, other) {
        lemma_response_is_determined(p, q, g, y1, r1, c, honest, other);
        let m = q as int;
        lemma_mod_bound(k - c * x, m);
        lemma_mod_bound(k - c * wrong, m);
        lemma_small_mod(honest, q);
        lemma_small_mod(other, q);
        assert((k - c * x) % m == (k - c * wrong) % m);
        lemma_mod_equivalence(k - c * x, k - c * wrong, m);
        lemma_mod_equivalence((c * wrong) as int, (c * x) as int, m);
        assert((k - c * x) - (k - c * wrong) == c * wrong - c * x);
    }
}

/// Flipping any single bit of the response, of the challenge or of either
/// half of the commitment turns an accepted exchange into a rejected one. This
/// holds in a group of odd order `q > 1` modulo an odd `p`, where `g` and the
/// public key `y1` have order exactly `q` and `y2^q` is one.
pub proof fn lemma_single_bit_flip_is_rejected(
    p: nat,
    q: nat,
    g: nat,
    h: nat,
    y1: nat,
    y2: nat,
    r1: nat,
    r2: nat,
    c: nat,
    s: nat,
    j: nat,
)
    requires
        is_group(p, q, g, h),
        p % 2 == 1,
        q > 1,
        q % 2 == 1,
        has_order(g, q, p),
        has_order(y1, q, p),
        mod_exp(y2, q, p) == 1,
        accepts(p, g, h, y1, y2, r1, r2, c, s),
    ensures
        !accepts(p, g, h, y1, y2, r1, r2, c, flip_bit(s, j)),
        !accepts(p, g, h, y1, y2, r1, r2, flip_bit(c, j), s),
        !accepts(p, g, h, y1, y2, flip_bit(r1, j), r2, c, s),
        !accepts(p, g, h, y1, y2, r1, flip_bit(r2, j), c, s),
{
    lemma_flip_bit_moves_by_power_of_two(s, j);
    lemma_flip_bit_moves_by_power_of_two(c, j);
    lemma_flip_bit_moves_by_power_of_two(r1, j);
    lemma_flip_bit_moves_by_power_of_two(r2, j);
    lemma_changed_response_is_rejected(p, q, g, h, y1, y2, r1, r2, c, s, flip_bit(s, j));
    lemma_changed_challenge_is_rejected(p, q, g, h, y1, y2, r1, r2, c, s, flip_bit(c, j));
    lemma_changed_commitment_is_rejected(p, q, g, h, y1, y2, r1, r2, c, s, flip_bit(r1, j));
    lemma_changed_commitment_is_rejected(p, q, g, h, y1, y2, r1, r2, c, s, flip_bit(r2, j));
}

} // verus!
