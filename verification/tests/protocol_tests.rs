use zkp_auth::bignat::BigNat;
use zkp_auth::client::{challenge_response, commitment, commitment_with_nonce};
use zkp_auth::entropy::{
    availability_of, fresh_identifier, identifier_from, random_below, source_available,
};
use zkp_auth::error::AuthError;
use zkp_auth::models::{AuthChallenge, Params, User};
use zkp_auth::server::Verifier;

fn n(v: u64) -> BigNat {
    BigNat::from_u64(v)
}

fn small_group() -> Params {
    Params { p: n(23), q: n(11), g: n(4), h: n(9) }
}

const P128: [u8; 16] = [
    0x9c, 0xae, 0x7d, 0x1b, 0xf3, 0xa6, 0xa1, 0xba, 0xf0, 0x9c, 0x1f, 0x38, 0x04, 0x83, 0xe0, 0xdf,
];
const Q128: [u8; 16] = [
    0x4e, 0x57, 0x3e, 0x8d, 0xf9, 0xd3, 0x50, 0xdd, 0x78, 0x4e, 0x0f, 0x9c, 0x02, 0x41, 0xf0, 0x6f,
];
const X128: [u8; 16] = [
    0x22, 0xf7, 0x0e, 0xb2, 0xaf, 0xce, 0x18, 0x01, 0x2d, 0xeb, 0xcf, 0x5e, 0x43, 0x82, 0xd3, 0x56,
];
const K128: [u8; 16] = [
    0x19, 0xf4, 0x91, 0x6f, 0x7f, 0xf8, 0x55, 0xf0, 0x4a, 0xdc, 0x66, 0x49, 0x78, 0xee, 0x41, 0xe9,
];
const C128: [u8; 16] = [
    0x42, 0xc8, 0x73, 0x3b, 0x42, 0xee, 0x5d, 0xa1, 0xa9, 0x03, 0x7c, 0xa5, 0x79, 0x88, 0x81, 0x22,
];
const Y1_128: [u8; 16] = [
    0x64, 0xd2, 0x37, 0x3f, 0x01, 0x1a, 0x5f, 0xff, 0x7a, 0x92, 0x80, 0xe1, 0xdb, 0x94, 0xbc, 0x60,
];
const Y2_128: [u8; 16] = [
    0x40, 0x37, 0xce, 0x9b, 0xfe, 0xde, 0x9a, 0xac, 0xca, 0x95, 0xb5, 0x37, 0x14, 0x2b, 0x60, 0x1b,
];
const R1_128: [u8; 16] = [
    0x3e, 0xd1, 0xf0, 0x82, 0xf8, 0xd7, 0x20, 0xac, 0xb4, 0x43, 0xea, 0x32, 0xa8, 0xdb, 0x4a, 0x9c,
];
const R2_128: [u8; 16] = [
    0x47, 0x3b, 0xc0, 0xc2, 0x26, 0xd8, 0xb2, 0xb7, 0x5b, 0xe1, 0x1d, 0xc7, 0x3c, 0x11, 0x59, 0x42,
];
const S128: [u8; 16] = [
    0x23, 0xee, 0x11, 0xb4, 0x76, 0xcb, 0x03, 0xce, 0x4d, 0xf8, 0x09, 0x8c, 0x37, 0x59, 0x4a, 0x6f,
];

fn big_group() -> Params {
    Params {
        p: BigNat::from_bytes_be(&P128),
        q: BigNat::from_bytes_be(&Q128),
        g: n(9),
        h: n(49),
    }
}

fn user(y1: BigNat, y2: BigNat) -> User {
    User { name: String::from("anyone"), y1, y2 }
}

fn attempt(r1: BigNat, r2: BigNat, c: BigNat) -> AuthChallenge {
    AuthChallenge { username: String::from("anyone"), r1, r2, c }
}

#[test]
fn parameters_are_judged() {
    assert!(small_group().is_usable());
    assert!(small_group().is_group());
    assert!(big_group().is_usable());
    assert!(big_group().is_group());
    // p below two, or q zero
    assert!(!Params { p: n(1), q: n(11), g: n(4), h: n(9) }.is_usable());
    assert!(!Params { p: n(0), q: n(11), g: n(4), h: n(9) }.is_usable());
    assert!(!Params { p: n(23), q: n(0), g: n(4), h: n(9) }.is_usable());
    assert!(Params { p: n(2), q: n(1), g: n(1), h: n(1) }.is_usable());
    // q does not divide p - 1
    assert!(!Params { p: n(23), q: n(7), g: n(4), h: n(9) }.is_group());
    // 5 has order 22 modulo 23, not 11
    assert!(Params { p: n(23), q: n(11), g: n(5), h: n(9) }.is_usable());
    assert!(!Params { p: n(23), q: n(11), g: n(5), h: n(9) }.is_group());
    assert!(!Params { p: n(23), q: n(11), g: n(4), h: n(5) }.is_group());
    assert!(!Params { p: n(1), q: n(1), g: n(4), h: n(9) }.is_group());
}

#[test]
fn commitment_with_nonce_small_group() {
    let (y1, y2, r1, r2) = commitment_with_nonce(&small_group(), &n(6), &n(7));
    assert!(y1.equals(&n(2)));
    assert!(y2.equals(&n(3)));
    assert!(r1.equals(&n(8)));
    assert!(r2.equals(&n(4)));
}

#[test]
fn commitment_with_nonce_big_group() {
    let x = BigNat::from_bytes_be(&X128);
    let k = BigNat::from_bytes_be(&K128);
    let (y1, y2, r1, r2) = commitment_with_nonce(&big_group(), &x, &k);
    assert_eq!(y1.to_bytes_be(), Y1_128.to_vec());
    assert_eq!(y2.to_bytes_be(), Y2_128.to_vec());
    assert_eq!(r1.to_bytes_be(), R1_128.to_vec());
    assert_eq!(r2.to_bytes_be(), R2_128.to_vec());
}

#[test]
fn commitment_draws_a_nonce_below_q() {
    let params = small_group();
    for _ in 0..50 {
        let ((y1, y2, r1, r2), k) = commitment(&params, &n(6)).unwrap();
        assert!(!k.ge(&params.q));
        assert!(y1.equals(&n(2)));
        assert!(y2.equals(&n(3)));
        assert!(r1.equals(&params.g.modpow(&k, &params.p)));
        assert!(r2.equals(&params.h.modpow(&k, &params.p)));
    }
}

#[test]
fn commitment_nonces_vary() {
    let params = big_group();
    let x = BigNat::from_bytes_be(&X128);
    let (_, k1) = commitment(&params, &x).unwrap();
    let (_, k2) = commitment(&params, &x).unwrap();
    assert!(!k1.equals(&k2));
    assert!(!k1.ge(&params.q));
    assert!(!k2.ge(&params.q));
}

#[test]
fn response_when_nonce_is_larger() {
    // k = 9, c * x = 1 * 6: (9 - 6) mod 11 = 3
    assert!(challenge_response(&small_group(), &n(9), &n(1), &n(6)).equals(&n(3)));
    // k = 30, c * x = 2 * 3: 24 mod 11 = 2
    assert!(challenge_response(&small_group(), &n(30), &n(2), &n(3)).equals(&n(2)));
}

#[test]
fn response_when_product_is_larger() {
    // k = 7, c * x = 4 * 6 = 24: (7 - 24) mod 11 = -17 mod 11 = 5
    assert!(challenge_response(&small_group(), &n(7), &n(4), &n(6)).equals(&n(5)));
    // k = 0, c * x = 1: -1 mod 11 = 10
    assert!(challenge_response(&small_group(), &n(0), &n(1), &n(1)).equals(&n(10)));
}

#[test]
fn response_is_zero_not_q() {
    // k = 2, c * x = 24, and 24 mod 11 = 2: the residue is 0
    let s = challenge_response(&small_group(), &n(2), &n(4), &n(6));
    assert!(s.is_zero());
    assert_eq!(s.to_bytes_be(), vec![0]);
    // c * x - k a multiple of q from the other side as well
    assert!(challenge_response(&small_group(), &n(24), &n(4), &n(6)).is_zero());
    assert!(challenge_response(&small_group(), &n(35), &n(4), &n(6)).is_zero());
    assert!(challenge_response(&small_group(), &n(0), &n(0), &n(6)).is_zero());
}

#[test]
fn response_big_group() {
    let x = BigNat::from_bytes_be(&X128);
    let k = BigNat::from_bytes_be(&K128);
    let c = BigNat::from_bytes_be(&C128);
    let s = challenge_response(&big_group(), &k, &c, &x);
    assert_eq!(s.to_bytes_be(), S128.to_vec());
}

fn small(v: &BigNat) -> u64 {
    let b = v.to_bytes_be();
    assert!(b.len() <= 8);
    b.iter().fold(0u64, |acc, byte| acc * 256 + u64::from(*byte))
}

#[test]
fn response_recovers_the_nonce() {
    let params = small_group();
    for k in 0..11u64 {
        for c in 0..11u64 {
            for x in 0..11u64 {
                let s = small(&challenge_response(&params, &n(k), &n(c), &n(x)));
                assert!(s < 11);
                // (s + c * x) mod q == k
                assert_eq!((s + c * x) % 11, k);
            }
        }
    }
}

#[test]
fn response_recovers_the_nonce_big_group() {
    let params = big_group();
    let x = BigNat::from_bytes_be(&X128);
    let k = BigNat::from_bytes_be(&K128);
    let c = BigNat::from_bytes_be(&C128);
    let s = challenge_response(&params, &k, &c, &x);
    // s + (c * x mod q), reduced modulo q, is k again
    let total = add(&s, &c.mul(&x).rem(&params.q));
    assert!(total.rem(&params.q).equals(&k));
}

/// `a + b` for numbers whose sum has at most sixteen bytes, by columns.
fn add(a: &BigNat, b: &BigNat) -> BigNat {
    let (x, y) = (a.to_bytes_be(), b.to_bytes_be());
    let mut out = vec![0u8; 17];
    let mut carry = 0u16;
    for i in 0..17 {
        let xi = if i < x.len() { u16::from(x[x.len() - 1 - i]) } else { 0 };
        let yi = if i < y.len() { u16::from(y[y.len() - 1 - i]) } else { 0 };
        let t = xi + yi + carry;
        out[16 - i] = (t & 0xff) as u8;
        carry = t >> 8;
    }
    BigNat::from_bytes_be(&out)
}

#[test]
fn zero_response_is_accepted() {
    // x = 6, k = 2, c = 4: s = 0
    let verifier = Verifier::new(small_group()).unwrap();
    let (y1, y2, r1, r2) = commitment_with_nonce(&small_group(), &n(6), &n(2));
    let s = challenge_response(&small_group(), &n(2), &n(4), &n(6));
    assert!(s.is_zero());
    assert!(verifier.check(&user(y1, y2), &attempt(r1, r2, n(4)), &s));
}

#[test]
fn q_as_response_is_the_same_residue() {
    // s = q stands for the same exponent as s = 0
    let verifier = Verifier::new(small_group()).unwrap();
    let (y1, y2, r1, r2) = commitment_with_nonce(&small_group(), &n(6), &n(2));
    assert!(verifier.check(&user(y1, y2), &attempt(r1, r2, n(4)), &n(11)));
}

#[test]
fn honest_prover_is_accepted_everywhere() {
    let params = small_group();
    let verifier = Verifier::new(small_group()).unwrap();
    for x in 0..11u64 {
        for k in 0..11u64 {
            let (y1, y2, r1, r2) = commitment_with_nonce(&params, &n(x), &n(k));
            for c in 0..11u64 {
                let s = challenge_response(&params, &n(k), &n(c), &n(x));
                let u = user(y1.clone(), y2.clone());
                let a = attempt(r1.clone(), r2.clone(), n(c));
                assert!(verifier.check(&u, &a, &s), "x={} k={} c={}", x, k, c);
            }
        }
    }
}

#[test]
fn honest_prover_is_accepted_for_large_challenges() {
    // challenges at and above p - 1 are reduced
    let params = small_group();
    let verifier = Verifier::new(small_group()).unwrap();
    let (y1, y2, r1, r2) = commitment_with_nonce(&params, &n(6), &n(7));
    for c in [21u64, 22, 23, 44, 45, 1000] {
        let s = challenge_response(&params, &n(7), &n(c), &n(6));
        let u = user(y1.clone(), y2.clone());
        let a = attempt(r1.clone(), r2.clone(), n(c));
        assert!(verifier.check(&u, &a, &s), "c={}", c);
    }
}

#[test]
fn honest_prover_is_accepted_big_group() {
    let verifier = Verifier::new(big_group()).unwrap();
    let u = user(BigNat::from_bytes_be(&Y1_128), BigNat::from_bytes_be(&Y2_128));
    let a = attempt(
        BigNat::from_bytes_be(&R1_128),
        BigNat::from_bytes_be(&R2_128),
        BigNat::from_bytes_be(&C128),
    );
    assert!(verifier.check(&u, &a, &BigNat::from_bytes_be(&S128)));
}

#[test]
fn inverse_exponent_values() {
    let verifier = Verifier::new(small_group()).unwrap();
    // (22 - c) mod 22
    assert!(verifier.inverse_exponent(&n(0)).is_zero());
    assert!(verifier.inverse_exponent(&n(1)).equals(&n(21)));
    assert!(verifier.inverse_exponent(&n(10)).equals(&n(12)));
    assert!(verifier.inverse_exponent(&n(22)).is_zero());
    assert!(verifier.inverse_exponent(&n(23)).equals(&n(21)));
    assert!(verifier.inverse_exponent(&n(45)).equals(&n(21)));
}

#[test]
fn check_equations_hold_numerically() {
    // x = 6, k = 7, c = 4: s = 5, exponent 18
    // 4^5 mod 23 = 12 and (8 * 2^18) mod 23 = 12
    // 9^5 mod 23 = 8 and (4 * 3^18) mod 23 = 8
    let p = n(23);
    assert!(n(4).modpow(&n(5), &p).equals(&n(12)));
    assert!(n(8).mul(&n(2).modpow(&n(18), &p)).rem(&p).equals(&n(12)));
    assert!(n(9).modpow(&n(5), &p).equals(&n(8)));
    assert!(n(4).mul(&n(3).modpow(&n(18), &p)).rem(&p).equals(&n(8)));
    let verifier = Verifier::new(small_group()).unwrap();
    assert!(verifier.check(&user(n(2), n(3)), &attempt(n(8), n(4), n(4)), &n(5)));
}

#[test]
fn single_bit_flips_are_rejected_small_group() {
    let verifier = Verifier::new(small_group()).unwrap();
    // x = 6, k = 7, c = 4, s = 5
    let (y1, y2, r1, r2, c, s) = (2u64, 3u64, 8u64, 4u64, 4u64, 5u64);
    assert!(verifier.check(&user(n(y1), n(y2)), &attempt(n(r1), n(r2), n(c)), &n(s)));
    for bit in 0..16 {
        let f = 1u64 << bit;
        assert!(!verifier.check(&user(n(y1), n(y2)), &attempt(n(r1), n(r2), n(c)), &n(s ^ f)));
        assert!(!verifier.check(&user(n(y1), n(y2)), &attempt(n(r1), n(r2), n(c ^ f)), &n(s)));
        assert!(!verifier.check(&user(n(y1), n(y2)), &attempt(n(r1 ^ f), n(r2), n(c)), &n(s)));
        assert!(!verifier.check(&user(n(y1), n(y2)), &attempt(n(r1), n(r2 ^ f), n(c)), &n(s)));
    }
}

fn flipped(bytes: &[u8], bit: usize) -> BigNat {
    let mut b = bytes.to_vec();
    let at = b.len() - 1 - bit / 8;
    b[at] ^= 1 << (bit % 8);
    BigNat::from_bytes_be(&b)
}

#[test]
fn single_bit_flips_are_rejected_big_group() {
    let verifier = Verifier::new(big_group()).unwrap();
    let y = || user(BigNat::from_bytes_be(&Y1_128), BigNat::from_bytes_be(&Y2_128));
    let r1 = || BigNat::from_bytes_be(&R1_128);
    let r2 = || BigNat::from_bytes_be(&R2_128);
    let c = || BigNat::from_bytes_be(&C128);
    let s = || BigNat::from_bytes_be(&S128);
    assert!(verifier.check(&y(), &attempt(r1(), r2(), c()), &s()));
    for bit in 0..128 {
        assert!(!verifier.check(&y(), &attempt(r1(), r2(), c()), &flipped(&S128, bit)));
        assert!(!verifier.check(&y(), &attempt(r1(), r2(), flipped(&C128, bit)), &s()));
        assert!(!verifier.check(&y(), &attempt(flipped(&R1_128, bit), r2(), c()), &s()));
        assert!(!verifier.check(&y(), &attempt(r1(), flipped(&R2_128, bit), c()), &s()));
    }
}

#[test]
fn response_with_wrong_secret_is_rejected() {
    let params = small_group();
    let verifier = Verifier::new(small_group()).unwrap();
    let (y1, y2, r1, r2) = commitment_with_nonce(&params, &n(6), &n(7));
    let wrong = challenge_response(&params, &n(7), &n(4), &n(5));
    assert!(!verifier.check(&user(y1, y2), &attempt(r1, r2, n(4)), &wrong));
}

#[test]
fn keys_for_different_secrets_are_rejected() {
    // y1 = g^6 but y2 = h^7: no response satisfies both equations
    let params = small_group();
    let verifier = Verifier::new(small_group()).unwrap();
    let y1 = params.g.modpow(&n(6), &params.p);
    let y2 = params.h.modpow(&n(7), &params.p);
    let (_, _, r1, r2) = commitment_with_nonce(&params, &n(6), &n(7));
    for s in 0..11u64 {
        let u = user(y1.clone(), y2.clone());
        assert!(!verifier.check(&u, &attempt(r1.clone(), r2.clone(), n(4)), &n(s)));
    }
}

#[test]
fn verifier_wants_usable_moduli() {
    assert!(Verifier::new(Params { p: n(1), q: n(11), g: n(4), h: n(9) }).is_none());
    assert!(Verifier::new(Params { p: n(23), q: n(0), g: n(4), h: n(9) }).is_none());
    let v = Verifier::new(small_group()).unwrap();
    assert!(v.params().p.equals(&n(23)));
    assert!(v.params().q.equals(&n(11)));
    assert!(v.params().g.equals(&n(4)));
    assert!(v.params().h.equals(&n(9)));
}

#[test]
fn subgroup_membership() {
    let v = Verifier::new(small_group()).unwrap();
    // the subgroup of order 11 modulo 23 is the squares
    let squares = [1u64, 2, 3, 4, 6, 8, 9, 12, 13, 16, 18];
    for y in 0..30u64 {
        assert_eq!(v.is_member(&n(y)), squares.contains(&y), "y={}", y);
    }
    let big = Verifier::new(big_group()).unwrap();
    assert!(big.is_member(&BigNat::from_bytes_be(&Y1_128)));
    assert!(big.is_member(&BigNat::from_bytes_be(&R2_128)));
    assert!(big.is_member(&n(3)));
    assert!(!big.is_member(&n(5)));
    assert!(!big.is_member(&n(11)));
    assert!(!big.is_member(&n(0)));
    assert!(!big.is_member(&BigNat::from_bytes_be(&P128)));
}

#[test]
fn drawn_challenges_are_below_q() {
    let v = Verifier::new(small_group()).unwrap();
    let mut seen = [false; 11];
    for _ in 0..400 {
        let c = v.draw_challenge().unwrap();
        assert!(!c.ge(&n(11)));
        let b = c.to_bytes_be();
        assert_eq!(b.len(), 1);
        seen[b[0] as usize] = true;
    }
    assert!(seen.iter().all(|s| *s));
}

#[test]
fn random_numbers_are_below_the_bound() {
    assert!(source_available().is_ok());
    for _ in 0..20 {
        assert!(random_below(&n(1)).unwrap().is_zero());
    }
    let bound = BigNat::from_bytes_be(&Q128);
    for _ in 0..50 {
        let r = random_below(&bound).unwrap();
        assert!(!r.ge(&bound));
        assert!(!r.equals(&bound));
    }
    let a = random_below(&bound).unwrap();
    let b = random_below(&bound).unwrap();
    assert!(!a.equals(&b));
}

#[test]
fn failing_source_is_a_randomness_failure() {
    assert_eq!(availability_of(Ok(())), Ok(()));
    assert_eq!(availability_of(Ok(vec![1u8, 2, 3])), Ok(vec![1u8, 2, 3]));
    assert_eq!(availability_of(Ok([7u8; 16])), Ok([7u8; 16]));
    assert_eq!(
        availability_of::<()>(Err(rand::Error::new("no entropy"))),
        Err(AuthError::InternalRandomnessFailure)
    );
    assert_eq!(
        availability_of::<[u8; 16]>(Err(rand::Error::new("no entropy"))),
        Err(AuthError::InternalRandomnessFailure)
    );
}

#[test]
fn identifier_of_given_bytes() {
    let bytes = [70, 235, 208, 238, 14, 109, 67, 201, 185, 13, 204, 195, 90, 145, 63, 62];
    assert_eq!(
        identifier_from(Ok(bytes)),
        Ok(String::from("46ebd0ee-0e6d-43c9-b90d-ccc35a913f3e"))
    );
    // the version and variant bits are set whatever the bytes hold
    assert_eq!(
        identifier_from(Ok([0u8; 16])),
        Ok(String::from("00000000-0000-4000-8000-000000000000"))
    );
    assert_eq!(
        identifier_from(Ok([255u8; 16])),
        Ok(String::from("ffffffff-ffff-4fff-bfff-ffffffffffff"))
    );
    assert_eq!(
        identifier_from(Ok([0, 1, 2, 3, 4, 5, 6, 7, 8, 9, 10, 11, 12, 13, 14, 15])),
        Ok(String::from("00010203-0405-4607-8809-0a0b0c0d0e0f"))
    );
    // the same bytes give the same identifier
    assert_eq!(identifier_from(Ok(bytes)), identifier_from(Ok(bytes)));
}

#[test]
fn identifier_of_a_failed_draw() {
    assert_eq!(
        identifier_from(Err(AuthError::InternalRandomnessFailure)),
        Err(AuthError::InternalRandomnessFailure)
    );
    assert_eq!(identifier_from(Err(AuthError::NotFound)), Err(AuthError::NotFound));
    assert_eq!(identifier_from(Err(AuthError::InvalidProof)), Err(AuthError::InvalidProof));
}

#[test]
fn changed_commitment_is_rejected_for_keys_outside_the_subgroup() {
    // 5 and 7 have order 22 modulo 23; with s = 5 and c = 7 the commitment
    // that satisfies the equations is r1 = 20, r2 = 17
    let verifier = Verifier::new(small_group()).unwrap();
    assert!(!verifier.is_member(&n(5)));
    assert!(!verifier.is_member(&n(7)));
    assert!(verifier.check(&user(n(5), n(7)), &attempt(n(20), n(17), n(7)), &n(5)));
    for r in 0..23u64 {
        let first = verifier.check(&user(n(5), n(7)), &attempt(n(r), n(17), n(7)), &n(5));
        let second = verifier.check(&user(n(5), n(7)), &attempt(n(20), n(r), n(7)), &n(5));
        assert_eq!(first, r == 20, "r1={}", r);
        assert_eq!(second, r == 17, "r2={}", r);
    }
    // the same residue, written larger, is the same commitment
    assert!(verifier.check(&user(n(5), n(7)), &attempt(n(43), n(40), n(7)), &n(5)));
}

#[test]
fn identifiers_are_fresh() {
    let a = fresh_identifier().unwrap();
    let b = fresh_identifier().unwrap();
    assert_eq!(a.chars().count(), 36);
    assert_eq!(b.chars().count(), 36);
    assert_ne!(a, b);
    let parts: Vec<&str> = a.split('-').collect();
    assert_eq!(parts.iter().map(|p| p.len()).collect::<Vec<usize>>(), vec![8, 4, 4, 4, 12]);
    assert!(a.chars().all(|ch| ch == '-' || ch.is_ascii_hexdigit()));
    // version 4
    assert_eq!(parts[2].chars().next(), Some('4'));
}
