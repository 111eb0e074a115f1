//! Big-endian byte strings as natural numbers.
//!
//! Every integer crosses the wire as an unsigned big-endian byte string of
//! minimal length. `be_value` reads any byte string; `be_bytes` writes the one
//! minimal string of a number (zero is the single byte `0`).

use vstd::prelude::*;

verus! {

/// The natural number that a big-endian byte string denotes. The empty string
/// denotes zero, and leading zero bytes do not change the value.
pub open spec fn be_value(s: Seq<u8>) -> nat
    decreases s.len(),
{
    if s.len() == 0 {
        0
    } else {
        be_value(s.drop_last()) * 256 + s.last() as nat
    }
}

/// The minimal big-endian byte string of `n`: no leading zero byte, except that
/// zero itself is written as one zero byte.
pub open spec fn be_bytes(n: nat) -> Seq<u8>
    decreases n,
{
    if n < 256 {
        seq![n as u8]
    } else {
        be_bytes(n / 256).push((n % 256) as u8)
    }
}

/// A byte string is minimal when it is not empty and starts with a zero byte
/// only if that byte is all there is.
pub open spec fn is_minimal(s: Seq<u8>) -> bool {
    s.len() >= 1 && (s[0] == 0 ==> s.len() == 1)
}

/// Reading what was written gives the number back.
pub proof fn lemma_be_value_of_be_bytes(n: nat)
    ensures
        be_value(be_bytes(n)) == n,
    decreases n,
{
    if n < 256 {
        let s = seq![n as u8];
        assert(s.drop_last() =~= Seq::<u8>::empty());
        assert(be_value(s.drop_last()) == 0);
    } else {
        let hi = be_bytes(n / 256);
        let s = hi.push((n % 256) as u8);
        lemma_be_value_of_be_bytes(n / 256);
        assert(s.drop_last() =~= hi);
    }
}

/// What `be_bytes` writes is minimal.
pub proof fn lemma_be_bytes_is_minimal(n: nat)
    ensures
        is_minimal(be_bytes(n)),
        n >= 256 ==> be_bytes(n)[0] != 0,
    decreases n,
{
    if n >= 256 {
        lemma_be_bytes_is_minimal(n / 256);
        let hi = be_bytes(n / 256);
        if n / 256 < 256 {
            assert(hi[0] == (n / 256) as u8);
        }
        assert(hi.push((n % 256) as u8)[0] == hi[0]);
    }
}

/// A string that does not start with a zero byte denotes a positive number.
pub proof fn lemma_be_value_positive(s: Seq<u8>)
    requires
        s.len() >= 1,
        s[0] != 0,
    ensures
        be_value(s) >= 1,
    decreases s.len(),
{
    if s.len() > 1 {
        let t = s.drop_last();
        assert(t[0] == s[0]);
        lemma_be_value_positive(t);
    } else {
        assert(s.drop_last() =~= Seq::<u8>::empty());
        assert(s.last() == s[0]);
    }
}

/// A minimal string is exactly what `be_bytes` writes for its value, so each
/// number has one minimal string and no other.
pub proof fn lemma_minimal_is_canonical(s: Seq<u8>)
    requires
        is_minimal(s),
    ensures
        be_bytes(be_value(s)) == s,
    decreases s.len(),
{
    let t = s.drop_last();
    let b = s.last();
    if s.len() == 1 {
        assert(t =~= Seq::<u8>::empty());
        assert(be_value(t) == 0);
        assert(be_value(s) == b as nat);
        assert(seq![b] =~= s);
    } else {
        assert(t[0] == s[0]);
        lemma_be_value_positive(t);
        lemma_minimal_is_canonical(t);
        let v = be_value(t);
        assert(be_value(s) == v * 256 + b as nat);
        assert((v * 256 + b as nat) / 256 == v);
        assert((v * 256 + b as nat) % 256 == b as nat);
        assert(t.push(b) =~= s);
    }
}

/// Two minimal strings that denote the same number are the same string.
pub proof fn lemma_minimal_is_unique(s: Seq<u8>, t: Seq<u8>)
    requires
        is_minimal(s),
        is_minimal(t),
        be_value(s) == be_value(t),
    ensures
        s == t,
{
    lemma_minimal_is_canonical(s);
    lemma_minimal_is_canonical(t);
}

} // verus!
