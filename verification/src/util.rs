//! Small numeric helpers.
use vstd::prelude::*;

verus! {

/// A power of two: 1, or an even number whose half is a power of two.
pub open spec fn is_pow2_spec(n: nat) -> bool
    decreases n,
{
    if n == 0 {
        false
    } else if n == 1 {
        true
    } else {
        n % 2 == 0 && is_pow2_spec(n / 2)
    }
}

pub fn is_power_of_2(n: usize) -> (r: bool)
    ensures
        r == is_pow2_spec(n as nat),
{
    if n == 0 {
        return false;
    }
    let mut m = n;
    while m > 1
        invariant
            m >= 1,
            is_pow2_spec(n as nat) == is_pow2_spec(m as nat),
        decreases m,
    {
        if m % 2 == 1 {
            return false;
        }
        m = m / 2;
    }
    true
}

/// The small powers of two this protocol sizes its vectors by.
pub proof fn lemma_small_pow2()
    ensures
        is_pow2_spec(1),
        is_pow2_spec(2),
        is_pow2_spec(4),
        is_pow2_spec(8),
{
    assert(is_pow2_spec(1));
    assert(is_pow2_spec(2));
    assert(is_pow2_spec(4));
    assert(is_pow2_spec(8));
}

/// An exact copy of a byte vector.
pub(crate) fn copy_bytes(v: &Vec<u8>) -> (r: Vec<u8>)
    ensures
        r@ == v@,
{
    let mut r: Vec<u8> = Vec::new();
    let n = v.len();
    for i in 0..n
        invariant
            n == v@.len(),
            r@ == v@.subrange(0, i as int),
    {
        r.push(v[i]);
        proof {
            assert(r@ =~= v@.subrange(0, i + 1));
        }
    }
    proof {
        assert(v@.subrange(0, n as int) =~= v@);
    }
    r
}

/// Exact equality of two byte vectors.
pub(crate) fn bytes_eq(a: &Vec<u8>, b: &Vec<u8>) -> (r: bool)
    ensures
        r == (a@ == b@),
{
    if a.len() != b.len() {
        return false;
    }
    let n = a.len();
    for i in 0..n
        invariant
            n == a@.len(),
            n == b@.len(),
            forall|j: int| 0 <= j < i ==> a@[j] == b@[j],
    {
        if a[i] != b[i] {
            return false;
        }
    }
    proof {
        assert(a@ =~= b@);
    }
    true
}

} // verus!
