//! Powers of two.

use vstd::arithmetic::power2::{
    lemma_pow2_adds, lemma_pow2_pos, lemma_pow2_strictly_increases, lemma_pow2_unfold, pow2,
};
use vstd::prelude::*;

verus! {

/// Whether `n` is a power of two.
pub open spec fn is_power_of_two(n: int) -> bool {
    exists|k: nat| n == pow2(k)
}

/// An odd number above one times a power of two is no power of two.
proof fn lemma_odd_factor(n: int, m: int, k: nat)
    requires
        m > 1,
        m % 2 == 1,
        n == m * pow2(k),
    ensures
        !is_power_of_two(n),
{
    lemma_pow2_pos(k);
    assert forall|j: nat| n != pow2(j) by {
        if n == pow2(j) {
            assert(m * pow2(k) > pow2(k)) by (nonlinear_arith)
                requires
                    m > 1,
                    pow2(k) > 0,
            ;
            if j < k {
                lemma_pow2_strictly_increases(j, k);
            } else {
                let d = (j - k) as nat;
                lemma_pow2_adds(k, d);
                assert(m == pow2(d)) by (nonlinear_arith)
                    requires
                        m * pow2(k) == pow2(k) * pow2(d),
                        pow2(k) > 0,
                ;
                if d > 0 {
                    lemma_pow2_unfold(d);
                } else {
                    vstd::arithmetic::power2::lemma2_to64();
                }
            }
        }
    }
}

/// Whether `n` is a power of two.
pub fn power_of_two(n: u64) -> (b: bool)
    ensures
        b == is_power_of_two(n as int),
{
    if n == 0 {
        proof {
            assert forall|k: nat| 0 != pow2(k) by {
                lemma_pow2_pos(k);
            }
        }
        return false;
    }
    let mut m: u64 = n;
    let ghost mut k: nat = 0;
    proof {
        vstd::arithmetic::power2::lemma2_to64();
    }
    while m % 2 == 0
        invariant
            0 < m,
            n as int == m * pow2(k),
        decreases m,
    {
        proof {
            lemma_pow2_unfold(k + 1);
            assert(m as int == 2 * (m / 2));
            assert(m as int * pow2(k) == (m / 2) as int * (2 * pow2(k))) by (nonlinear_arith)
                requires
                    m as int == 2 * (m / 2),
            ;
            k = k + 1;
        }
        m = m / 2;
    }
    proof {
        if m > 1 {
            lemma_odd_factor(n as int, m as int, k);
        } else {
            assert(n as int == pow2(k));
        }
    }
    m == 1
}

} // verus!
