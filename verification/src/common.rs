//! Plain-value building blocks shared by every part of the library:
//! how addresses are represented, how a pair of addresses (or an address
//! and a number) is turned into one storage key, and checked arithmetic.

use vstd::prelude::*;

verus! {

/// An on-chain address (account, identity, token or contract). The library
/// only ever compares addresses for equality, so an address is identified by
/// a number.
pub type Address = u64;

/// The number of distinct values of the second component of a [`pair`] key.
pub const PAIR_BASE: u128 = 0x1_0000_0000_0000_0000u128;

/// The storage key that stands for the pair `(a, b)`: `a * 2^64 + b`.
pub open spec fn pair(a: u64, b: u64) -> u128 {
    (a as int * PAIR_BASE as int + b as int) as u128
}

/// Builds the storage key of the pair `(a, b)`.
pub fn pair_key(a: u64, b: u64) -> (k: u128)
    ensures
        k == pair(a, b),
{
    assert(a as int * PAIR_BASE as int + b as int <= u128::MAX) by (nonlinear_arith)
        requires
            a <= u64::MAX,
            b <= u64::MAX,
            PAIR_BASE == 0x1_0000_0000_0000_0000u128,
    ;
    (a as u128) * PAIR_BASE + (b as u128)
}

/// Distinct pairs have distinct keys.
pub proof fn lemma_pair_injective(a: u64, b: u64, c: u64, d: u64)
    ensures
        pair(a, b) == pair(c, d) <==> (a == c && b == d),
{
    assert(a as int * PAIR_BASE as int + b as int <= u128::MAX) by (nonlinear_arith)
        requires
            a <= u64::MAX,
            b <= u64::MAX,
            PAIR_BASE == 0x1_0000_0000_0000_0000u128,
    ;
    assert(c as int * PAIR_BASE as int + d as int <= u128::MAX) by (nonlinear_arith)
        requires
            c <= u64::MAX,
            d <= u64::MAX,
            PAIR_BASE == 0x1_0000_0000_0000_0000u128,
    ;
    if a != c {
        assert(a as int * PAIR_BASE as int + b as int != c as int * PAIR_BASE as int + d as int)
            by (nonlinear_arith)
            requires
                a != c,
                b < PAIR_BASE,
                d < PAIR_BASE,
        {
            if a < c {
                assert(a as int * PAIR_BASE as int + PAIR_BASE as int <= c as int * PAIR_BASE as int);
            } else {
                assert(c as int * PAIR_BASE as int + PAIR_BASE as int <= a as int * PAIR_BASE as int);
            }
        }
    }
}

} // verus!
