//! Counters and offsets that stop at the largest 64-bit number.

use vstd::prelude::*;

verus! {

/// `n`, or the largest 64-bit number where `n` is larger.
pub open spec fn saturated(n: nat) -> u64 {
    if n <= u64::MAX {
        n as u64
    } else {
        u64::MAX
    }
}

/// The product of `a` and `b`, or the largest 64-bit number where the product
/// is larger.
pub fn saturating_product(a: u64, b: u64) -> (product: u64)
    ensures
        product == saturated(a as nat * b as nat),
{
    match a.checked_mul(b) {
        Some(product) => product,
        None => u64::MAX,
    }
}

/// Counting is exact up to the largest 64-bit number and stays there after it.
pub proof fn counting_is_exact_as_far_as_it_goes(n: nat)
    ensures
        n < 0x1_0000_0000_0000_0000 ==> saturated(n) as nat == n,
        n >= 0x1_0000_0000_0000_0000 ==> saturated(n) == 0xffff_ffff_ffff_ffff,
{
}

/// A counter has gone up by one where `counted`, unless it was at its end, and
/// has stayed where not.
pub open spec fn is_counted(before: u64, after: u64, counted: bool) -> bool {
    after == if counted && before < 0xffff_ffff_ffff_ffff {
        before + 1
    } else {
        before as int
    }
}

} // verus!
