//! The retry policy shared by the network clients: a bounded number of
//! attempts with exponential backoff, `delay = initial * 2^(attempt - 1)`.

use vstd::arithmetic::power2::lemma2_to64;
use vstd::arithmetic::power2::lemma_pow2_strictly_increases;
use vstd::arithmetic::power2::pow2;
use vstd::prelude::*;

verus! {

/// Whether another attempt may follow the given one.
pub fn should_retry(current_attempt: u32, max_retries: u32) -> (r: bool)
    ensures
        r == (current_attempt < max_retries),
{
    current_attempt < max_retries
}

/// Two to the given power, computed by repeated doubling.
pub fn pow2_u64(e: u32) -> (r: u64)
    requires
        pow2(e as nat) <= u64::MAX,
    ensures
        r == pow2(e as nat),
{
    let mut r: u64 = 1;
    let mut i: u32 = 0;
    proof {
        lemma2_to64();
    }
    while i < e
        invariant
            i <= e,
            r == pow2(i as nat),
            pow2(e as nat) <= u64::MAX,
        decreases e - i,
    {
        proof {
            if i + 1 < e {
                lemma_pow2_strictly_increases((i + 1) as nat, e as nat);
            }
            assert(pow2((i + 1) as nat) == 2 * pow2(i as nat)) by {
                vstd::arithmetic::power2::lemma_pow2_unfold((i + 1) as nat);
            }
        }
        r = r * 2;
        i = i + 1;
    }
    r
}

/// Backoff before retrying after the given 1-based attempt: 100 ms doubled
/// for each further attempt.
pub fn calculate_retry_delay(attempt: u32) -> (r: u64)
    requires
        1 <= attempt <= 58,
    ensures
        r == 100 * pow2((attempt - 1) as nat),
{
    proof {
        lemma2_to64();
        vstd::arithmetic::power2::lemma2_to64_rest();
        let e = (attempt - 1) as nat;
        if e < 57 {
            lemma_pow2_strictly_increases(e, 57);
        }
        assert(pow2((attempt - 1) as nat) <= 0x200000000000000);
    }
    let p = pow2_u64(attempt - 1);
    100 * p
}

} // verus!
