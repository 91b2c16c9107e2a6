//! Counting decimal digits.

use vstd::prelude::*;

verus! {

/// The number of decimal digits needed to write `n`; zero takes one digit.
pub open spec fn num_digits(n: nat) -> nat
    decreases n,
{
    if n < 10 {
        1
    } else {
        1 + num_digits(n / 10)
    }
}

/// Ten to the power `k`.
pub open spec fn pow10(k: nat) -> nat
    decreases k,
{
    if k == 0 {
        1
    } else {
        10 * pow10((k - 1) as nat)
    }
}

/// A number below `10^k` has at most `k` digits.
pub proof fn lemma_num_digits_bound(n: nat, k: nat)
    requires
        k >= 1,
        n < pow10(k),
    ensures
        num_digits(n) <= k,
    decreases k,
{
    if n >= 10 {
        assert(k >= 2) by {
            if k == 1 {
                reveal_with_fuel(pow10, 2);
            }
        }
        lemma_num_digits_bound(n / 10, (k - 1) as nat);
    }
}

/// Every 64-bit value has at most twenty digits.
proof fn lemma_u64_digits(n: nat)
    requires
        n <= u64::MAX,
    ensures
        num_digits(n) <= 20,
{
    reveal_with_fuel(pow10, 21);
    assert(pow10(20) == 100000000000000000000);
    lemma_num_digits_bound(n, 20);
}

/// Number of decimal digits of `val` (zero has one digit).
pub fn num_base10_digits_usize(val: usize) -> (r: u32)
    ensures
        r == num_digits(val as nat),
{
    proof {
        lemma_u64_digits(val as nat);
    }
    let mut n: usize = val;
    let mut count: u32 = 1;
    while n >= 10
        invariant
            count + num_digits(n as nat) == 1 + num_digits(val as nat),
            num_digits(val as nat) <= 20,
        decreases n,
    {
        n = n / 10;
        count = count + 1;
    }
    count
}

/// Number of decimal digits of `val`; zero and negative values count as one digit.
pub fn num_base10_digits_i64(val: i64) -> (r: u32)
    ensures
        val <= 0 ==> r == 1,
        val > 0 ==> r == num_digits(val as nat),
{
    if val <= 0 {
        return 1;
    }
    proof {
        lemma_u64_digits(val as nat);
    }
    let mut n: i64 = val;
    let mut count: u32 = 1;
    while n >= 10
        invariant
            n >= 0,
            count + num_digits(n as nat) == 1 + num_digits(val as nat),
            num_digits(val as nat) <= 20,
        decreases n,
    {
        n = n / 10;
        count = count + 1;
    }
    count
}

} // verus!
