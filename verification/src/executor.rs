//! Queues used to pass values between tasks and interrupts.
//!
//! Each queue keeps its items in a ring of slots whose length is a power of
//! two, so that wrapping an index round is a bit mask.
use vstd::prelude::*;

pub mod channel;
pub mod ringbox;
pub mod ringbuf;
pub mod scheduler;

verus! {

/// Whether `n` is a power of two.
pub open spec fn is_pow2(n: usize) -> bool {
    n > 0 && n & ((n - 1) as usize) == 0
}

/// The slot `k` places after `start` in a ring of `n` slots.
pub open spec fn ring_slot(start: int, k: int, n: int) -> int {
    if start + k < n {
        start + k
    } else {
        start + k - n
    }
}

/// `left` reduced modulo the power of two `right`, for a `left` below
/// `2 * right`.
pub fn mod_power_of_2(left: usize, right: usize) -> (r: usize)
    requires
        is_pow2(right),
        left < 2 * right,
    ensures
        r == (if left < right {
            left as int
        } else {
            left - right
        }),
{
    proof {
        lemma_mask_below_double(left, right);
    }
    left & (right - 1)
}

/// Masking with `n - 1` reduces any value below `2 * n` modulo a power of two.
pub proof fn lemma_mask_below_double(x: usize, n: usize)
    requires
        is_pow2(n),
        x < 2 * n,
    ensures
        x & ((n - 1) as usize) == (if x < n {
            x
        } else {
            (x - n) as usize
        }),
{
    assert(x & ((n - 1) as usize) == (if x < n {
        x
    } else {
        (x - n) as usize
    })) by (bit_vector)
        requires
            n > 0,
            n & ((n - 1) as usize) == 0,
            x < 2 * n,
    ;
}

/// Two indices below a power of two add up to something that fits in a
/// `usize`.
pub proof fn lemma_pow2_sum_fits(n: usize)
    requires
        is_pow2(n),
    ensures
        2 * n - 2 <= usize::MAX,
{
    assert((((n - 1) + (n - 1)) as usize) as int == (n - 1) + (n - 1)) by (bit_vector)
        requires
            n > 0,
            n & ((n - 1) as usize) == 0,
    ;
}

/// Whether `n` is a power of two, as `usize::is_power_of_two`.
pub fn is_power_of_two(n: usize) -> (r: bool)
    ensures
        r == is_pow2(n),
{
    n > 0 && n & (n - 1) == 0
}

} // verus!
