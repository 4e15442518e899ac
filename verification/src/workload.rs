//! A computation to keep worker threads busy with.

use vstd::prelude::*;

verus! {

/// `0 + 1 + .. + (count - 1)`.
pub open spec fn triangle(count: nat) -> int {
    (count * (count - 1)) / 2
}

/// The sum of the numbers below `count` starts at nothing and grows by `count` with one
/// more summand.
pub proof fn law_triangle_adds_up(count: nat)
    ensures
        triangle(0) == 0,
        triangle(count + 1) == triangle(count) + count,
{
    assert((count + 1) * count == count * (count - 1) + 2 * count) by (nonlinear_arith);
}

/// One step of the sum, with both operations wrapping.
proof fn lemma_step(sum: int, j: int, weight: int, total: int)
    requires
        sum == (weight * total) % 0x1_0000_0000_0000_0000,
    ensures
        (sum + (j * weight) % 0x1_0000_0000_0000_0000) % 0x1_0000_0000_0000_0000 == (weight * (total + j)) % 0x1_0000_0000_0000_0000,
{
    vstd::arithmetic::div_mod::lemma_add_mod_noop(weight * total, j * weight, 0x1_0000_0000_0000_0000);
    assert(weight * total + j * weight == weight * (total + j)) by (nonlinear_arith);
}

/// The sum of `weight * j` over all `j` below `count`, as far as it fits: whole
/// rounds of a `u64` are left out.
pub fn weighted_sum(count: u64, weight: u64) -> (sum: u64)
    ensures
        sum == (weight * triangle(count as nat)) % 0x1_0000_0000_0000_0000,
{
    let mut sum: u64 = 0;
    let mut j: u64 = 0;
    proof {
        assert(weight * triangle(0) == 0) by (nonlinear_arith)
            requires
                triangle(0) == 0,
        ;
    }
    while j < count
        invariant
            j <= count,
            sum == (weight * triangle(j as nat)) % 0x1_0000_0000_0000_0000,
        decreases count - j,
    {
        proof {
            law_triangle_adds_up(j as nat);
            lemma_step(sum as int, j as int, weight as int, triangle(j as nat));
        }
        sum = sum.wrapping_add(j.wrapping_mul(weight));
        j = j + 1;
    }
    sum
}

} // verus!
