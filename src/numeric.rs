//! Integer helpers shared by the spline and conformance code.

use vstd::prelude::*;

verus! {

/// `2^k`.
pub open spec fn two_pow(k: nat) -> nat
    decreases k,
{
    if k == 0 {
        1
    } else {
        2 * two_pow((k - 1) as nat)
    }
}

/// `⌈log2 x⌉` for `x ≥ 1` (and 0 for `x ≤ 1`).
pub open spec fn log2_ceil_spec(x: nat) -> nat
    decreases x,
{
    if x <= 1 {
        0
    } else {
        1 + log2_ceil_spec(((x + 1) / 2) as nat)
    }
}

pub proof fn lemma_two_pow_monotone(a: nat, b: nat)
    requires
        a <= b,
    ensures
        two_pow(a) <= two_pow(b),
    decreases b,
{
    if a < b {
        lemma_two_pow_monotone(a, (b - 1) as nat);
    }
}

pub proof fn lemma_two_pow_63()
    ensures
        two_pow(63) == 0x8000_0000_0000_0000u64,
{
    reveal_with_fuel(two_pow, 64);
}

pub proof fn lemma_two_pow_add(a: nat, b: nat)
    ensures
        two_pow(a + b) == two_pow(a) * two_pow(b),
    decreases b,
{
    if b == 0 {
        assert(a + b == a);
        assert(two_pow(0) == 1);
    } else {
        let c = (b - 1) as nat;
        lemma_two_pow_add(a, c);
        let x = two_pow(a);
        let y = two_pow(c);
        assert(two_pow(a + b) == 2 * two_pow(a + c));
        assert(two_pow(b) == 2 * y);
        assert(x * (2 * y) == 2 * (x * y)) by (nonlinear_arith);
    }
}

pub proof fn lemma_two_pow_127()
    ensures
        two_pow(127) == 0x8000_0000_0000_0000_0000_0000_0000_0000u128,
{
    lemma_two_pow_63();
    lemma_two_pow_add(63, 63);
    assert(two_pow(127) == 2 * two_pow(126));
    assert(0x8000_0000_0000_0000u64 as int * 0x8000_0000_0000_0000u64 as int == 0x4000_0000_0000_0000_0000_0000_0000_0000u128 as int);
}

pub proof fn lemma_two_pow_positive(k: nat)
    ensures
        two_pow(k) >= 1,
    decreases k,
{
    if k > 0 {
        lemma_two_pow_positive((k - 1) as nat);
    }
}

/// `k` is `⌈log2 x⌉` exactly when `2^(k-1) < x ≤ 2^k`.
pub proof fn lemma_log2_ceil_bounds(x: nat, k: nat)
    requires
        x >= 1,
        x <= two_pow(k),
        k == 0 || two_pow((k - 1) as nat) < x,
    ensures
        log2_ceil_spec(x) == k,
    decreases k,
{
    if k > 0 {
        let y = ((x + 1) / 2) as nat;
        let h = (k - 1) as nat;
        lemma_two_pow_positive(h);
        assert(two_pow(k) == 2 * two_pow(h));
        if h > 0 {
            assert(two_pow(h) == 2 * two_pow((h - 1) as nat));
        }
        lemma_log2_ceil_bounds(y, h);
    }
}

/// The ceiling of the binary logarithm: the least `k` with `x ≤ 2^k`.
pub fn log2_ceil(x: u64) -> (r: u32)
    requires
        1 <= x <= 0x8000_0000_0000_0000u64,
    ensures
        r as nat == log2_ceil_spec(x as nat),
        x <= two_pow(r as nat),
        r == 0 || two_pow((r - 1) as nat) < x,
{
    let mut p: u64 = 1;
    let mut k: u32 = 0;
    while p < x
        invariant
            1 <= x <= 0x8000_0000_0000_0000u64,
            p as nat == two_pow(k as nat),
            k <= 63,
            k == 0 || two_pow((k - 1) as nat) < x,
        decreases 63 - k,
    {
        proof {
            lemma_two_pow_63();
            if k >= 63 {
                lemma_two_pow_monotone(63, k as nat);
            }
        }
        assert(two_pow((k + 1) as nat) == 2 * two_pow(k as nat));
        p = p * 2;
        k = k + 1;
    }
    proof {
        lemma_log2_ceil_bounds(x as nat, k as nat);
    }
    k
}

/// The ceiling of the binary logarithm, on 128-bit values.
pub fn log2_ceil_wide(x: u128) -> (r: u32)
    requires
        1 <= x <= 0x8000_0000_0000_0000_0000_0000_0000_0000u128,
    ensures
        r as nat == log2_ceil_spec(x as nat),
        r <= 127,
{
    let mut p: u128 = 1;
    let mut k: u32 = 0;
    while p < x
        invariant
            1 <= x <= 0x8000_0000_0000_0000_0000_0000_0000_0000u128,
            p as nat == two_pow(k as nat),
            k <= 127,
            k == 0 || two_pow((k - 1) as nat) < x,
        decreases 127 - k,
    {
        proof {
            lemma_two_pow_127();
            if k >= 127 {
                lemma_two_pow_monotone(127, k as nat);
            }
        }
        assert(two_pow((k + 1) as nat) == 2 * two_pow(k as nat));
        p = p * 2;
        k = k + 1;
    }
    proof {
        lemma_log2_ceil_bounds(x as nat, k as nat);
    }
    k
}

/// `⌈log2 2^k⌉ = k` and `⌈log2 (2^k + 1)⌉ = k + 1`.
pub proof fn lemma_log2_ceil_of_powers(k: nat)
    ensures
        log2_ceil_spec(two_pow(k)) == k,
        log2_ceil_spec(two_pow(k) + 1) == k + 1,
{
    lemma_two_pow_positive(k);
    if k > 0 {
        assert(two_pow(k) == 2 * two_pow((k - 1) as nat));
        lemma_two_pow_positive((k - 1) as nat);
    }
    lemma_log2_ceil_bounds(two_pow(k), k);
    assert(two_pow(k + 1) == 2 * two_pow(k));
    lemma_log2_ceil_bounds(two_pow(k) + 1, k + 1);
}

} // verus!
