use vstd::prelude::*;

verus! {

/// How many nearest neighbours the relevance of a query looks at in a space of `n` vectors:
/// a fifth of them, rounded to the nearest integer, and at least one.
pub open spec fn neighbours_for(n: nat) -> nat {
    let k = (2 * n + 5) / 10;
    if k >= 1 {
        k
    } else {
        1
    }
}

/// The F-beta blend (beta = 1.2) of the rank-discounted metric `m1` and the plain mean `m2`:
/// (1 + b^2) m1 m2 / (b^2 m2 + m1), with b^2 = 36/25, so 61 m1 m2 / (36 m2 + 25 m1).
/// Both metrics in the same fixed-point unit; 0 where both are 0.
pub open spec fn blend_of(m1: nat, m2: nat) -> nat {
    if 36 * m2 + 25 * m1 == 0 {
        0
    } else {
        (61 * m1 * m2 / (36 * m2 + 25 * m1)) as nat
    }
}

pub fn neighbour_count(n: usize) -> (r: usize)
    ensures
        r == neighbours_for(n as nat),
{
    let k = ((n as u128) * 2 + 5) / 10;
    if k >= 1 {
        k as usize
    } else {
        1
    }
}

/// The largest metric that `blend` takes: the product of two such, times 61, fits in 128 bits.
pub const METRIC_MAX: u64 = 0x1fff_ffff_ffff_ffff;

/// Blends the two relevance metrics of a query; a space without neighbours (both metrics
/// 0) scores 0.
pub fn blend(m1: u64, m2: u64) -> (r: u64)
    requires
        m1 <= METRIC_MAX,
        m2 <= METRIC_MAX,
    ensures
        r == blend_of(m1 as nat, m2 as nat),
        m1 == 0 && m2 == 0 ==> r == 0,
{
    let den = 36 * (m2 as u128) + 25 * (m1 as u128);
    if den == 0 {
        0
    } else {
        assert(61 * m1 * m2 <= 61 * (METRIC_MAX as int) * (METRIC_MAX as int)) by (nonlinear_arith)
            requires
                m1 <= METRIC_MAX,
                m2 <= METRIC_MAX,
        ;
        let num = 61 * (m1 as u128) * (m2 as u128);
        assert(num / den <= 3 * m1) by (nonlinear_arith)
            requires
                num == 61 * m1 * m2,
                den == 36 * m2 + 25 * m1,
                den > 0,
        ;
        (num / den) as u64
    }
}

} // verus!
