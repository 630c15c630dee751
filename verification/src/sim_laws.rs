//! Laws of the simulator's never-acknowledge cohort.

use vstd::prelude::*;
use crate::sim::never_acks;

verus! {

/// How many of the `n` simulated clients from index `lo` on never
/// acknowledge, under the percentage `p`.
pub open spec fn cohort_count(lo: nat, n: nat, p: u64) -> nat
    decreases n,
{
    if n == 0 {
        0
    } else {
        cohort_count(lo, (n - 1) as nat, p) + if never_acks((lo + n - 1) as u64, p) {
            1nat
        } else {
            0nat
        }
    }
}

proof fn lemma_no_cohort_without_share(lo: nat, n: nat)
    ensures
        cohort_count(lo, n, 0) == 0,
    decreases n,
{
    if n > 0 {
        lemma_no_cohort_without_share(lo, (n - 1) as nat);
    }
}

/// `x` is `100 * q + m` with `m` below a hundred: `x / 100` is `q`.
proof fn lemma_div_100(x: int, q: int, m: int)
    requires
        x == 100 * q + m,
        0 <= m < 100,
    ensures
        x / 100 == q,
        x % 100 == m,
{
    vstd::arithmetic::div_mod::lemma_fundamental_div_mod_converse(x, 100, q, m);
}

/// Stepping `r` by one, `r * p / 100` grows by one exactly when the
/// remainder of `r * p` is below `p`, and else stays.
proof fn lemma_step(r: int, p: int)
    requires
        0 <= r,
        1 <= p <= 100,
    ensures
        ((r * p) % 100 < p) ==> (r * p) / 100 - ((r - 1) * p) / 100 == 1,
        !((r * p) % 100 < p) ==> (r * p) / 100 - ((r - 1) * p) / 100 == 0,
{
    let q = (r * p) / 100;
    let m = (r * p) % 100;
    assert(r * p == 100 * q + m && 0 <= m < 100) by {
        vstd::arithmetic::div_mod::lemma_fundamental_div_mod(r * p, 100);
    }
    assert((r - 1) * p == r * p - p) by (nonlinear_arith);
    if m < p {
        lemma_div_100((r - 1) * p, q - 1, 100 + m - p);
    } else {
        lemma_div_100((r - 1) * p, q, m - p);
    }
}

/// Counted from a multiple of a hundred, the first `n` clients hold
/// `(n - 1) * p / 100 + 1` of the cohort.
proof fn lemma_cohort_prefix(k: nat, n: nat, p: u64)
    requires
        1 <= p <= 100,
        n <= 100,
        100 * (k + 1) * p < 0x1_0000_0000_0000_0000,
    ensures
        cohort_count(100 * k, n, p) == ((n - 1) * p) / 100 + 1,
    decreases n,
{
    if n == 0 {
        lemma_div_100(-(p as int), -1, 100 - p);
    } else {
        lemma_cohort_prefix(k, (n - 1) as nat, p);
        let r: int = n - 1;
        let i: int = 100 * k + r;
        assert(i * p < 0x1_0000_0000_0000_0000) by (nonlinear_arith)
            requires
                0 <= r < 100,
                i == 100 * k + r,
                1 <= p,
                100 * (k + 1) * p < 0x1_0000_0000_0000_0000,
        ;
        assert(i < 0x1_0000_0000_0000_0000) by (nonlinear_arith)
            requires
                i * p < 0x1_0000_0000_0000_0000,
                1 <= p,
                0 <= i,
        ;
        assert((i as u64) as int == i);
        assert(i * p == 100 * (k * p) + r * p) by (nonlinear_arith)
            requires
                i == 100 * k + r,
        ;
        let q = (r * p) / 100;
        let m = (r * p) % 100;
        assert(r * p == 100 * q + m && 0 <= m < 100) by {
            vstd::arithmetic::div_mod::lemma_fundamental_div_mod(r * p, 100);
        }
        lemma_div_100(i * p, k * p + q, m);
        assert(((i as u64) as nat * p as nat) % 0x1_0000_0000_0000_0000 == i * p) by {
            vstd::arithmetic::div_mod::lemma_small_mod((i * p) as nat, 0x1_0000_0000_0000_0000);
        }
        lemma_step(r, p as int);
    }
}

/// Of every hundred consecutive simulated clients from a multiple of a
/// hundred on, exactly `p` never acknowledge under the percentage `p`, as
/// long as index times percentage does not wrap.
pub proof fn law_never_ack_cohort_per_hundred(k: nat, p: u64)
    requires
        p <= 100,
        100 * (k + 1) * p < 0x1_0000_0000_0000_0000,
    ensures
        cohort_count(100 * k, 100, p) == p,
{
    if p == 0 {
        lemma_no_cohort_without_share(100 * k, 100);
    } else {
        lemma_cohort_prefix(k, 100, p);
        lemma_div_100(99 * p, p - 1, 100 - p);
    }
}

/// Whether a client is in the cohort depends on its index alone, so the
/// count over a range is the count over its two halves, however a fleet
/// is split across replicas.
pub proof fn law_never_ack_cohort_splits(lo: nat, m: nat, n: nat, p: u64)
    ensures
        cohort_count(lo, m + n, p) == cohort_count(lo, m, p) + cohort_count(lo + m, n, p),
    decreases n,
{
    if n > 0 {
        law_never_ack_cohort_splits(lo, m, (n - 1) as nat, p);
        assert(lo + (m + n) - 1 == (lo + m) + n - 1);
    }
}

} // verus!
