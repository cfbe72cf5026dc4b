//! Evenly spaced samples of a file's records, as the decoders show them.

use vstd::prelude::*;

verus! {

/// Every `total / n`-th position, `n` of them, stopping at the end of the
/// records: positions `i * (total / n)` for `i < n`, none when there are no
/// records.
pub fn spaced_sample(total: u64, n: usize) -> (r: Vec<u64>)
    requires
        n > 0,
    ensures
        r@.len() == if total == 0 {
            0
        } else {
            n as int
        },
        forall|i: int| 0 <= i < r@.len() ==> #[trigger] r@[i] == i * (total / n as u64),
{
    let step = total / (n as u64);
    let mut r: Vec<u64> = Vec::new();
    let mut i: usize = 0;
    while i < n
        invariant
            i <= n,
            n > 0,
            step == total / (n as u64),
            total == 0 ==> r@.len() == 0,
            total > 0 ==> r@.len() == i,
            forall|k: int| 0 <= k < r@.len() ==> #[trigger] r@[k] == k * step,
        decreases n - i,
    {
        assert(i * step <= total) by (nonlinear_arith)
            requires
                i < n,
                step == total / (n as u64),
                n > 0,
        ;
        let idx = (i as u64) * step;
        if idx >= total {
            assert(total == 0) by (nonlinear_arith)
                requires
                    idx == i * step,
                    idx >= total,
                    i < n,
                    step == total / (n as u64),
                    n > 0,
            ;
            return r;
        }
        r.push(idx);
        i = i + 1;
    }
    r
}

/// `n` positions at least one record apart (`total / n` apart when there
/// are enough), clipped to the last record.
pub fn clamped_sample(total: u64, n: usize) -> (r: Vec<u64>)
    requires
        n > 0,
        total > 0,
    ensures
        r@.len() == n,
        forall|i: int|
            0 <= i < n ==> #[trigger] r@[i] == if i * (if total / n as u64 > 1 {
                total / n as u64
            } else {
                1
            }) < total - 1 {
                i * (if total / n as u64 > 1 {
                    total / n as u64
                } else {
                    1
                })
            } else {
                total - 1
            },
{
    let q = total / (n as u64);
    let step: u64 = if q > 1 {
        q
    } else {
        1
    };
    let mut r: Vec<u64> = Vec::new();
    let mut i: usize = 0;
    while i < n
        invariant
            i <= n,
            n > 0,
            total > 0,
            q == total / (n as u64),
            step == (if q > 1 {
                q
            } else {
                1
            }),
            r@.len() == i,
            forall|k: int|
                0 <= k < i ==> #[trigger] r@[k] == if k * step < total - 1 {
                    k * step
                } else {
                    total - 1
                },
        decreases n - i,
    {
        assert(i * step <= u64::MAX) by (nonlinear_arith)
            requires
                i < n,
                q == total / (n as u64),
                step == (if q > 1 {
                    q
                } else {
                    1
                }),
                n > 0,
                n <= u64::MAX,
        ;
        let raw = (i as u64) * step;
        let idx = if raw < total - 1 {
            raw
        } else {
            total - 1
        };
        r.push(idx);
        i = i + 1;
    }
    r
}

/// The index of the first of the last `n` of `total` records: 0 when there
/// are no more than `n`.
pub fn tail_start(total: u64, n: usize) -> (r: u64)
    ensures
        r == if total > n { total - n } else { 0 },
{
    let k = n as u64;
    if total > k {
        total - k
    } else {
        0
    }
}

} // verus!
