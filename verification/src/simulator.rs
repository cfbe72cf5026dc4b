//! The pseudo-random source of the trade simulator, and the merge of the
//! simulated trade streams into one time-ordered stream.

use vstd::prelude::*;

verus! {

/// One xorshift step: shifts by 13 left, 7 right, 17 left, each xor-ed in.
pub open spec fn spec_xorshift(x: u64) -> u64 {
    let a = x ^ (x << 13u64);
    let b = a ^ (a >> 7u64);
    b ^ (b << 17u64)
}

/// A nonzero state never steps to zero.
pub proof fn lemma_xorshift_nonzero(x: u64)
    requires
        x != 0,
    ensures
        spec_xorshift(x) != 0,
{
    let a = x ^ (x << 13u64);
    let b = a ^ (a >> 7u64);
    assert(a != 0) by (bit_vector)
        requires
            x != 0,
            a == x ^ (x << 13u64),
    ;
    assert(b != 0) by (bit_vector)
        requires
            a != 0,
            b == a ^ (a >> 7u64),
    ;
    assert(b ^ (b << 17u64) != 0) by (bit_vector)
        requires
            b != 0,
    ;
}

/// Simple pseudo-random number generator using xorshift
pub struct Rng {
    state: u64,
}

impl Rng {
    /// The current state.
    pub closed spec fn state(&self) -> u64 {
        self.state
    }

    #[verifier::type_invariant]
    spec fn state_nonzero(&self) -> bool {
        self.state != 0
    }

    /// A generator seeded with `seed`; a zero seed is replaced by 1, since
    /// zero is a fixed point of the step.
    pub fn new(seed: u64) -> (r: Self)
        ensures
            r.state() == if seed == 0 {
                1u64
            } else {
                seed
            },
    {
        Rng { state: if seed > 1 { seed } else { 1 } }
    }

    /// The next value: the state after one xorshift step.
    pub fn next_u64(&mut self) -> (x: u64)
        ensures
            x == spec_xorshift(old(self).state()),
            final(self).state() == x,
            x != 0,
    {
        proof {
            use_type_invariant(&*self);
            lemma_xorshift_nonzero(self.state);
        }
        let mut x = self.state;
        x = x ^ (x << 13u64);
        x = x ^ (x >> 7u64);
        x = x ^ (x << 17u64);
        self.state = x;
        x
    }
}

/// The number of elements over all streams.
pub open spec fn total_len(ss: Seq<Seq<i64>>) -> int
    decreases ss.len(),
{
    if ss.len() == 0 {
        0
    } else {
        total_len(ss.drop_last()) + ss.last().len()
    }
}

/// The sum of a sequence of positions.
pub open spec fn sum_positions(idx: Seq<usize>) -> int
    decreases idx.len(),
{
    if idx.len() == 0 {
        0
    } else {
        sum_positions(idx.drop_last()) + idx.last()
    }
}

/// The timestamps of a stream never decrease.
pub open spec fn stream_sorted(t: Seq<i64>) -> bool {
    forall|i: int, j: int| 0 <= i <= j < t.len() ==> t[i] <= t[j]
}

/// Every stream is sorted.
pub open spec fn all_sorted(ss: Seq<Seq<i64>>) -> bool {
    forall|s: int| 0 <= s < ss.len() ==> stream_sorted(#[trigger] ss[s])
}

/// A timestamp that the merge takes: anything below `i64::MAX`.
pub open spec fn is_finite(x: i64) -> bool {
    x < i64::MAX
}

/// The timestamp of merge entry `e`.
pub open spec fn entry_ts(ss: Seq<Seq<i64>>, e: (usize, usize)) -> i64 {
    ss[e.0 as int][e.1 as int]
}

/// Entry `e` belongs to stream `s`.
pub open spec fn in_stream(e: (usize, usize), s: int) -> bool {
    e.0 == s
}

proof fn lemma_total_len_prefix(ss: Seq<Seq<i64>>, s: int)
    requires
        0 <= s < ss.len(),
    ensures
        total_len(ss.subrange(0, s + 1)) == total_len(ss.subrange(0, s)) + ss[s].len(),
        total_len(ss.subrange(0, s + 1)) <= total_len(ss),
    decreases ss.len() - s,
{
    assert(ss.subrange(0, s + 1).drop_last() =~= ss.subrange(0, s));
    if s + 1 < ss.len() {
        lemma_total_len_prefix(ss, s + 1);
    } else {
        assert(ss.subrange(0, s + 1) =~= ss);
    }
}

proof fn lemma_sum_positions_update(idx: Seq<usize>, m: int, v: usize)
    requires
        0 <= m < idx.len(),
    ensures
        sum_positions(idx.update(m, v)) == sum_positions(idx) - idx[m] + v,
    decreases idx.len(),
{
    if m < idx.len() - 1 {
        lemma_sum_positions_update(idx.drop_last(), m, v);
        assert(idx.update(m, v).drop_last() =~= idx.drop_last().update(m, v));
    } else {
        assert(idx.update(m, v).drop_last() =~= idx.drop_last());
    }
}

proof fn lemma_sum_positions_zero(n: nat)
    ensures
        sum_positions(Seq::new(n, |i: int| 0usize)) == 0,
    decreases n,
{
    if n > 0 {
        lemma_sum_positions_zero((n - 1) as nat);
        assert(Seq::new(n, |i: int| 0usize).drop_last() =~= Seq::new((n - 1) as nat, |i: int| 0usize));
    }
}

/// Positions bounded by the stream lengths sum to at most the total, and
/// reach it only when every position is at the end of its stream.
proof fn lemma_positions_at_end(ss: Seq<Seq<i64>>, idx: Seq<usize>)
    requires
        idx.len() == ss.len(),
        forall|s: int| 0 <= s < ss.len() ==> idx[s] <= ss[s].len(),
    ensures
        sum_positions(idx) <= total_len(ss),
        sum_positions(idx) == total_len(ss) ==> forall|s: int| 0 <= s < ss.len() ==> idx[s] == ss[s].len(),
    decreases ss.len(),
{
    if ss.len() > 0 {
        let ss2 = ss.drop_last();
        let idx2 = idx.drop_last();
        assert forall|s: int| 0 <= s < ss2.len() implies idx2[s] <= ss2[s].len() by {
            assert(idx2[s] == idx[s] && ss2[s] == ss[s]);
        }
        lemma_positions_at_end(ss2, idx2);
        if sum_positions(idx) == total_len(ss) {
            assert forall|s: int| 0 <= s < ss.len() implies idx[s] == ss[s].len() by {
                if s < ss.len() - 1 {
                    assert(idx2[s] == idx[s] && ss2[s] == ss[s]);
                }
            }
        }
    }
}

/// In a sorted stream whose first `k` timestamps are finite and whose
/// `k`-th (if any) is not, exactly `k` timestamps are finite.
proof fn lemma_finite_prefix_count(t: Seq<i64>, k: int)
    requires
        stream_sorted(t),
        0 <= k <= t.len(),
        forall|i: int| 0 <= i < k ==> is_finite(t[i]),
        k == t.len() || !is_finite(t[k]),
    ensures
        crate::seqs::count_matching(t, |x: i64| is_finite(x)) == k,
    decreases t.len(),
{
    if t.len() > 0 {
        let t2 = t.drop_last();
        if k == t.len() {
            assert(stream_sorted(t2));
            lemma_finite_prefix_count(t2, k - 1);
        } else {
            assert(!is_finite(t.last()));
            assert(stream_sorted(t2));
            if k < t2.len() {
                assert(!is_finite(t2[k]));
            }
            lemma_finite_prefix_count(t2, k);
        }
    }
}

proof fn lemma_count_push_stream(out: Seq<(usize, usize)>, e: (usize, usize), s: int)
    ensures
        crate::seqs::count_matching(out.push(e), |x: (usize, usize)| in_stream(x, s))
            == crate::seqs::count_matching(out, |x: (usize, usize)| in_stream(x, s)) + if e.0 == s {
            1int
        } else {
            0int
        },
{
    assert(out.push(e).drop_last() =~= out);
}

/// The order in which a k-way merge takes the entries of `streams`: a pair
/// `(stream, index)` per entry taken. Each step takes the earliest head,
/// the lowest stream on ties; a timestamp of `i64::MAX` is never taken.
pub fn merge_order(streams: &Vec<Vec<i64>>) -> (out: Vec<(usize, usize)>)
    requires
        total_len(streams.deep_view()) <= usize::MAX,
    ensures
        forall|p: int|
            0 <= p < out@.len() ==> (#[trigger] out@[p]).0 < streams@.len() && out@[p].1 < streams@[out@[p].0 as int]@.len()
                && is_finite(entry_ts(streams.deep_view(), out@[p])),
        forall|p: int, q: int|
            0 <= p < q < out@.len() && (#[trigger] out@[p]).0 == (#[trigger] out@[q]).0 ==> out@[p].1 < out@[q].1,
        all_sorted(streams.deep_view()) ==> forall|p: int, q: int|
            0 <= p <= q < out@.len() ==> entry_ts(streams.deep_view(), #[trigger] out@[p]) <= entry_ts(
                streams.deep_view(),
                #[trigger] out@[q],
            ),
        all_sorted(streams.deep_view()) ==> forall|s: int|
            0 <= s < streams@.len() ==> crate::seqs::count_matching(out@, |x: (usize, usize)| in_stream(x, s))
                == crate::seqs::count_matching(#[trigger] streams.deep_view()[s], |x: i64| is_finite(x)),
        all_sorted(streams.deep_view()) ==> forall|p: int, q: int|
            0 <= p < q < out@.len() && entry_ts(streams.deep_view(), #[trigger] out@[p]) == entry_ts(
                streams.deep_view(),
                #[trigger] out@[q],
            ) ==> out@[p].0 <= out@[q].0,
{
    let ghost ss = streams.deep_view();
    let n = streams.len();
    assert(ss.len() == n);
    assert forall|s: int| 0 <= s < n implies #[trigger] ss[s] == streams@[s]@ by {}
    let mut total: usize = 0;
    let mut s: usize = 0;
    assert(ss.subrange(0, 0) =~= Seq::<Seq<i64>>::empty());
    while s < n
        invariant
            n == ss.len(),
            ss == streams.deep_view(),
            s <= n,
            total == total_len(ss.subrange(0, s as int)),
            total_len(ss) <= usize::MAX,
            forall|u: int| 0 <= u < n ==> #[trigger] ss[u] == streams@[u]@,
        decreases n - s,
    {
        proof {
            lemma_total_len_prefix(ss, s as int);
        }
        total = total + streams[s].len();
        s = s + 1;
    }
    assert(ss.subrange(0, n as int) =~= ss);
    let mut idx: Vec<usize> = Vec::new();
    let mut s: usize = 0;
    while s < n
        invariant
            s <= n,
            idx@ == Seq::new(s as nat, |i: int| 0usize),
        decreases n - s,
    {
        idx.push(0);
        s = s + 1;
        assert(idx@ =~= Seq::new(s as nat, |i: int| 0usize));
    }
    proof {
        lemma_sum_positions_zero(n as nat);
    }
    let mut out: Vec<(usize, usize)> = Vec::new();
    let mut k: usize = 0;
    while k < total
        invariant
            n == ss.len(),
            n == streams@.len(),
            ss == streams.deep_view(),
            forall|u: int| 0 <= u < n ==> #[trigger] ss[u] == streams@[u]@,
            total == total_len(ss),
            idx@.len() == n,
            forall|u: int| 0 <= u < n ==> #[trigger] idx@[u] <= ss[u].len(),
            sum_positions(idx@) == out@.len(),
            out@.len() <= k <= total,
            out@.len() == k || forall|u: int|
                0 <= u < n ==> #[trigger] idx@[u] == ss[u].len() || !is_finite(ss[u][idx@[u] as int]),
            forall|u: int, i: int| 0 <= u < n && 0 <= i < idx@[u] ==> is_finite(#[trigger] ss[u][i]),
            forall|p: int|
                0 <= p < out@.len() ==> (#[trigger] out@[p]).0 < n && out@[p].1 < idx@[out@[p].0 as int],
            forall|p: int, q: int|
                0 <= p < q < out@.len() && (#[trigger] out@[p]).0 == (#[trigger] out@[q]).0 ==> out@[p].1 < out@[q].1,
            forall|u: int|
                0 <= u < n ==> crate::seqs::count_matching(out@, |x: (usize, usize)| in_stream(x, u)) == #[trigger] idx@[u],
            all_sorted(ss) ==> forall|p: int, q: int|
                0 <= p <= q < out@.len() ==> entry_ts(ss, #[trigger] out@[p]) <= entry_ts(ss, #[trigger] out@[q]),
            all_sorted(ss) ==> forall|p: int, u: int|
                0 <= p < out@.len() && 0 <= u < n && idx@[u] < ss[u].len() ==> entry_ts(ss, #[trigger] out@[p])
                    <= #[trigger] ss[u][idx@[u] as int],
            all_sorted(ss) ==> forall|p: int, u: int|
                0 <= p < out@.len() && 0 <= u < n && u < out@[p].0 && idx@[u] < ss[u].len() ==> entry_ts(
                    ss,
                    #[trigger] out@[p],
                ) < #[trigger] ss[u][idx@[u] as int],
            all_sorted(ss) ==> forall|p: int, q: int|
                0 <= p < q < out@.len() && entry_ts(ss, #[trigger] out@[p]) == entry_ts(ss, #[trigger] out@[q])
                    ==> out@[p].0 <= out@[q].0,
        decreases total - k,
    {
        let mut min_ts: i64 = i64::MAX;
        let mut min_stream: Option<usize> = None;
        let mut t: usize = 0;
        while t < n
            invariant
                n == ss.len(),
                n == streams@.len(),
                forall|u: int| 0 <= u < n ==> #[trigger] ss[u] == streams@[u]@,
                idx@.len() == n,
                forall|u: int| 0 <= u < n ==> #[trigger] idx@[u] <= ss[u].len(),
                t <= n,
                min_stream matches Some(m) ==> m < t && idx@[m as int] < ss[m as int].len() && ss[m as int][idx@[m as int] as int]
                    == min_ts && is_finite(min_ts),
                min_stream is None ==> min_ts == i64::MAX,
                forall|u: int|
                    0 <= u < t && #[trigger] idx@[u] < ss[u].len() ==> min_ts <= ss[u][idx@[u] as int],
                min_stream matches Some(mm) ==> forall|u: int|
                    0 <= u < mm && #[trigger] idx@[u] < ss[u].len() ==> min_ts < ss[u][idx@[u] as int],
            decreases n - t,
        {
            let pos = idx[t];
            if pos < streams[t].len() {
                let ts = streams[t][pos];
                if ts < min_ts {
                    min_ts = ts;
                    min_stream = Some(t);
                }
            }
            t = t + 1;
        }
        match min_stream {
            Some(m) => {
                let pos = idx[m];
                let _len = streams[m].len();
                let ghost old_out = out@;
                let ghost old_idx = idx@;
                out.push((m, pos));
                idx.set(m, pos + 1);
                proof {
                    lemma_sum_positions_update(old_idx, m as int, (pos + 1) as usize);
                    assert forall|u: int| 0 <= u < n implies crate::seqs::count_matching(
                        out@,
                        |x: (usize, usize)| in_stream(x, u),
                    ) == #[trigger] idx@[u] by {
                        lemma_count_push_stream(old_out, (m, pos), u);
                    }
                    if all_sorted(ss) {
                        assert(stream_sorted(ss[m as int]));
                        assert forall|p: int, q: int|
                            0 <= p <= q < out@.len() implies entry_ts(ss, #[trigger] out@[p]) <= entry_ts(
                            ss,
                            #[trigger] out@[q],
                        ) by {
                            if q == out@.len() - 1 && p < q {
                                assert(entry_ts(ss, old_out[p]) <= ss[m as int][old_idx[m as int] as int]);
                            }
                        }
                        assert forall|p: int, u: int|
                            0 <= p < out@.len() && 0 <= u < n && idx@[u] < ss[u].len() implies entry_ts(
                            ss,
                            #[trigger] out@[p],
                        ) <= #[trigger] ss[u][idx@[u] as int] by {
                            if u == m {
                                assert(ss[m as int][pos as int] <= ss[m as int][pos + 1]);
                                if p < out@.len() - 1 {
                                    assert(entry_ts(ss, old_out[p]) <= ss[m as int][pos as int]);
                                }
                            } else {
                                if p < out@.len() - 1 {
                                    assert(entry_ts(ss, old_out[p]) <= ss[u][old_idx[u] as int]);
                                }
                            }
                        }
                        assert forall|p: int, u: int|
                            0 <= p < out@.len() && 0 <= u < n && u < out@[p].0 && idx@[u] < ss[u].len() implies entry_ts(
                            ss,
                            #[trigger] out@[p],
                        ) < #[trigger] ss[u][idx@[u] as int] by {
                            if p < out@.len() - 1 {
                                assert(out@[p] == old_out[p]);
                                if u == m {
                                    assert(entry_ts(ss, old_out[p]) < ss[m as int][pos as int]);
                                    assert(ss[m as int][pos as int] <= ss[m as int][pos + 1]);
                                } else {
                                    assert(entry_ts(ss, old_out[p]) < ss[u][old_idx[u] as int]);
                                }
                            } else {
                                assert(out@[p] == (m, pos));
                                assert(idx@[u] == old_idx[u]);
                                assert(min_ts < ss[u][old_idx[u] as int]);
                            }
                        }
                        assert forall|p: int, q: int|
                            0 <= p < q < out@.len() && entry_ts(ss, #[trigger] out@[p]) == entry_ts(ss, #[trigger] out@[q])
                                implies out@[p].0 <= out@[q].0 by {
                            if q == out@.len() - 1 {
                                assert(out@[p] == old_out[p]);
                                assert(out@[q] == (m, pos));
                                if m < old_out[p].0 {
                                    assert(entry_ts(ss, old_out[p]) < ss[m as int][old_idx[m as int] as int]);
                                }
                            } else {
                                assert(out@[p] == old_out[p] && out@[q] == old_out[q]);
                            }
                        }
                    }
                }
            },
            None => {},
        }
        k = k + 1;
    }
    proof {
        lemma_positions_at_end(ss, idx@);
        if all_sorted(ss) {
            assert forall|u: int| 0 <= u < n implies crate::seqs::count_matching(
                out@,
                |x: (usize, usize)| in_stream(x, u),
            ) == crate::seqs::count_matching(#[trigger] ss[u], |x: i64| is_finite(x)) by {
                assert(stream_sorted(ss[u]));
                lemma_finite_prefix_count(ss[u], idx@[u] as int);
            }
        }
    }
    out
}

/// How many emissions fall due from `next` up to `now`, one every
/// `interval` nanoseconds.
pub open spec fn due_count(next: int, interval: int, now: int) -> int {
    if next > now {
        0
    } else {
        (now - next) / interval + 1
    }
}

/// The emission times that fall due up to `now_ns` on a schedule that next
/// emits at `next_emit_ns` and then every `interval_ns`, and the time of the
/// first emission after them.
pub fn emission_times(next_emit_ns: i64, interval_ns: i64, now_ns: i64) -> (r: (Vec<i64>, i64))
    requires
        interval_ns > 0,
        next_emit_ns <= now_ns ==> now_ns + interval_ns <= i64::MAX,
    ensures
        r.0@.len() == due_count(next_emit_ns as int, interval_ns as int, now_ns as int),
        forall|k: int| 0 <= k < r.0@.len() ==> #[trigger] r.0@[k] == next_emit_ns + k * interval_ns,
        r.1 == next_emit_ns + r.0@.len() * interval_ns,
        r.1 > now_ns,
{
    let mut times: Vec<i64> = Vec::new();
    let mut next = next_emit_ns;
    assert(times@.len() * interval_ns == 0);
    while next <= now_ns
        invariant
            interval_ns > 0,
            next_emit_ns <= now_ns ==> now_ns + interval_ns <= i64::MAX,
            next == next_emit_ns + times@.len() * interval_ns,
            next_emit_ns <= next,
            next_emit_ns <= now_ns ==> next <= now_ns + interval_ns,
            next > now_ns ==> times@.len() == due_count(next_emit_ns as int, interval_ns as int, now_ns as int),
            next <= now_ns ==> times@.len() < due_count(next_emit_ns as int, interval_ns as int, now_ns as int),
            forall|k: int| 0 <= k < times@.len() ==> #[trigger] times@[k] == next_emit_ns + k * interval_ns,
        decreases now_ns + interval_ns - next,
    {
        let ghost n = times@.len();
        times.push(next);
        next = next + interval_ns;
        proof {
            let c = due_count(next_emit_ns as int, interval_ns as int, now_ns as int);
            let d: int = now_ns - next_emit_ns;
            let iv: int = interval_ns as int;
            assert(next == next_emit_ns + (n + 1) * interval_ns) by (nonlinear_arith)
                requires
                    next == next_emit_ns + n * interval_ns + interval_ns,
            ;
            assert(c == d / iv + 1);
            if next > now_ns {
                assert(n + 1 == c) by (nonlinear_arith)
                    requires
                        next_emit_ns + n * interval_ns <= now_ns,
                        next_emit_ns + (n + 1) * interval_ns > now_ns,
                        c == d / iv + 1,
                        d == now_ns - next_emit_ns,
                        iv == interval_ns,
                        interval_ns > 0,
                        n >= 0,
                ;
            } else {
                assert(n + 1 < c) by (nonlinear_arith)
                    requires
                        next_emit_ns + (n + 1) * interval_ns <= now_ns,
                        c == d / iv + 1,
                        d == now_ns - next_emit_ns,
                        iv == interval_ns,
                        interval_ns > 0,
                        n >= 0,
                ;
            }
        }
    }
    (times, next)
}

} // verus!
