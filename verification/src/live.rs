//! The integer side of live bar building: which window a timestamp falls
//! in, how finer bars group into coarser windows, and the bounded history of
//! completed bars.

use vstd::prelude::*;
use std::collections::VecDeque;

verus! {

/// Division rounding toward zero, as `/` on signed integers does.
pub open spec fn trunc_div(a: int, b: int) -> int {
    if a >= 0 {
        a / b
    } else {
        -((-a) / b)
    }
}

/// The start of the window of width `interval` that holds `ts`: `ts`
/// rounded toward zero to a multiple of `interval`.
pub open spec fn spec_bar_start(ts: int, interval: int) -> int {
    trunc_div(ts, interval) * interval
}

/// A bar holds the time it was started for: a non-negative time lies in
/// `start..start + interval`, and a negative time is rounded up toward zero,
/// never past it.
pub proof fn lemma_bar_start_bounds(ts: int, interval: int)
    requires
        interval > 0,
    ensures
        ts >= 0 ==> 0 <= spec_bar_start(ts, interval) <= ts,
        ts < 0 ==> ts <= spec_bar_start(ts, interval) <= 0,
        ts >= 0 ==> ts < spec_bar_start(ts, interval) + interval,
{
    if ts >= 0 {
        let q = ts / interval;
        let r = ts % interval;
        vstd::arithmetic::div_mod::lemma_fundamental_div_mod(ts, interval);
        vstd::arithmetic::div_mod::lemma_div_pos_is_pos(ts, interval);
        vstd::arithmetic::div_mod::lemma_mod_pos_bound(ts, interval);
        assert(0 <= q * interval <= ts < q * interval + interval) by (nonlinear_arith)
            requires
                ts == interval * q + r,
                0 <= r < interval,
                q >= 0,
                interval > 0,
        ;
    } else {
        let q = (-ts) / interval;
        let r = (-ts) % interval;
        vstd::arithmetic::div_mod::lemma_fundamental_div_mod(-ts, interval);
        vstd::arithmetic::div_mod::lemma_div_pos_is_pos(-ts, interval);
        vstd::arithmetic::div_mod::lemma_mod_pos_bound(-ts, interval);
        assert(0 <= q * interval <= -ts) by (nonlinear_arith)
            requires
                -ts == interval * q + r,
                0 <= r,
                q >= 0,
                interval > 0,
        ;
        assert(trunc_div(ts, interval) * interval == -(q * interval)) by (nonlinear_arith)
            requires
                trunc_div(ts, interval) == -q,
        ;
    }
}

/// The start of the window of width `interval_ns` that holds `ts`.
pub fn bar_start(ts: i64, interval_ns: i64) -> (r: i64)
    requires
        interval_ns > 0,
    ensures
        r == spec_bar_start(ts as int, interval_ns as int),
{
    proof {
        lemma_bar_start_bounds(ts as int, interval_ns as int);
    }
    let q = ts / interval_ns;
    assert(q * interval_ns == spec_bar_start(ts as int, interval_ns as int));
    q * interval_ns
}

/// The position of `interval` among `intervals`, if it is there.
pub fn lane_position(intervals: &[u64], interval: u64) -> (r: Option<usize>)
    ensures
        match r {
            Some(i) => i < intervals@.len() && intervals@[i as int] == interval && forall|j: int|
                0 <= j < i ==> intervals@[j] != interval,
            None => forall|j: int| 0 <= j < intervals@.len() ==> intervals@[j] != interval,
        },
{
    let mut i: usize = 0;
    while i < intervals.len()
        invariant
            i <= intervals@.len(),
            forall|j: int| 0 <= j < i ==> intervals@[j] != interval,
        decreases intervals@.len() - i,
    {
        if intervals[i] == interval {
            return Some(i);
        }
        i = i + 1;
    }
    None
}

/// A completed window of finer bars: its start and the positions
/// `from..to` of the bars it covers.
pub type Window = (i64, usize, usize);

/// The windows that the bars at `ts[0..n]` close, building windows of
/// width `interval` in order; `open` is the window still being filled, as
/// (start, end, first position).
pub open spec fn windows_upto(ts: Seq<i64>, n: int, interval: int) -> (Seq<(int, int, int)>, Option<(int, int, int)>)
    decreases n,
{
    if n <= 0 {
        (Seq::empty(), None)
    } else {
        let (closed, open) = windows_upto(ts, n - 1, interval);
        let i = n - 1;
        let start = spec_bar_start(ts[i] as int, interval);
        match open {
            None => (closed, Some((start, start + interval, i))),
            Some((s, e, first)) => if ts[i] >= e {
                (closed.push((s, first, i)), Some((start, start + interval, i)))
            } else {
                (closed, open)
            },
        }
    }
}

/// The window of `w` as plain integers.
pub open spec fn window_view(w: Window) -> (int, int, int) {
    (w.0 as int, w.1 as int, w.2 as int)
}

/// Group bars timestamped `ts` into windows of width `interval_ns`, in
/// order: a bar at or past the end of the current window closes it and opens
/// the window that holds it. Returns the closed windows; the last, still open
/// window is left out.
pub fn closed_windows(ts: &[i64], interval_ns: i64) -> (r: Vec<Window>)
    requires
        interval_ns > 0,
        forall|i: int| 0 <= i < ts@.len() ==> #[trigger] ts@[i] <= i64::MAX - interval_ns,
    ensures
        r@.map_values(|w: Window| window_view(w)) == windows_upto(ts@, ts@.len() as int, interval_ns as int).0,
{
    let mut r: Vec<Window> = Vec::new();
    let mut open: Option<(i64, i64, usize)> = None;
    let mut i: usize = 0;
    while i < ts.len()
        invariant
            interval_ns > 0,
            i <= ts@.len(),
            forall|k: int| 0 <= k < ts@.len() ==> #[trigger] ts@[k] <= i64::MAX - interval_ns,
            r@.map_values(|w: Window| window_view(w)) == windows_upto(ts@, i as int, interval_ns as int).0,
            match open {
                None => windows_upto(ts@, i as int, interval_ns as int).1 is None,
                Some((s, e, f)) => windows_upto(ts@, i as int, interval_ns as int).1 == Some((s as int, e as int, f as int)),
            },
        decreases ts@.len() - i,
    {
        let t = ts[i];
        let start = bar_start(t, interval_ns);
        proof {
            lemma_bar_start_bounds(t as int, interval_ns as int);
        }
        let end = start + interval_ns;
        let ghost before = r@.map_values(|w: Window| window_view(w));
        match open {
            None => {
                open = Some((start, end, i));
            },
            Some((s, e, first)) => {
                if t >= e {
                    r.push((s, first, i));
                    assert(r@.map_values(|w: Window| window_view(w)) =~= before.push((s as int, first as int, i as int)));
                    open = Some((start, end, i));
                }
            },
        }
        i = i + 1;
    }
    r
}

/// The last `max` items of `s` (all of them when there are fewer).
pub open spec fn keep_last<T>(s: Seq<T>, max: nat) -> Seq<T> {
    if s.len() <= max {
        s
    } else {
        s.subrange(s.len() - max, s.len() as int)
    }
}

/// The most recent completed bars of a lane, at most `max` of them.
pub struct CompletedBars<T> {
    bars: VecDeque<T>,
    max: usize,
}

impl<T: Copy> CompletedBars<T> {
    /// The bars held, oldest first.
    pub closed spec fn view(&self) -> Seq<T> {
        self.bars@
    }

    /// How many bars are kept at most.
    pub closed spec fn limit(&self) -> nat {
        self.max as nat
    }

    /// An empty history keeping at most `max` bars.
    pub fn new(max: usize) -> (c: Self)
        ensures
            c@ == Seq::<T>::empty(),
            c.limit() == max,
    {
        CompletedBars { bars: VecDeque::new(), max }
    }

    /// Append a completed bar; the oldest bar goes when there are more than
    /// the limit.
    pub fn push(&mut self, bar: T)
        requires
            old(self)@.len() <= old(self).limit(),
        ensures
            final(self).limit() == old(self).limit(),
            final(self)@ == keep_last(old(self)@.push(bar), old(self).limit()),
            final(self)@.len() <= final(self).limit(),
    {
        let ghost pushed = self.bars@.push(bar);
        self.bars.push_back(bar);
        if self.bars.len() > self.max {
            self.bars.pop_front();
            assert(self.bars@ =~= pushed.subrange(pushed.len() - self.max, pushed.len() as int));
        }
    }

    /// Remove every bar.
    pub fn clear(&mut self)
        ensures
            final(self).limit() == old(self).limit(),
            final(self)@ == Seq::<T>::empty(),
    {
        self.bars.clear();
    }

    /// How many bars are held.
    pub fn len(&self) -> (n: usize)
        ensures
            n == self@.len(),
    {
        self.bars.len()
    }

    /// The bars held, oldest first.
    pub fn to_vec(&self) -> (v: Vec<T>)
        ensures
            v@ == self@,
    {
        let mut v: Vec<T> = Vec::new();
        let mut i: usize = 0;
        while i < self.bars.len()
            invariant
                i <= self.bars@.len(),
                v@ == self.bars@.subrange(0, i as int),
            decreases self.bars@.len() - i,
        {
            v.push(self.bars[i]);
            i = i + 1;
            assert(v@ =~= self.bars@.subrange(0, i as int));
        }
        assert(self.bars@.subrange(0, i as int) =~= self.bars@);
        v
    }

    /// Drain old completed bars, keeping only the last `keep_last`: returns
    /// the drained ones, oldest first.
    pub fn drain_old(&mut self, keep_last: usize) -> (drained: Vec<T>)
        ensures
            final(self).limit() == old(self).limit(),
            old(self)@.len() <= keep_last ==> drained@ == Seq::<T>::empty() && final(self)@ == old(self)@,
            old(self)@.len() > keep_last ==> drained@ == old(self)@.subrange(0, old(self)@.len() - keep_last)
                && final(self)@ == old(self)@.subrange(old(self)@.len() - keep_last, old(self)@.len() as int),
    {
        let mut drained: Vec<T> = Vec::new();
        if self.bars.len() <= keep_last {
            return drained;
        }
        let drain_count = self.bars.len() - keep_last;
        let ghost orig = self.bars@;
        let mut k: usize = 0;
        while k < drain_count
            invariant
                k <= drain_count,
                drain_count == orig.len() - keep_last,
                drain_count <= orig.len(),
                self.max == old(self).max,
                drained@ == orig.subrange(0, k as int),
                self.bars@ == orig.subrange(k as int, orig.len() as int),
            decreases drain_count - k,
        {
            let b = self.bars.pop_front().unwrap();
            drained.push(b);
            k = k + 1;
            assert(drained@ =~= orig.subrange(0, k as int));
            assert(self.bars@ =~= orig.subrange(k as int, orig.len() as int));
        }
        drained
    }
}

} // verus!
