//! Bookkeeping of the levels of a level store: what span of time each holds.

use vstd::prelude::*;
use std::collections::HashMap;

verus! {

/// Metadata for a level
#[derive(Debug, Clone, Copy)]
pub struct LevelInfo {
    /// First timestamp in the level
    pub first_ts: i64,
    /// Last timestamp in the level
    pub last_ts: i64,
    /// Bucket span in seconds
    pub bucket_span_secs: u64,
}

/// The metadata of a level after data spanning `new_first..new_last` is
/// appended: a new level gets exactly that span; an existing one widens to
/// cover it.
pub open spec fn spec_widened(existing: Option<LevelInfo>, interval: u64, new_first: i64, new_last: i64) -> LevelInfo {
    match existing {
        None => LevelInfo { first_ts: new_first, last_ts: new_last, bucket_span_secs: interval },
        Some(info) => LevelInfo {
            first_ts: if new_first < info.first_ts {
                new_first
            } else {
                info.first_ts
            },
            last_ts: if new_last > info.last_ts {
                new_last
            } else {
                info.last_ts
            },
            bucket_span_secs: info.bucket_span_secs,
        },
    }
}

/// The metadata of a level after appending data spanning
/// `new_first..new_last` (see `spec_widened`).
pub fn widen_level_info(existing: Option<LevelInfo>, interval: u64, new_first: i64, new_last: i64) -> (r: LevelInfo)
    ensures
        r == spec_widened(existing, interval, new_first, new_last),
{
    let mut info = match existing {
        Some(i) => i,
        None => LevelInfo { first_ts: new_first, last_ts: new_last, bucket_span_secs: interval },
    };
    if new_first < info.first_ts {
        info.first_ts = new_first;
    }
    if new_last > info.last_ts {
        info.last_ts = new_last;
    }
    info
}

/// Appending never narrows a level, and it covers what was appended.
pub proof fn lemma_widened_covers(existing: Option<LevelInfo>, interval: u64, new_first: i64, new_last: i64)
    ensures
        spec_widened(existing, interval, new_first, new_last).first_ts <= new_first,
        spec_widened(existing, interval, new_first, new_last).last_ts >= new_last,
        existing matches Some(info) ==> spec_widened(existing, interval, new_first, new_last).first_ts <= info.first_ts
            && spec_widened(existing, interval, new_first, new_last).last_ts >= info.last_ts,
{
}

/// The entry of `m` under `k`, if any.
pub open spec fn entry_of(m: Map<u64, LevelInfo>, k: u64) -> Option<LevelInfo> {
    if m.contains_key(k) {
        Some(m[k])
    } else {
        None
    }
}

/// The span of each level of a store, by the level's interval in seconds.
pub struct LevelIndex {
    info: HashMap<u64, LevelInfo>,
}

impl LevelIndex {
    /// The recorded spans.
    pub closed spec fn view(&self) -> Map<u64, LevelInfo> {
        self.info@
    }

    /// An index with no levels.
    pub fn new() -> (r: Self)
        ensures
            r@ == Map::<u64, LevelInfo>::empty(),
    {
        LevelIndex { info: HashMap::new() }
    }

    /// The span recorded for `interval`.
    pub fn get(&self, interval: u64) -> (r: Option<&LevelInfo>)
        ensures
            match r {
                Some(i) => entry_of(self@, interval) == Some(*i),
                None => entry_of(self@, interval) is None,
            },
    {
        broadcast use vstd::std_specs::hash::group_hash_axioms;

        self.info.get(&interval)
    }

    /// Record `info` for `interval`, replacing what was there.
    pub fn set(&mut self, interval: u64, info: LevelInfo)
        ensures
            final(self)@ == old(self)@.insert(interval, info),
    {
        broadcast use vstd::std_specs::hash::group_hash_axioms;

        self.info.insert(interval, info);
    }

    /// Record that data spanning `new_first..new_last` was appended to the
    /// level of `interval` (see `spec_widened`).
    pub fn widen(&mut self, interval: u64, new_first: i64, new_last: i64)
        ensures
            final(self)@ == old(self)@.insert(
                interval,
                spec_widened(entry_of(old(self)@, interval), interval, new_first, new_last),
            ),
    {
        broadcast use vstd::std_specs::hash::group_hash_axioms;

        let existing = match self.info.get(&interval) {
            Some(i) => Some(*i),
            None => None,
        };
        let info = widen_level_info(existing, interval, new_first, new_last);
        self.info.insert(interval, info);
    }
}

/// The values of `s` in strictly ascending order, each once.
pub open spec fn strictly_ascending(s: Seq<u64>) -> bool {
    forall|i: int, j: int| 0 <= i < j < s.len() ==> s[i] < s[j]
}

/// The distinct values of `v`, ascending (the intervals of a store, sorted).
pub fn sorted_distinct(v: &[u64]) -> (r: Vec<u64>)
    ensures
        strictly_ascending(r@),
        forall|x: u64| r@.contains(x) <==> v@.contains(x),
{
    let mut out: Vec<u64> = Vec::new();
    let mut i: usize = 0;
    while i < v.len()
        invariant
            i <= v@.len(),
            strictly_ascending(out@),
            forall|x: u64| out@.contains(x) <==> v@.subrange(0, i as int).contains(x),
        decreases v@.len() - i,
    {
        let x = v[i];
        let ghost before = out@;
        let mut p: usize = 0;
        while p < out.len() && out[p] < x
            invariant
                p <= out@.len(),
                out@ == before,
                forall|k: int| 0 <= k < p ==> out@[k] < x,
            decreases out@.len() - p,
        {
            p = p + 1;
        }
        let present = p < out.len() && out[p] == x;
        if !present {
            out.insert(p, x);
            assert forall|a: int, b: int| 0 <= a < b < out@.len() implies out@[a] < out@[b] by {
                if b < p {
                    assert(out@[a] == before[a] && out@[b] == before[b]);
                } else if b == p {
                    assert(out@[a] == before[a]);
                } else if a < p {
                    assert(out@[b] == before[b - 1]);
                    assert(before[a] < before[b - 1] || a == b - 1);
                } else if a == p {
                    assert(out@[b] == before[b - 1]);
                    assert(before[p as int] >= x);
                    assert(before[p as int] != x);
                    assert(before[p as int] <= before[b - 1]) by {
                        if p as int != b - 1 {
                            assert(before[p as int] < before[b - 1]);
                        }
                    }
                } else {
                    assert(out@[a] == before[a - 1] && out@[b] == before[b - 1]);
                }
            }
        }
        let ghost prefix = v@.subrange(0, i + 1);
        assert(prefix =~= v@.subrange(0, i as int).push(x));
        assert forall|y: u64| out@.contains(y) <==> prefix.contains(y) by {
            if out@.contains(y) {
                let k = choose|k: int| 0 <= k < out@.len() && out@[k] == y;
                if y != x {
                    if out@.len() == before.len() {
                        assert(before[k] == y);
                    } else if k < p {
                        assert(before[k] == y);
                    } else {
                        assert(before[k - 1] == y);
                    }
                    assert(before.contains(y));
                    let j = choose|j: int| 0 <= j < i && v@.subrange(0, i as int)[j] == y;
                    assert(prefix[j] == y);
                } else {
                    assert(prefix[i as int] == y);
                }
            }
            if prefix.contains(y) {
                let j = choose|j: int| 0 <= j < prefix.len() && prefix[j] == y;
                if y == x {
                    if out@.len() == before.len() {
                        assert(out@[p as int] == x);
                    } else {
                        assert(out@[p as int] == x);
                    }
                } else {
                    assert(j < i);
                    assert(v@.subrange(0, i as int)[j] == y);
                    assert(before.contains(y));
                    let k = choose|k: int| 0 <= k < before.len() && before[k] == y;
                    if out@.len() == before.len() {
                        assert(out@[k] == y);
                    } else if k < p {
                        assert(out@[k] == y);
                    } else {
                        assert(out@[k + 1] == y);
                    }
                }
            }
        }
        i = i + 1;
    }
    assert(v@.subrange(0, v@.len() as int) =~= v@);
    out
}

} // verus!
