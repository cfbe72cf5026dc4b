//! Binary search by timestamp over fixed-size records laid out in a byte
//! buffer, such as a mapped file: record `i` starts at
//! `data_offset + i * stride` and begins with its little-endian `u64`
//! timestamp.

use vstd::prelude::*;
use vstd::bytes::*;
use crate::codec::read_u64_at;

verus! {

/// Record `i` lies wholly inside a buffer of `len` bytes.
pub open spec fn slot_fits(len: int, data_offset: int, stride: int, i: int) -> bool {
    data_offset + i * stride + stride <= len
}

/// The timestamp of record `i`.
pub open spec fn key_at(b: Seq<u8>, data_offset: int, stride: int, i: int) -> u64 {
    spec_u64_from_le_bytes(b.subrange(data_offset + i * stride, data_offset + i * stride + 8))
}

/// All `count` records lie inside the buffer.
pub open spec fn all_fit(b: Seq<u8>, data_offset: int, stride: int, count: int) -> bool {
    data_offset + count * stride <= b.len()
}

/// The timestamps of the first `count` records never decrease.
pub open spec fn keys_sorted(b: Seq<u8>, data_offset: int, stride: int, count: int) -> bool {
    forall|i: int, j: int|
        0 <= i <= j < count ==> #[trigger] key_at(b, data_offset, stride, i) <= #[trigger] key_at(
            b,
            data_offset,
            stride,
            j,
        )
}

/// The timestamps of the first `count` records strictly increase.
pub open spec fn keys_strictly_sorted(b: Seq<u8>, data_offset: int, stride: int, count: int) -> bool {
    forall|i: int, j: int|
        0 <= i < j < count ==> #[trigger] key_at(b, data_offset, stride, i) < #[trigger] key_at(
            b,
            data_offset,
            stride,
            j,
        )
}

proof fn lemma_slot_bounds(data_offset: int, stride: int, i: int, count: int)
    requires
        0 <= i < count,
        stride >= 8,
        data_offset >= 0,
    ensures
        data_offset + i * stride + stride <= data_offset + count * stride,
        0 <= i * stride,
        i <= i * stride,
        count <= count * stride,
{
    assert(i <= i * stride && count <= count * stride) by (nonlinear_arith)
        requires
            0 <= i < count,
            stride >= 8,
    ;
    assert(i * stride + stride <= count * stride) by (nonlinear_arith)
        requires
            0 <= i < count,
            stride >= 8,
    ;
    assert(0 <= i * stride) by (nonlinear_arith)
        requires
            0 <= i,
            stride >= 8,
    ;
}

/// Binary search for `target_ts` among `record_count` records. `Ok(i)` names
/// a record with that timestamp; `Err(i)` is where it would be inserted. The
/// search stops early at a record that does not fit in the buffer.
pub fn find_timestamp(bytes: &[u8], data_offset: usize, stride: usize, record_count: u64, target_ts: u64) -> (r:
    Result<u64, u64>)
    requires
        stride >= 8,
        data_offset + record_count * stride <= usize::MAX,
    ensures
        r matches Ok(i) ==> i < record_count && slot_fits(bytes@.len() as int, data_offset as int, stride as int, i as int)
            && key_at(bytes@, data_offset as int, stride as int, i as int) == target_ts,
        r matches Err(i) ==> i <= record_count,
        all_fit(bytes@, data_offset as int, stride as int, record_count as int) && keys_sorted(
            bytes@,
            data_offset as int,
            stride as int,
            record_count as int,
        ) ==> match r {
            Ok(_) => true,
            Err(i) => (forall|j: int|
                0 <= j < i ==> #[trigger] key_at(bytes@, data_offset as int, stride as int, j) < target_ts)
                && (forall|j: int|
                i <= j < record_count ==> #[trigger] key_at(bytes@, data_offset as int, stride as int, j)
                > target_ts),
        },
{
    let len = bytes.len();
    let ghost b = bytes@;
    let ghost good = all_fit(b, data_offset as int, stride as int, record_count as int) && keys_sorted(
        b,
        data_offset as int,
        stride as int,
        record_count as int,
    );
    let mut left: u64 = 0;
    let mut right: u64 = record_count;
    while left < right
        invariant
            len == b.len(),
            b == bytes@,
            stride >= 8,
            data_offset + record_count * stride <= usize::MAX,
            left <= right <= record_count,
            good == (all_fit(b, data_offset as int, stride as int, record_count as int) && keys_sorted(
                b,
                data_offset as int,
                stride as int,
                record_count as int,
            )),
            good ==> (forall|j: int|
                0 <= j < left ==> #[trigger] key_at(b, data_offset as int, stride as int, j) < target_ts),
            good ==> (forall|j: int|
                right <= j < record_count ==> #[trigger] key_at(b, data_offset as int, stride as int, j)
                > target_ts),
        decreases right - left,
    {
        let mid = left + (right - left) / 2;
        proof {
            lemma_slot_bounds(data_offset as int, stride as int, mid as int, record_count as int);
        }
        let start = data_offset + (mid as usize) * stride;
        if start > len || stride > len - start {
            assert(!good);
            return Err(left);
        }
        let key = read_u64_at(bytes, start);
        assert(key == key_at(b, data_offset as int, stride as int, mid as int));
        if key < target_ts {
            assert(good ==> forall|j: int|
                0 <= j <= mid ==> #[trigger] key_at(b, data_offset as int, stride as int, j) < target_ts) by {
                if good {
                    assert forall|j: int| 0 <= j <= mid implies #[trigger] key_at(b, data_offset as int, stride as int, j)
                        < target_ts by {
                        assert(key_at(b, data_offset as int, stride as int, j) <= key_at(
                            b,
                            data_offset as int,
                            stride as int,
                            mid as int,
                        ));
                    }
                }
            }
            left = mid + 1;
        } else if key > target_ts {
            assert(good ==> forall|j: int|
                mid <= j < record_count ==> #[trigger] key_at(b, data_offset as int, stride as int, j) > target_ts) by {
                if good {
                    assert forall|j: int| mid <= j < record_count implies #[trigger] key_at(
                        b,
                        data_offset as int,
                        stride as int,
                        j,
                    ) > target_ts by {
                        assert(key_at(b, data_offset as int, stride as int, mid as int) <= key_at(
                            b,
                            data_offset as int,
                            stride as int,
                            j,
                        ));
                    }
                }
            }
            right = mid;
        } else {
            return Ok(mid);
        }
    }
    Err(left)
}

/// The index range of records from `start_ts` through `end_ts`: from where
/// `start_ts` is found or would be inserted, to just past where `end_ts` is
/// found or where it would be inserted. `None` when that range is empty.
pub fn find_time_range(bytes: &[u8], data_offset: usize, stride: usize, record_count: u64, start_ts: u64, end_ts: u64) -> (r:
    Option<(u64, u64)>)
    requires
        stride >= 8,
        data_offset + record_count * stride <= usize::MAX,
    ensures
        r matches Some((s, e)) ==> s < e <= record_count,
        all_fit(bytes@, data_offset as int, stride as int, record_count as int) && keys_sorted(
            bytes@,
            data_offset as int,
            stride as int,
            record_count as int,
        ) ==> match r {
            Some((s, e)) => forall|j: int|
                s <= j < e ==> start_ts <= #[trigger] key_at(bytes@, data_offset as int, stride as int, j) <= end_ts,
            None => forall|j: int|
                0 <= j < record_count ==> !(start_ts <= #[trigger] key_at(
                    bytes@,
                    data_offset as int,
                    stride as int,
                    j,
                ) <= end_ts),
        },
        all_fit(bytes@, data_offset as int, stride as int, record_count as int) && keys_strictly_sorted(
            bytes@,
            data_offset as int,
            stride as int,
            record_count as int,
        ) ==> match r {
            Some((s, e)) => forall|j: int|
                0 <= j < record_count ==> ((s <= j < e) <==> start_ts <= #[trigger] key_at(
                    bytes@,
                    data_offset as int,
                    stride as int,
                    j,
                ) <= end_ts),
            None => true,
        },
{
    let start_found = find_timestamp(bytes, data_offset, stride, record_count, start_ts);
    let start_idx = match start_found {
        Ok(i) => i,
        Err(i) => i,
    };
    let end_found = if end_ts == start_ts {
        start_found
    } else {
        find_timestamp(bytes, data_offset, stride, record_count, end_ts)
    };
    let end_idx = match end_found {
        Ok(i) => i + 1,
        Err(i) => i,
    };
    proof {
        let b = bytes@;
        let off = data_offset as int;
        let st = stride as int;
        let n = record_count as int;
        if all_fit(b, off, st, n) && keys_strictly_sorted(b, off, st, n) {
            assert(keys_sorted(b, off, st, n)) by {
                assert forall|i: int, j: int| 0 <= i <= j < n implies #[trigger] key_at(b, off, st, i) <= #[trigger] key_at(
                    b,
                    off,
                    st,
                    j,
                ) by {
                    if i < j {
                        assert(key_at(b, off, st, i) < key_at(b, off, st, j));
                    }
                }
            }
            assert forall|j: int| 0 <= j < n implies ((j < start_idx) <==> #[trigger] key_at(b, off, st, j) < start_ts) by {
                if let Ok(i) = start_found {
                    if j < i {
                        assert(key_at(b, off, st, j) < key_at(b, off, st, i as int));
                    } else if j > i {
                        assert(key_at(b, off, st, i as int) < key_at(b, off, st, j));
                    }
                }
            }
            assert forall|j: int| 0 <= j < n implies ((j < end_idx) <==> #[trigger] key_at(b, off, st, j) <= end_ts) by {
                if let Ok(i) = end_found {
                    if j < i {
                        assert(key_at(b, off, st, j) < key_at(b, off, st, i as int));
                    } else if j > i {
                        assert(key_at(b, off, st, i as int) < key_at(b, off, st, j));
                    }
                }
            }
        }
    }
    if start_idx < end_idx && end_idx <= record_count {
        Some((start_idx, end_idx))
    } else {
        None
    }
}

} // verus!
