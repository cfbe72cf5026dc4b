//! Little-endian field access on byte buffers.

use vstd::prelude::*;
use vstd::bytes::*;
use vstd::slice::*;

verus! {

#[verifier::external_type_specification]
#[verifier::external_body]
pub struct ExIoError(std::io::Error);

/// Reads a little-endian `u64` at `off`.
pub fn read_u64_at(b: &[u8], off: usize) -> (r: u64)
    requires
        off + 8 <= b@.len(),
    ensures
        r == spec_u64_from_le_bytes(b@.subrange(off as int, off + 8)),
{
    let _len = b.len();
    u64_from_le_bytes(slice_subrange(b, off, off + 8))
}

/// Reads a little-endian `u32` at `off`.
pub fn read_u32_at(b: &[u8], off: usize) -> (r: u32)
    requires
        off + 4 <= b@.len(),
    ensures
        r == spec_u32_from_le_bytes(b@.subrange(off as int, off + 4)),
{
    let _len = b.len();
    u32_from_le_bytes(slice_subrange(b, off, off + 4))
}

/// Reads a little-endian `u16` at `off`.
pub fn read_u16_at(b: &[u8], off: usize) -> (r: u16)
    requires
        off + 2 <= b@.len(),
    ensures
        r == spec_u16_from_le_bytes(b@.subrange(off as int, off + 2)),
{
    let _len = b.len();
    u16_from_le_bytes(slice_subrange(b, off, off + 2))
}

/// Copies `v` into the front of `dst`, leaving the rest of `dst` as it was.
pub fn copy_prefix<const N: usize>(dst: &mut [u8; N], v: &Vec<u8>)
    requires
        v@.len() <= N,
    ensures
        final(dst)@ == v@ + old(dst)@.subrange(v@.len() as int, N as int),
{
    let n = v.len();
    let mut i: usize = 0;
    while i < n
        invariant
            n == v@.len(),
            n <= N,
            i <= n,
            dst@.len() == N,
            dst@.subrange(0, i as int) == v@.subrange(0, i as int),
            dst@.subrange(n as int, N as int) == old(dst)@.subrange(n as int, N as int),
        decreases n - i,
    {
        dst[i] = v[i];
        i = i + 1;
        assert(dst@.subrange(0, i as int) =~= v@.subrange(0, i as int));
        assert(dst@.subrange(n as int, N as int) =~= old(dst)@.subrange(n as int, N as int));
    }
    assert(v@.subrange(0, n as int) =~= v@);
    assert(dst@ =~= dst@.subrange(0, n as int) + dst@.subrange(n as int, N as int));
}

/// `x` reinterpreted as an unsigned value and back is `x`.
pub proof fn lemma_i64_bits_roundtrip(x: i64)
    ensures
        (x as u64) as i64 == x,
{
    assert((x as u64) as i64 == x) by (bit_vector);
}

/// `x` reinterpreted as a signed value and back is `x`.
pub proof fn lemma_u64_bits_roundtrip(x: u64)
    ensures
        (x as i64) as u64 == x,
{
    assert((x as i64) as u64 == x) by (bit_vector);
}

} // verus!
