//! The size checks of memory-mapped files and typed views of them.

use vstd::prelude::*;

verus! {

/// Error type for memory-mapping operations
#[derive(Debug)]
pub enum MmapError {
    Io(std::io::Error),
    InvalidSize { expected: usize, actual: usize },
    AlignmentError,
    MmapFailed(String),
}

/// A file of `len` bytes can be mapped only when it is not empty.
pub fn check_mappable(len: u64) -> (r: Result<(), MmapError>)
    ensures
        len > 0 <==> r is Ok,
        len == 0 ==> (r matches Err(MmapError::InvalidSize { expected, actual }) && expected == 1 && actual == 0),
{
    if len == 0 {
        return Err(MmapError::InvalidSize { expected: 1, actual: 0 });
    }
    Ok(())
}

/// The number of `size`-byte elements in `len` mapped bytes; an
/// `AlignmentError` when `len` is not a whole number of elements.
pub fn element_count(len: usize, size: usize) -> (r: Result<usize, MmapError>)
    requires
        size > 0,
    ensures
        len % size == 0 <==> r is Ok,
        r matches Ok(n) ==> n == len / size,
        len % size != 0 ==> r matches Err(MmapError::AlignmentError),
{
    if len % size != 0 {
        return Err(MmapError::AlignmentError);
    }
    Ok(len / size)
}

/// The byte range of elements `start..start + count` of `size` bytes, when
/// they lie among the first `total` elements.
pub fn element_range(total: usize, size: usize, start: usize, count: usize) -> (r: Option<(usize, usize)>)
    requires
        start + count <= usize::MAX,
        total * size <= usize::MAX,
    ensures
        start + count > total ==> r is None,
        start + count <= total ==> r == Some(((start * size) as usize, ((start + count) * size) as usize)),
{
    if start + count > total {
        return None;
    }
    assert((start + count) * size <= total * size) by (nonlinear_arith)
        requires
            start + count <= total,
    ;
    assert(start * size <= (start + count) * size) by (nonlinear_arith);
    Some((start * size, (start + count) * size))
}

} // verus!
