//! Fixed-layout trade record for zero-copy access to `.ntrd` payloads.

use vstd::prelude::*;
use vstd::bytes::*;
use vstd::slice::*;
use vstd::utf8::*;
use crate::codec::{read_u16_at, read_u32_at, read_u64_at};
use crate::header::{fixed_layout_fits, HeaderView};
use crate::metadata::{entries_view, string_from_utf8};
use crate::ntrd_decoder::{has_ntrd_magic, record_at, spec_ntrd_magic, spec_trade_from_bytes, NtrdError, NtrdHeader, TradeRecord};

verus! {

/// Zero-copy compatible trade record: the on-disk 64-byte layout.
#[derive(Debug, Clone, Copy, PartialEq)]
pub struct TradeRecordZC {
    pub ts_event: u64,
    pub ts_recv: u64,
    pub price: i64,
    pub size: u32,
    pub side: u8,
    pub flags: u8,
    pub exchange: u16,
    pub trade_id: u64,
    /// Padding to reach 64 bytes
    pub _reserved: [u8; 24],
}

/// The record a zero-copy record stands for.
pub open spec fn spec_zc_to_record(z: TradeRecordZC) -> TradeRecord {
    TradeRecord {
        ts_event: z.ts_event,
        ts_recv: z.ts_recv,
        price: z.price,
        size: z.size,
        side: z.side,
        flags: z.flags,
        exchange: z.exchange,
        trade_id: z.trade_id,
    }
}

impl TradeRecordZC {
    /// Convert to regular TradeRecord
    pub fn to_record(&self) -> (r: TradeRecord)
        ensures
            r == spec_zc_to_record(*self),
    {
        TradeRecord {
            ts_event: self.ts_event,
            ts_recv: self.ts_recv,
            price: self.price,
            size: self.size,
            side: self.side,
            flags: self.flags,
            exchange: self.exchange,
            trade_id: self.trade_id,
        }
    }

    /// Create from regular TradeRecord, with zero padding
    pub fn from_record(record: &TradeRecord) -> (z: Self)
        ensures
            spec_zc_to_record(z) == *record,
            forall|i: int| 0 <= i < 24 ==> z._reserved@[i] == 0,
    {
        TradeRecordZC {
            ts_event: record.ts_event,
            ts_recv: record.ts_recv,
            price: record.price,
            size: record.size,
            side: record.side,
            flags: record.flags,
            exchange: record.exchange,
            trade_id: record.trade_id,
            _reserved: [0u8; 24],
        }
    }
}

/// The header of a mapped `.ntrd` file: the fixed fields, no metadata.
pub open spec fn spec_mapped_header(b: Seq<u8>) -> HeaderView {
    let n = b[28] as int;
    HeaderView {
        magic: spec_ntrd_magic(),
        version: spec_u16_from_le_bytes(b.subrange(4, 6)),
        header_length: spec_u16_from_le_bytes(b.subrange(6, 8)),
        created_at_ns: spec_u64_from_le_bytes(b.subrange(8, 16)),
        record_count: spec_u64_from_le_bytes(b.subrange(16, 24)),
        instrument_id: spec_u32_from_le_bytes(b.subrange(24, 28)),
        symbol: decode_utf8(b.subrange(29, 29 + n)),
        footprint_flags: b[29 + n],
        header_checksum: spec_u32_from_le_bytes(b.subrange(30 + n, 34 + n)),
        metadata: Seq::empty(),
    }
}

/// Decodes the header at the start of a mapped `.ntrd` file. Returns the
/// header and the offset where the records start (the header length).
pub fn decode_mapped_header(bytes: &[u8]) -> (r: Result<(NtrdHeader, usize), NtrdError>)
    requires
        bytes@.len() >= 8 && has_ntrd_magic(bytes@) ==> fixed_layout_fits(bytes@),
    ensures
        bytes@.len() < 8 ==> (r matches Err(NtrdError::InvalidData(msg)) && msg@ == "File too small for header"@),
        bytes@.len() >= 8 && !has_ntrd_magic(bytes@) ==> (r matches Err(NtrdError::InvalidMagic(m)) && m@
            == bytes@.subrange(0, 4)),
        bytes@.len() >= 8 && has_ntrd_magic(bytes@) ==> if valid_utf8(bytes@.subrange(29, 29 + bytes@[28])) {
            r matches Ok((h, off)) && h.view() == spec_mapped_header(bytes@) && off == h.header_length
        } else {
            r matches Err(NtrdError::InvalidUtf8(_))
        },
{
    let len = bytes.len();
    if len < 8 {
        return Err(NtrdError::InvalidData(String::from_str("File too small for header")));
    }
    let mut prefix = [0u8; 8];
    let mut i: usize = 0;
    while i < 8
        invariant
            i <= 8,
            len == bytes@.len(),
            len >= 8,
            forall|j: int| 0 <= j < i ==> prefix@[j] == bytes@[j],
        decreases 8 - i,
    {
        prefix[i] = bytes[i];
        i = i + 1;
    }
    assert(prefix@.subrange(0, 4) =~= bytes@.subrange(0, 4));
    assert(prefix@.subrange(4, 6) =~= bytes@.subrange(4, 6));
    assert(prefix@.subrange(6, 8) =~= bytes@.subrange(6, 8));
    let (version, header_length) = match crate::ntrd_decoder::check_prefix(&prefix) {
        Ok(p) => p,
        Err(e) => return Err(e),
    };
    let n = bytes[28] as usize;
    let symbol = match string_from_utf8(slice_to_vec(slice_subrange(bytes, 29, 29 + n))) {
        Ok(s) => s,
        Err(e) => return Err(NtrdError::InvalidUtf8(e)),
    };
    let metadata: Vec<(String, String)> = Vec::new();
    assert(entries_view(metadata@) =~= Seq::<(Seq<char>, Seq<char>)>::empty());
    let header = NtrdHeader {
        magic: crate::ntrd_decoder::ntrd_magic(),
        version,
        header_length,
        created_at_ns: read_u64_at(bytes, 8),
        record_count: read_u64_at(bytes, 16),
        instrument_id: read_u32_at(bytes, 24),
        symbol,
        footprint_flags: bytes[29 + n],
        header_checksum: read_u32_at(bytes, 30 + n),
        metadata,
    };
    Ok((header, header_length as usize))
}

/// The record at `index` of a mapped file whose records start at
/// `data_offset`; `None` past the last record or past the end of the buffer.
pub fn get_record(bytes: &[u8], data_offset: usize, record_count: u64, index: u64) -> (r: Option<TradeRecord>)
    requires
        index < record_count ==> data_offset + index * 64 + 64 <= usize::MAX,
    ensures
        index >= record_count ==> r is None,
        index < record_count ==> if data_offset + index * 64 + 64 <= bytes@.len() {
            r == Some(spec_trade_from_bytes(bytes@.subrange(data_offset + index * 64, data_offset + index * 64 + 64)))
        } else {
            r is None
        },
{
    if index >= record_count {
        return None;
    }
    let len = bytes.len();
    let off = data_offset + (index as usize) * 64;
    if off > len || 64 > len - off {
        return None;
    }
    Some(record_at(bytes, off))
}

/// `count` records from `start` of a mapped file whose records start at
/// `data_offset`; `None` when they run past the last record or past the
/// end of the buffer.
pub fn get_records(bytes: &[u8], data_offset: usize, record_count: u64, start: u64, count: u64) -> (r: Option<
    Vec<TradeRecord>,
>)
    requires
        start + count <= u64::MAX,
        start + count <= record_count ==> data_offset + (start + count) * 64 <= usize::MAX,
    ensures
        start + count > record_count ==> r is None,
        start + count <= record_count ==> if data_offset + (start + count) * 64 <= bytes@.len() {
            r matches Some(v) && v@ == crate::ntrd_decoder::spec_decode_trades(
                bytes@.subrange(data_offset + start * 64, data_offset + (start + count) * 64),
            )
        } else {
            r is None
        },
{
    if start + count > record_count {
        return None;
    }
    let len = bytes.len();
    assert((start + count) * 64 == start * 64 + count * 64) by (nonlinear_arith);
    let off = data_offset + (start as usize) * 64;
    let size = (count as usize) * 64;
    if off > len || size > len - off {
        return None;
    }
    let chunk = slice_subrange(bytes, off, off + size);
    Some(crate::ntrd_decoder::decode_records(chunk))
}

} // verus!
