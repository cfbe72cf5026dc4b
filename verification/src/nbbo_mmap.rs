//! Fixed-layout quote record for zero-copy access to `.nbbo` payloads.

use vstd::prelude::*;
use vstd::bytes::*;
use vstd::slice::*;
use vstd::utf8::*;
use crate::codec::{read_u32_at, read_u64_at};
use crate::header::HeaderView;
use crate::metadata::{entries_view, string_from_utf8};
use crate::nbbo_decoder::{decode_records, has_nbbo_magic, record_at, spec_decode_quotes, spec_nbbo_from_bytes, spec_nbbo_magic, NbboError, NbboHeader, NbboRecord};

verus! {

/// Zero-copy compatible NBBO record: the fields at the offsets of the
/// 48-byte binary record. A record converted to this form stores a missing
/// side as `i64::MIN`.
#[derive(Debug, Clone, Copy, PartialEq, Eq, Structural)]
pub struct NbboRecordZC {
    pub ts_event: u64,
    pub ts_recv: u64,
    /// Using `i64::MIN` as sentinel for None
    pub bid_px: i64,
    pub bid_sz: u32,
    pub bid_ct: u32,
    /// Using `i64::MIN` as sentinel for None
    pub ask_px: i64,
    pub ask_sz: u32,
    pub ask_ct: u32,
}

/// A price in the zero-copy form: `i64::MIN` marks a missing side.
pub open spec fn zc_price(raw: i64) -> Option<i64> {
    if raw == i64::MIN {
        None
    } else {
        Some(raw)
    }
}

/// The zero-copy form of a price: a missing side is `i64::MIN`.
pub open spec fn zc_raw(p: Option<i64>) -> i64 {
    match p {
        Some(x) => x,
        None => i64::MIN,
    }
}

/// The record a zero-copy record stands for.
pub open spec fn spec_zc_to_nbbo(z: NbboRecordZC) -> NbboRecord {
    NbboRecord {
        ts_event: z.ts_event,
        ts_recv: z.ts_recv,
        bid_px: zc_price(z.bid_px),
        bid_sz: z.bid_sz,
        bid_ct: z.bid_ct,
        ask_px: zc_price(z.ask_px),
        ask_sz: z.ask_sz,
        ask_ct: z.ask_ct,
    }
}

/// The zero-copy form of a record.
pub open spec fn spec_nbbo_to_zc(r: NbboRecord) -> NbboRecordZC {
    NbboRecordZC {
        ts_event: r.ts_event,
        ts_recv: r.ts_recv,
        bid_px: zc_raw(r.bid_px),
        bid_sz: r.bid_sz,
        bid_ct: r.bid_ct,
        ask_px: zc_raw(r.ask_px),
        ask_sz: r.ask_sz,
        ask_ct: r.ask_ct,
    }
}

impl NbboRecordZC {
    /// Convert to regular NbboRecord
    pub fn to_record(&self) -> (r: NbboRecord)
        ensures
            r == spec_zc_to_nbbo(*self),
    {
        NbboRecord {
            ts_event: self.ts_event,
            ts_recv: self.ts_recv,
            bid_px: if self.bid_px == i64::MIN {
                None
            } else {
                Some(self.bid_px)
            },
            bid_sz: self.bid_sz,
            bid_ct: self.bid_ct,
            ask_px: if self.ask_px == i64::MIN {
                None
            } else {
                Some(self.ask_px)
            },
            ask_sz: self.ask_sz,
            ask_ct: self.ask_ct,
        }
    }

    /// Create from regular NbboRecord
    pub fn from_record(record: &NbboRecord) -> (z: Self)
        ensures
            z == spec_nbbo_to_zc(*record),
    {
        NbboRecordZC {
            ts_event: record.ts_event,
            ts_recv: record.ts_recv,
            bid_px: match record.bid_px {
                Some(x) => x,
                None => i64::MIN,
            },
            bid_sz: record.bid_sz,
            bid_ct: record.bid_ct,
            ask_px: match record.ask_px {
                Some(x) => x,
                None => i64::MIN,
            },
            ask_sz: record.ask_sz,
            ask_ct: record.ask_ct,
        }
    }
}

/// A record whose quoted prices are not `i64::MIN` survives the trip
/// through the zero-copy form; a zero-copy record always does.
pub proof fn lemma_nbbo_zc_roundtrip(r: NbboRecord, z: NbboRecordZC)
    ensures
        r.bid_px != Some(i64::MIN) && r.ask_px != Some(i64::MIN) ==> spec_zc_to_nbbo(spec_nbbo_to_zc(r)) == r,
        spec_nbbo_to_zc(spec_zc_to_nbbo(z)) == z,
{
}

/// The zero-copy record that the 48 bytes `b` hold.
pub open spec fn spec_zc_from_bytes(b: Seq<u8>) -> NbboRecordZC {
    NbboRecordZC {
        ts_event: spec_u64_from_le_bytes(b.subrange(0, 8)),
        ts_recv: spec_u64_from_le_bytes(b.subrange(8, 16)),
        bid_px: spec_u64_from_le_bytes(b.subrange(16, 24)) as i64,
        bid_sz: spec_u32_from_le_bytes(b.subrange(24, 28)),
        bid_ct: spec_u32_from_le_bytes(b.subrange(28, 32)),
        ask_px: spec_u64_from_le_bytes(b.subrange(32, 40)) as i64,
        ask_sz: spec_u32_from_le_bytes(b.subrange(40, 44)),
        ask_ct: spec_u32_from_le_bytes(b.subrange(44, 48)),
    }
}

/// The zero-copy record stored at byte `off` of `b`.
pub fn zc_at(b: &[u8], off: usize) -> (z: NbboRecordZC)
    requires
        off + 48 <= b@.len(),
    ensures
        z == spec_zc_from_bytes(b@.subrange(off as int, off + 48)),
{
    let _len = b.len();
    let ghost c = b@.subrange(off as int, off + 48);
    assert(c.subrange(0, 8) =~= b@.subrange(off as int, off + 8));
    assert(c.subrange(8, 16) =~= b@.subrange(off + 8, off + 16));
    assert(c.subrange(16, 24) =~= b@.subrange(off + 16, off + 24));
    assert(c.subrange(24, 28) =~= b@.subrange(off + 24, off + 28));
    assert(c.subrange(28, 32) =~= b@.subrange(off + 28, off + 32));
    assert(c.subrange(32, 40) =~= b@.subrange(off + 32, off + 40));
    assert(c.subrange(40, 44) =~= b@.subrange(off + 40, off + 44));
    assert(c.subrange(44, 48) =~= b@.subrange(off + 44, off + 48));
    NbboRecordZC {
        ts_event: read_u64_at(b, off),
        ts_recv: read_u64_at(b, off + 8),
        bid_px: read_u64_at(b, off + 16) as i64,
        bid_sz: read_u32_at(b, off + 24),
        bid_ct: read_u32_at(b, off + 28),
        ask_px: read_u64_at(b, off + 32) as i64,
        ask_sz: read_u32_at(b, off + 40),
        ask_ct: read_u32_at(b, off + 44),
    }
}

/// The header of a mapped `.nbbo` file: the fields up to the symbol; flags,
/// checksum and metadata are left empty.
pub open spec fn spec_mapped_header(b: Seq<u8>) -> HeaderView {
    let n = b[28] as int;
    HeaderView {
        magic: spec_nbbo_magic(),
        version: spec_u16_from_le_bytes(b.subrange(4, 6)),
        header_length: spec_u16_from_le_bytes(b.subrange(6, 8)),
        created_at_ns: spec_u64_from_le_bytes(b.subrange(8, 16)),
        record_count: spec_u64_from_le_bytes(b.subrange(16, 24)),
        instrument_id: spec_u32_from_le_bytes(b.subrange(24, 28)),
        symbol: decode_utf8(b.subrange(29, 29 + n)),
        footprint_flags: 0,
        header_checksum: 0,
        metadata: Seq::empty(),
    }
}

/// Decodes the header at the start of a mapped `.nbbo` file; the version
/// must be the expected one. Returns the header and the offset where the
/// records start (the header length).
pub fn decode_mapped_header(bytes: &[u8]) -> (r: Result<(NbboHeader, usize), NbboError>)
    requires
        bytes@.len() >= 8 && has_nbbo_magic(bytes@) && spec_u16_from_le_bytes(bytes@.subrange(4, 6)) == 1
            ==> bytes@.len() >= 29 && bytes@.len() >= 29 + bytes@[28],
    ensures
        bytes@.len() < 8 ==> (r matches Err(NbboError::InvalidData(msg)) && msg@ == "File too small for header"@),
        bytes@.len() >= 8 && !has_nbbo_magic(bytes@) ==> (r matches Err(NbboError::InvalidMagic(m)) && m@
            == bytes@.subrange(0, 4)),
        bytes@.len() >= 8 && has_nbbo_magic(bytes@) && spec_u16_from_le_bytes(bytes@.subrange(4, 6)) != 1
            ==> (r matches Err(NbboError::InvalidVersion(v)) && v == spec_u16_from_le_bytes(bytes@.subrange(4, 6))),
        bytes@.len() >= 8 && has_nbbo_magic(bytes@) && spec_u16_from_le_bytes(bytes@.subrange(4, 6)) == 1
            ==> if valid_utf8(bytes@.subrange(29, 29 + bytes@[28])) {
            r matches Ok((h, off)) && h.view() == spec_mapped_header(bytes@) && off == h.header_length
        } else {
            r matches Err(NbboError::InvalidUtf8(_))
        },
{
    let len = bytes.len();
    if len < 8 {
        return Err(NbboError::InvalidData(String::from_str("File too small for header")));
    }
    let mut prefix = [0u8; 8];
    let mut i: usize = 0;
    while i < 8
        invariant
            i <= 8,
            len == bytes@.len(),
            len >= 8,
            forall|j: int| 0 <= j < i ==> prefix@[j] == bytes@[j],
        decreases 8 - i,
    {
        prefix[i] = bytes[i];
        i = i + 1;
    }
    assert(prefix@.subrange(0, 4) =~= bytes@.subrange(0, 4));
    assert(prefix@.subrange(4, 6) =~= bytes@.subrange(4, 6));
    assert(prefix@.subrange(6, 8) =~= bytes@.subrange(6, 8));
    let (version, header_length) = match crate::nbbo_decoder::check_prefix(&prefix) {
        Ok(p) => p,
        Err(e) => return Err(e),
    };
    if version != 1 {
        return Err(NbboError::InvalidVersion(version));
    }
    let n = bytes[28] as usize;
    let symbol = match string_from_utf8(slice_to_vec(slice_subrange(bytes, 29, 29 + n))) {
        Ok(s) => s,
        Err(e) => return Err(NbboError::InvalidUtf8(e)),
    };
    let metadata: Vec<(String, String)> = Vec::new();
    assert(entries_view(metadata@) =~= Seq::<(Seq<char>, Seq<char>)>::empty());
    let header = NbboHeader {
        magic: crate::nbbo_decoder::nbbo_magic(),
        version,
        header_length,
        created_at_ns: read_u64_at(bytes, 8),
        record_count: read_u64_at(bytes, 16),
        instrument_id: read_u32_at(bytes, 24),
        symbol,
        footprint_flags: 0,
        header_checksum: 0,
        metadata,
    };
    Ok((header, header_length as usize))
}

/// The zero-copy record at `index` of a mapped file whose records start at
/// `data_offset`; `None` past the last record or past the end of the buffer.
pub fn get_record_zc(bytes: &[u8], data_offset: usize, record_count: u64, index: u64) -> (r: Option<NbboRecordZC>)
    requires
        index < record_count ==> data_offset + index * 48 + 48 <= usize::MAX,
    ensures
        index >= record_count ==> r is None,
        index < record_count ==> if data_offset + index * 48 + 48 <= bytes@.len() {
            r == Some(spec_zc_from_bytes(bytes@.subrange(data_offset + index * 48, data_offset + index * 48 + 48)))
        } else {
            r is None
        },
{
    if index >= record_count {
        return None;
    }
    let len = bytes.len();
    let off = data_offset + (index as usize) * 48;
    if off > len || 48 > len - off {
        return None;
    }
    Some(zc_at(bytes, off))
}

/// The record at `index` of a mapped file, decoded as the byte decoder
/// reads it (a price of -1 is a missing side).
pub fn get_record(bytes: &[u8], data_offset: usize, record_count: u64, index: u64) -> (r: Option<NbboRecord>)
    requires
        index < record_count ==> data_offset + index * 48 + 48 <= usize::MAX,
    ensures
        index >= record_count ==> r is None,
        index < record_count ==> if data_offset + index * 48 + 48 <= bytes@.len() {
            r == Some(spec_nbbo_from_bytes(bytes@.subrange(data_offset + index * 48, data_offset + index * 48 + 48)))
        } else {
            r is None
        },
{
    if index >= record_count {
        return None;
    }
    let len = bytes.len();
    let off = data_offset + (index as usize) * 48;
    if off > len || 48 > len - off {
        return None;
    }
    Some(record_at(bytes, off))
}

/// The zero-copy records that `b` holds, 48 bytes each.
pub open spec fn spec_zc_records(b: Seq<u8>) -> Seq<NbboRecordZC> {
    Seq::new(b.len() / 48, |i: int| spec_zc_from_bytes(b.subrange(i * 48, i * 48 + 48)))
}

/// `count` zero-copy records from `start` of a mapped file whose records
/// start at `data_offset`; `None` when they run past the last record or
/// past the end of the buffer.
pub fn get_records_zc(bytes: &[u8], data_offset: usize, record_count: u64, start: u64, count: u64) -> (r: Option<
    Vec<NbboRecordZC>,
>)
    requires
        start + count <= u64::MAX,
        start + count <= record_count ==> data_offset + (start + count) * 48 <= usize::MAX,
    ensures
        start + count > record_count ==> r is None,
        start + count <= record_count ==> if data_offset + (start + count) * 48 <= bytes@.len() {
            r matches Some(v) && v@ == spec_zc_records(
                bytes@.subrange(data_offset + start * 48, data_offset + (start + count) * 48),
            )
        } else {
            r is None
        },
{
    if start + count > record_count {
        return None;
    }
    let len = bytes.len();
    assert((start + count) * 48 == start * 48 + count * 48) by (nonlinear_arith);
    let off = data_offset + (start as usize) * 48;
    let n = count as usize;
    if off > len || n * 48 > len - off {
        return None;
    }
    let ghost chunk = bytes@.subrange(off as int, off + n * 48);
    assert(chunk.len() / 48 == n) by (nonlinear_arith)
        requires
            chunk.len() == n * 48,
    ;
    let mut out: Vec<NbboRecordZC> = Vec::new();
    let mut i: usize = 0;
    while i < n
        invariant
            i <= n,
            off + n * 48 <= len,
            len == bytes@.len(),
            chunk == bytes@.subrange(off as int, off + n * 48),
            chunk.len() / 48 == n,
            out@.len() == i,
            forall|k: int| 0 <= k < i ==> out@[k] == #[trigger] spec_zc_records(chunk)[k],
        decreases n - i,
    {
        assert(i * 48 + 48 <= n * 48) by (nonlinear_arith)
            requires
                i < n,
        ;
        let z = zc_at(bytes, off + i * 48);
        assert(chunk.subrange(i * 48, i * 48 + 48) =~= bytes@.subrange(off + i * 48, off + i * 48 + 48));
        out.push(z);
        i = i + 1;
    }
    assert(out@ =~= spec_zc_records(chunk));
    Some(out)
}

/// `count` records from `start` of a mapped file, decoded as the byte
/// decoder reads them; `None` when they run past the last record or past the
/// end of the buffer.
pub fn get_records(bytes: &[u8], data_offset: usize, record_count: u64, start: u64, count: u64) -> (r: Option<
    Vec<NbboRecord>,
>)
    requires
        start + count <= u64::MAX,
        start + count <= record_count ==> data_offset + (start + count) * 48 <= usize::MAX,
    ensures
        start + count > record_count ==> r is None,
        start + count <= record_count ==> if data_offset + (start + count) * 48 <= bytes@.len() {
            r matches Some(v) && v@ == spec_decode_quotes(
                bytes@.subrange(data_offset + start * 48, data_offset + (start + count) * 48),
            )
        } else {
            r is None
        },
{
    if start + count > record_count {
        return None;
    }
    let len = bytes.len();
    assert((start + count) * 48 == start * 48 + count * 48) by (nonlinear_arith);
    let off = data_offset + (start as usize) * 48;
    let n = count as usize;
    if off > len || n * 48 > len - off {
        return None;
    }
    let chunk = slice_subrange(bytes, off, off + n * 48);
    assert(chunk@.len() % 48 == 0) by (nonlinear_arith)
        requires
            chunk@.len() == n * 48,
    ;
    Some(decode_records(chunk))
}

} // verus!
