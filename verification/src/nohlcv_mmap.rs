//! Fixed-layout OHLCV record for zero-copy access to `.nohlcv` payloads.

use vstd::prelude::*;
use vstd::bytes::*;
use vstd::slice::*;
use vstd::utf8::*;
use crate::codec::{read_u32_at, read_u64_at};
use crate::header::HeaderView;
use crate::metadata::{entries_view, string_from_utf8};
use crate::nohlcv_decoder::{nohlcv_magic, spec_nohlcv_magic, spec_supported_version, supported_versions, NohlcvError, NohlcvHeader, OhlcvRecord, spec_ohlcv_from_bytes};

verus! {

/// Zero-copy compatible OHLCV record: the fields in the order and at the
/// offsets of the 64-byte binary record.
#[derive(Debug, Clone, Copy, PartialEq, Eq, Structural)]
pub struct OhlcvRecordZC {
    pub ts_event: u64,
    pub open_px: i64,
    pub high_px: i64,
    pub low_px: i64,
    pub close_px: i64,
    pub volume: u64,
    pub turnover: u64,
    pub trade_count: u32,
    /// Padding to make it 64 bytes
    pub _padding: u32,
}

/// The record a zero-copy record stands for.
pub open spec fn spec_zc_to_ohlcv(z: OhlcvRecordZC) -> OhlcvRecord {
    OhlcvRecord {
        ts_event: z.ts_event,
        open_px: z.open_px,
        high_px: z.high_px,
        low_px: z.low_px,
        close_px: z.close_px,
        volume: z.volume,
        turnover: z.turnover,
        trade_count: z.trade_count,
        _reserved: z._padding,
    }
}

/// The zero-copy form of a record.
pub open spec fn spec_ohlcv_to_zc(r: OhlcvRecord) -> OhlcvRecordZC {
    OhlcvRecordZC {
        ts_event: r.ts_event,
        open_px: r.open_px,
        high_px: r.high_px,
        low_px: r.low_px,
        close_px: r.close_px,
        volume: r.volume,
        turnover: r.turnover,
        trade_count: r.trade_count,
        _padding: r._reserved,
    }
}

/// A bar with a timestamp whose high is the highest price and low the lowest.
pub open spec fn spec_zc_is_valid(z: OhlcvRecordZC) -> bool {
    &&& z.ts_event > 0
    &&& z.high_px >= z.low_px && z.high_px >= z.open_px && z.high_px >= z.close_px
    &&& z.low_px <= z.open_px && z.low_px <= z.close_px
}

impl OhlcvRecordZC {
    /// Convert to regular OhlcvRecord
    pub fn to_record(&self) -> (r: OhlcvRecord)
        ensures
            r == spec_zc_to_ohlcv(*self),
    {
        OhlcvRecord {
            ts_event: self.ts_event,
            open_px: self.open_px,
            high_px: self.high_px,
            low_px: self.low_px,
            close_px: self.close_px,
            volume: self.volume,
            turnover: self.turnover,
            trade_count: self.trade_count,
            _reserved: self._padding,
        }
    }

    /// Create from regular OhlcvRecord
    pub fn from_record(record: &OhlcvRecord) -> (z: Self)
        ensures
            z == spec_ohlcv_to_zc(*record),
    {
        OhlcvRecordZC {
            ts_event: record.ts_event,
            open_px: record.open_px,
            high_px: record.high_px,
            low_px: record.low_px,
            close_px: record.close_px,
            volume: record.volume,
            turnover: record.turnover,
            trade_count: record.trade_count,
            _padding: record._reserved,
        }
    }

    /// Validate OHLC relationships (and a nonzero timestamp)
    pub fn is_valid(&self) -> (b: bool)
        ensures
            b == spec_zc_is_valid(*self),
    {
        self.ts_event > 0 && self.high_px >= self.low_px && self.high_px >= self.open_px
            && self.high_px >= self.close_px && self.low_px <= self.open_px && self.low_px
            <= self.close_px
    }
}

/// Converting a record to its zero-copy form and back gives the record, and
/// the other way round.
pub proof fn lemma_ohlcv_zc_roundtrip(r: OhlcvRecord, z: OhlcvRecordZC)
    ensures
        spec_zc_to_ohlcv(spec_ohlcv_to_zc(r)) == r,
        spec_ohlcv_to_zc(spec_zc_to_ohlcv(z)) == z,
{
}

/// A bar read through the zero-copy view is the bar the byte decoder reads
/// from the same 64 bytes.
pub proof fn lemma_zc_view_matches_decoder(b: Seq<u8>)
    ensures
        spec_zc_to_ohlcv(spec_zc_from_bytes(b)) == spec_ohlcv_from_bytes(b),
{
}

/// Zero-copy iterator over a run of records, returning references
pub struct NohlcvMmapIterZC<'a> {
    slice: &'a [OhlcvRecordZC],
    current: usize,
}

impl<'a> NohlcvMmapIterZC<'a> {
    /// The records still to come.
    pub closed spec fn remaining(&self) -> Seq<OhlcvRecordZC> {
        self.slice@.subrange(self.current as int, self.slice@.len() as int)
    }

    pub closed spec fn well_formed(&self) -> bool {
        self.current <= self.slice@.len()
    }

    /// An iterator over all of `slice`.
    pub fn new(slice: &'a [OhlcvRecordZC]) -> (it: Self)
        ensures
            it.well_formed(),
            it.remaining() == slice@,
    {
        let it = NohlcvMmapIterZC { slice, current: 0 };
        assert(it.remaining() =~= slice@);
        it
    }

    /// The next record, if any remain.
    pub fn next(&mut self) -> (r: Option<&'a OhlcvRecordZC>)
        requires
            old(self).well_formed(),
        ensures
            final(self).well_formed(),
            old(self).remaining().len() == 0 ==> r is None && final(self).remaining() == old(self).remaining(),
            old(self).remaining().len() > 0 ==> (r matches Some(x) && *x == old(self).remaining()[0]
                && final(self).remaining() == old(self).remaining().drop_first()),
    {
        if self.current >= self.slice.len() {
            return None;
        }
        let item = &self.slice[self.current];
        self.current = self.current + 1;
        assert(self.remaining() =~= old(self).remaining().drop_first());
        Some(item)
    }

    /// The number of records left: lower and upper bound.
    pub fn size_hint(&self) -> (r: (usize, Option<usize>))
        requires
            self.well_formed(),
        ensures
            r.0 == self.remaining().len() && r.1 == Some(self.remaining().len() as usize),
    {
        let remaining = self.slice.len() - self.current;
        (remaining, Some(remaining))
    }
}

/// Size of a zero-copy record: the size of a binary record.
pub const ZC_SIZE: usize = 64;

/// The zero-copy record that the 64 bytes `b` hold: the fields of the
/// binary record, at the same offsets.
pub open spec fn spec_zc_from_bytes(b: Seq<u8>) -> OhlcvRecordZC {
    spec_ohlcv_to_zc(spec_ohlcv_from_bytes(b))
}

/// The zero-copy record stored at byte `off` of `b`.
pub fn zc_at(b: &[u8], off: usize) -> (z: OhlcvRecordZC)
    requires
        off + 64 <= b@.len(),
    ensures
        z == spec_zc_from_bytes(b@.subrange(off as int, off + 64)),
{
    let r = crate::nohlcv_decoder::record_at(b, off);
    OhlcvRecordZC::from_record(&r)
}

/// The header of a mapped `.nohlcv` file: the fields up to the symbol;
/// flags, checksum and metadata are left empty.
pub open spec fn spec_mapped_header(b: Seq<u8>) -> HeaderView {
    let n = b[28] as int;
    HeaderView {
        magic: spec_nohlcv_magic(),
        version: spec_u16_from_le_bytes(b.subrange(4, 6)),
        header_length: spec_u16_from_le_bytes(b.subrange(6, 8)),
        created_at_ns: spec_u64_from_le_bytes(b.subrange(8, 16)),
        record_count: spec_u64_from_le_bytes(b.subrange(16, 24)),
        instrument_id: spec_u32_from_le_bytes(b.subrange(24, 28)),
        symbol: decode_utf8(b.subrange(29, 29 + n)),
        footprint_flags: 0,
        header_checksum: 0,
        metadata: Seq::empty(),
    }
}

/// The first four bytes of `b` are the NOHLCV magic.
pub open spec fn has_nohlcv_magic(b: Seq<u8>) -> bool {
    b.subrange(0, 4) == spec_nohlcv_magic()
}

/// Decodes the header at the start of a mapped `.nohlcv` file; the version
/// must be a supported one. Returns the header and the offset where the
/// records start (the header length).
pub fn decode_mapped_header(bytes: &[u8]) -> (r: Result<(NohlcvHeader, usize), NohlcvError>)
    requires
        bytes@.len() >= 8 && has_nohlcv_magic(bytes@) && spec_supported_version(
            spec_u16_from_le_bytes(bytes@.subrange(4, 6)),
        ) ==> bytes@.len() >= 29 && bytes@.len() >= 29 + bytes@[28],
    ensures
        bytes@.len() < 8 ==> (r matches Err(NohlcvError::InvalidData(msg)) && msg@ == "File too small for header"@),
        bytes@.len() >= 8 && !has_nohlcv_magic(bytes@) ==> (r matches Err(
            NohlcvError::InvalidMagic { found, expected },
        ) && found@ == bytes@.subrange(0, 4) && expected@ == spec_nohlcv_magic()),
        bytes@.len() >= 8 && has_nohlcv_magic(bytes@) && !spec_supported_version(
            spec_u16_from_le_bytes(bytes@.subrange(4, 6)),
        ) ==> (r matches Err(NohlcvError::UnsupportedVersion { found, supported }) && found
            == spec_u16_from_le_bytes(bytes@.subrange(4, 6)) && supported@ == seq![1u16, 2u16]),
        bytes@.len() >= 8 && has_nohlcv_magic(bytes@) && spec_supported_version(
            spec_u16_from_le_bytes(bytes@.subrange(4, 6)),
        ) ==> if valid_utf8(bytes@.subrange(29, 29 + bytes@[28])) {
            r matches Ok((h, off)) && h.view() == spec_mapped_header(bytes@) && off == h.header_length
        } else {
            r matches Err(NohlcvError::InvalidUtf8(_))
        },
{
    let len = bytes.len();
    if len < 8 {
        return Err(NohlcvError::InvalidData(String::from_str("File too small for header")));
    }
    let found: [u8; 4] = [bytes[0], bytes[1], bytes[2], bytes[3]];
    assert(found@ =~= bytes@.subrange(0, 4));
    let expected = nohlcv_magic();
    if found[0] != expected[0] || found[1] != expected[1] || found[2] != expected[2] || found[3] != expected[3] {
        return Err(NohlcvError::InvalidMagic { found, expected });
    }
    assert(found@ =~= spec_nohlcv_magic());
    let version = crate::codec::read_u16_at(bytes, 4);
    if !(version == 1 || version == 2) {
        return Err(NohlcvError::UnsupportedVersion { found: version, supported: supported_versions() });
    }
    let header_length = crate::codec::read_u16_at(bytes, 6);
    let n = bytes[28] as usize;
    let symbol = match string_from_utf8(slice_to_vec(slice_subrange(bytes, 29, 29 + n))) {
        Ok(s) => s,
        Err(e) => return Err(NohlcvError::InvalidUtf8(e)),
    };
    let metadata: Vec<(String, String)> = Vec::new();
    assert(entries_view(metadata@) =~= Seq::<(Seq<char>, Seq<char>)>::empty());
    let header = NohlcvHeader {
        magic: expected,
        version,
        header_length,
        created_at_ns: read_u64_at(bytes, 8),
        record_count: read_u64_at(bytes, 16),
        instrument_id: read_u32_at(bytes, 24),
        symbol,
        footprint_flags: 0,
        header_checksum: 0,
        metadata,
    };
    Ok((header, header_length as usize))
}

/// The zero-copy record at `index` of a mapped file whose records start at
/// `data_offset`, 64 bytes apart; `None` past the last record or past the
/// end of the buffer.
pub fn get_record_zc(bytes: &[u8], data_offset: usize, record_count: u64, index: u64) -> (r: Option<OhlcvRecordZC>)
    requires
        index < record_count ==> data_offset + index * 64 + 64 <= usize::MAX,
    ensures
        index >= record_count ==> r is None,
        index < record_count ==> if data_offset + index * 64 + 64 <= bytes@.len() {
            r == Some(spec_zc_from_bytes(bytes@.subrange(data_offset + index * 64, data_offset + index * 64 + 64)))
        } else {
            r is None
        },
{
    if index >= record_count {
        return None;
    }
    let len = bytes.len();
    let off = data_offset + (index as usize) * 64;
    if off > len || 64 > len - off {
        return None;
    }
    Some(zc_at(bytes, off))
}

/// The record at `index` of a mapped file, converted from its zero-copy form.
pub fn get_record(bytes: &[u8], data_offset: usize, record_count: u64, index: u64) -> (r: Option<OhlcvRecord>)
    requires
        index < record_count ==> data_offset + index * 64 + 64 <= usize::MAX,
    ensures
        index >= record_count ==> r is None,
        index < record_count ==> if data_offset + index * 64 + 64 <= bytes@.len() {
            r == Some(spec_ohlcv_from_bytes(bytes@.subrange(data_offset + index * 64, data_offset + index * 64 + 64)))
        } else {
            r is None
        },
{
    match get_record_zc(bytes, data_offset, record_count, index) {
        Some(z) => Some(z.to_record()),
        None => None,
    }
}

} // verus!
