//! The fixed-layout file header shared by the trade and quote formats.
//!
//! Bytes 0..4 magic, 4..6 version, 6..8 header length, 8..16 creation time,
//! 16..24 record count, 24..28 instrument id, 28 symbol length `n`,
//! 29..29+n symbol, then one flag byte, a four-byte checksum, and the
//! metadata block up to the end of the header.

use vstd::prelude::*;
use vstd::bytes::*;
use vstd::slice::*;
use vstd::utf8::*;
use crate::codec::{read_u16_at, read_u32_at, read_u64_at};
use crate::metadata::{decode_entries, entries_view, spec_decode_entries, string_from_utf8, EntriesView};

verus! {

/// The decoded contents of a header, as mathematical values.
pub struct HeaderView {
    pub magic: Seq<u8>,
    pub version: u16,
    pub header_length: u16,
    pub created_at_ns: u64,
    pub record_count: u64,
    pub instrument_id: u32,
    pub symbol: Seq<char>,
    pub footprint_flags: u8,
    pub header_checksum: u32,
    pub metadata: EntriesView,
}

/// The fields of a decoded header.
pub struct RawHeader {
    pub magic: [u8; 4],
    pub version: u16,
    pub header_length: u16,
    pub created_at_ns: u64,
    pub record_count: u64,
    pub instrument_id: u32,
    pub symbol: String,
    pub footprint_flags: u8,
    pub header_checksum: u32,
    pub metadata: Vec<(String, String)>,
}

impl RawHeader {
    pub open spec fn view(&self) -> HeaderView {
        HeaderView {
            magic: self.magic@,
            version: self.version,
            header_length: self.header_length,
            created_at_ns: self.created_at_ns,
            record_count: self.record_count,
            instrument_id: self.instrument_id,
            symbol: self.symbol@,
            footprint_flags: self.footprint_flags,
            header_checksum: self.header_checksum,
            metadata: entries_view(self.metadata@),
        }
    }
}

/// The header length that the prefix of `b` announces.
pub open spec fn announced_length(b: Seq<u8>) -> int {
    spec_u16_from_le_bytes(b.subrange(6, 8)) as int
}

/// `b` is long enough for every fixed field of the layout.
pub open spec fn fixed_layout_fits(b: Seq<u8>) -> bool {
    &&& b.len() >= 29
    &&& b.len() >= 34 + b[28]
}

/// The header that `b` decodes to with the fixed layout; `None` when the
/// symbol or the metadata is not UTF-8. Metadata entries are read while
/// `guard` bytes remain, and their value lengths take `width` bytes.
pub open spec fn spec_fixed_layout(b: Seq<u8>, guard: int, width: int) -> Option<HeaderView> {
    let n = b[28] as int;
    let symbol = b.subrange(29, 29 + n);
    let meta_start = 34 + n;
    let meta = if meta_start < b.len() {
        spec_decode_entries(b.subrange(meta_start, b.len() as int), 0, guard, width, Seq::empty())
    } else {
        Some(Seq::empty())
    };
    if !valid_utf8(symbol) || meta is None {
        None
    } else {
        Some(
            HeaderView {
                magic: b.subrange(0, 4),
                version: spec_u16_from_le_bytes(b.subrange(4, 6)),
                header_length: spec_u16_from_le_bytes(b.subrange(6, 8)),
                created_at_ns: spec_u64_from_le_bytes(b.subrange(8, 16)),
                record_count: spec_u64_from_le_bytes(b.subrange(16, 24)),
                instrument_id: spec_u32_from_le_bytes(b.subrange(24, 28)),
                symbol: decode_utf8(symbol),
                footprint_flags: b[29 + n],
                header_checksum: spec_u32_from_le_bytes(b.subrange(30 + n, 34 + n)),
                metadata: meta->0,
            },
        )
    }
}

/// Decodes a header laid out as the module documentation describes.
pub fn parse_fixed_layout(b: &[u8], guard: usize, width: usize) -> (r: Result<RawHeader, std::string::FromUtf8Error>)
    requires
        fixed_layout_fits(b@),
        1 <= guard <= 2,
        1 <= width <= 2,
    ensures
        match spec_fixed_layout(b@, guard as int, width as int) {
            Some(h) => r matches Ok(raw) && raw.view() == h,
            None => r is Err,
        },
{
    let len = b.len();
    let magic: [u8; 4] = [b[0], b[1], b[2], b[3]];
    assert(magic@ =~= b@.subrange(0, 4));
    let version = read_u16_at(b, 4);
    let header_length = read_u16_at(b, 6);
    let created_at_ns = read_u64_at(b, 8);
    let record_count = read_u64_at(b, 16);
    let instrument_id = read_u32_at(b, 24);
    let n = b[28] as usize;
    let symbol = match string_from_utf8(slice_to_vec(slice_subrange(b, 29, 29 + n))) {
        Ok(s) => s,
        Err(e) => return Err(e),
    };
    let footprint_flags = b[29 + n];
    let header_checksum = read_u32_at(b, 30 + n);
    let meta_start = 34 + n;
    let metadata = if meta_start < len {
        match decode_entries(slice_subrange(b, meta_start, len), guard, width) {
            Ok(m) => m,
            Err(e) => return Err(e),
        }
    } else {
        let m: Vec<(String, String)> = Vec::new();
        assert(entries_view(m@) =~= Seq::<(Seq<char>, Seq<char>)>::empty());
        m
    };
    Ok(RawHeader {
        magic,
        version,
        header_length,
        created_at_ns,
        record_count,
        instrument_id,
        symbol,
        footprint_flags,
        header_checksum,
        metadata,
    })
}

} // verus!
