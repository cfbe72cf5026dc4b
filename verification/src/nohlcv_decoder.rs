//! The `.nohlcv` bar file format: a variable header and 64-byte OHLCV records.

use vstd::prelude::*;
use vstd::bytes::*;
use vstd::slice::*;
use vstd::utf8::*;
use crate::codec::{copy_prefix, lemma_i64_bits_roundtrip, lemma_u64_bits_roundtrip, read_u16_at, read_u32_at, read_u64_at};
use crate::header::{announced_length, HeaderView};
use crate::metadata::{decode_entries, entries_view, spec_decode_entries};
use crate::text::{push_decimal, spec_decimal};
use crate::metadata::string_from_utf8;
use crate::seqs::{count_matching, lemma_count_le, lemma_prefix_step, lemma_sum_prefix_le, max_where, min_where, sum_of};

verus! {

/// Supported format versions
pub open spec fn spec_supported_version(v: u16) -> bool {
    v == 1 || v == 2
}

/// Magic bytes for NOHLCV files ("NOHL")
pub open spec fn spec_nohlcv_magic() -> Seq<u8> {
    seq![78u8, 79u8, 72u8, 76u8]
}

/// Magic bytes for NOHLCV files ("NOHL")
pub fn nohlcv_magic() -> (m: [u8; 4])
    ensures
        m@ == spec_nohlcv_magic(),
{
    let m: [u8; 4] = [78u8, 79u8, 72u8, 76u8];
    assert(m@ =~= spec_nohlcv_magic());
    m
}

/// Supported format versions
pub fn supported_versions() -> (v: Vec<u16>)
    ensures
        v@ == seq![1u16, 2u16],
{
    let mut v = Vec::new();
    v.push(1u16);
    v.push(2u16);
    assert(v@ =~= seq![1u16, 2u16]);
    v
}

/// Size of a single OHLCV record in bytes
pub const RECORD_SIZE: usize = 64;

/// Errors of NOHLCV operations
#[derive(Debug)]
pub enum NohlcvError {
    /// I/O error
    Io(std::io::Error),
    /// Invalid magic bytes in header
    InvalidMagic { found: [u8; 4], expected: [u8; 4] },
    /// Unsupported version
    UnsupportedVersion { found: u16, supported: Vec<u16> },
    /// UTF-8 decoding error
    InvalidUtf8(std::string::FromUtf8Error),
    /// Data validation error
    InvalidData(String),
    /// Index out of bounds
    IndexOutOfBounds { index: u64, max: u64 },
    /// Corrupted header
    CorruptedHeader(String),
}

/// Header of a `.nohlcv` file
#[derive(Debug)]
pub struct NohlcvHeader {
    /// Magic bytes (should be "NOHL")
    pub magic: [u8; 4],
    /// File format version
    pub version: u16,
    /// Total header size in bytes
    pub header_length: u16,
    /// File creation timestamp (nanoseconds since Unix epoch)
    pub created_at_ns: u64,
    /// Total number of records in the file
    pub record_count: u64,
    /// Unique instrument identifier
    pub instrument_id: u32,
    /// Trading symbol
    pub symbol: String,
    /// Bit flags for additional features
    pub footprint_flags: u8,
    /// Checksum of the header
    pub header_checksum: u32,
    /// Key-value metadata pairs, in key order; no key occurs twice
    pub metadata: Vec<(String, String)>,
}

/// What header validation finds wrong first: 1 the magic, 2 the version,
/// 3 an empty symbol, 4 a header shorter than 32 bytes, 0 nothing.
pub open spec fn spec_header_problem(h: HeaderView) -> int {
    if h.magic != spec_nohlcv_magic() {
        1
    } else if !spec_supported_version(h.version) {
        2
    } else if h.symbol.len() == 0 {
        3
    } else if h.header_length < 32 {
        4
    } else {
        0
    }
}

/// `e` is the error that validation reports for the first problem of `h`.
pub open spec fn spec_validation_error(h: HeaderView, e: NohlcvError) -> bool {
    let p = spec_header_problem(h);
    if p == 1 {
        e matches NohlcvError::InvalidMagic { found, expected } && found@ == h.magic && expected@
            == spec_nohlcv_magic()
    } else if p == 2 {
        e matches NohlcvError::UnsupportedVersion { found, supported } && found == h.version
            && supported@ == seq![1u16, 2u16]
    } else if p == 3 {
        e matches NohlcvError::CorruptedHeader(msg) && msg@ == "Empty symbol"@
    } else if p == 4 {
        e matches NohlcvError::CorruptedHeader(msg) && msg@ == "Header too small: "@
            + spec_decimal(h.header_length as nat) + " bytes"@
    } else {
        false
    }
}

impl NohlcvHeader {
    pub open spec fn view(&self) -> HeaderView {
        HeaderView {
            magic: self.magic@,
            version: self.version,
            header_length: self.header_length,
            created_at_ns: self.created_at_ns,
            record_count: self.record_count,
            instrument_id: self.instrument_id,
            symbol: self.symbol@,
            footprint_flags: self.footprint_flags,
            header_checksum: self.header_checksum,
            metadata: entries_view(self.metadata@),
        }
    }

    /// What `validate` finds wrong first (see `spec_header_problem`).
    pub open spec fn spec_first_problem(&self) -> int {
        spec_header_problem(self.view())
    }

    /// Validate header consistency
    pub fn validate(&self) -> (r: Result<(), NohlcvError>)
        ensures
            self.spec_first_problem() == 0 <==> r is Ok,
            r matches Err(e) ==> spec_validation_error(self.view(), e),
    {
        let expected = nohlcv_magic();
        if self.magic[0] != expected[0] || self.magic[1] != expected[1] || self.magic[2] != expected[2]
            || self.magic[3] != expected[3] {
            assert(self.magic@ != spec_nohlcv_magic()) by {
                if self.magic@ == spec_nohlcv_magic() {
                    assert(self.magic@[0] == expected@[0]);
                    assert(self.magic@[1] == expected@[1]);
                    assert(self.magic@[2] == expected@[2]);
                    assert(self.magic@[3] == expected@[3]);
                }
            }
            return Err(NohlcvError::InvalidMagic { found: self.magic, expected });
        }
        assert(self.magic@ =~= spec_nohlcv_magic());
        if !(self.version == 1 || self.version == 2) {
            return Err(NohlcvError::UnsupportedVersion { found: self.version, supported: supported_versions() });
        }
        if self.symbol.as_str().unicode_len() == 0 {
            return Err(NohlcvError::CorruptedHeader(String::from_str("Empty symbol")));
        }
        if self.header_length < 32 {
            let mut msg = String::from_str("Header too small: ");
            push_decimal(&mut msg, self.header_length as u64);
            msg.append(" bytes");
            return Err(NohlcvError::CorruptedHeader(msg));
        }
        Ok(())
    }

    /// The file size the header announces: header plus all records
    pub fn expected_file_size(&self) -> (n: u64)
        requires
            self.header_length + self.record_count * 64 <= u64::MAX,
        ensures
            n == self.header_length + self.record_count * 64,
    {
        self.header_length as u64 + (self.record_count * RECORD_SIZE as u64)
    }
}

/// The header that `b` decodes to, with magic, version and header length
/// taken as given; `None` when the symbol or a metadata entry is not UTF-8.
/// A flag byte or checksum that does not fit reads as 0.
pub open spec fn spec_nohlcv_layout(b: Seq<u8>, magic: Seq<u8>, version: u16, header_length: u16) -> Option<
    HeaderView,
> {
    let n = b[28] as int;
    let symbol = b.subrange(29, 29 + n);
    let meta_start = 34 + n;
    let meta = if meta_start < b.len() {
        spec_decode_entries(b.subrange(meta_start, b.len() as int), 0, 2, 2, Seq::empty())
    } else {
        Some(Seq::empty())
    };
    if !valid_utf8(symbol) || meta is None {
        None
    } else {
        Some(
            HeaderView {
                magic,
                version,
                header_length,
                created_at_ns: spec_u64_from_le_bytes(b.subrange(8, 16)),
                record_count: spec_u64_from_le_bytes(b.subrange(16, 24)),
                instrument_id: spec_u32_from_le_bytes(b.subrange(24, 28)),
                symbol: decode_utf8(symbol),
                footprint_flags: if 29 + n < b.len() {
                    b[29 + n]
                } else {
                    0
                },
                header_checksum: if 34 + n <= b.len() {
                    spec_u32_from_le_bytes(b.subrange(30 + n, 34 + n))
                } else {
                    0
                },
                metadata: meta->0,
            },
        )
    }
}

/// Decodes a metadata block of a `.nohlcv` header: one-byte key lengths and
/// two-byte value lengths, read while at least two bytes remain.
pub fn decode_metadata(bytes: &[u8]) -> (r: Result<Vec<(String, String)>, NohlcvError>)
    ensures
        match spec_decode_entries(bytes@, 0, 2, 2, Seq::empty()) {
            Some(m) => r matches Ok(v) && entries_view(v@) == m,
            None => r matches Err(NohlcvError::InvalidUtf8(_)),
        },
{
    match decode_entries(bytes, 2, 2) {
        Ok(v) => Ok(v),
        Err(e) => Err(NohlcvError::InvalidUtf8(e)),
    }
}

/// Parse the header fields that follow the 8-byte prefix; `magic`,
/// `version` and `header_length` come from that prefix.
pub fn parse_header_bytes(header_bytes: &[u8], magic: [u8; 4], version: u16, header_length: u16) -> (r:
    Result<NohlcvHeader, NohlcvError>)
    requires
        header_bytes@.len() >= 28,
    ensures
        header_bytes@.len() == 28 ==> (r matches Err(NohlcvError::CorruptedHeader(msg)) && msg@
            == "Missing symbol length"@),
        header_bytes@.len() > 28 && 29 + header_bytes@[28] > header_bytes@.len() ==> (r matches Err(
            NohlcvError::CorruptedHeader(msg),
        ) && msg@ == "Symbol extends beyond header"@),
        header_bytes@.len() > 28 && 29 + header_bytes@[28] <= header_bytes@.len() ==> match spec_nohlcv_layout(
            header_bytes@,
            magic@,
            version,
            header_length,
        ) {
            Some(h) => r matches Ok(hd) && hd.view() == h,
            None => r matches Err(NohlcvError::InvalidUtf8(_)),
        },
{
    let len = header_bytes.len();
    let created_at_ns = read_u64_at(header_bytes, 8);
    let record_count = read_u64_at(header_bytes, 16);
    let instrument_id = read_u32_at(header_bytes, 24);
    if len <= 28 {
        return Err(NohlcvError::CorruptedHeader(String::from_str("Missing symbol length")));
    }
    let n = header_bytes[28] as usize;
    if n > len - 29 {
        return Err(NohlcvError::CorruptedHeader(String::from_str("Symbol extends beyond header")));
    }
    let symbol = match string_from_utf8(slice_to_vec(slice_subrange(header_bytes, 29, 29 + n))) {
        Ok(s) => s,
        Err(e) => return Err(NohlcvError::InvalidUtf8(e)),
    };
    let footprint_flags: u8 = if 29 + n < len {
        header_bytes[29 + n]
    } else {
        0
    };
    let header_checksum: u32 = if 34 + n <= len {
        read_u32_at(header_bytes, 30 + n)
    } else {
        0
    };
    let meta_start = 34 + n;
    let metadata = if meta_start < len {
        match decode_metadata(slice_subrange(header_bytes, meta_start, len)) {
            Ok(m) => m,
            Err(e) => return Err(e),
        }
    } else {
        let m: Vec<(String, String)> = Vec::new();
        assert(entries_view(m@) =~= Seq::<(Seq<char>, Seq<char>)>::empty());
        m
    };
    Ok(NohlcvHeader {
        magic,
        version,
        header_length,
        created_at_ns,
        record_count,
        instrument_id,
        symbol,
        footprint_flags,
        header_checksum,
        metadata,
    })
}

/// The header that a whole header block decodes to, magic, version and
/// length read from its first eight bytes.
pub open spec fn spec_header_block(b: Seq<u8>) -> Option<HeaderView> {
    spec_nohlcv_layout(
        b,
        b.subrange(0, 4),
        spec_u16_from_le_bytes(b.subrange(4, 6)),
        spec_u16_from_le_bytes(b.subrange(6, 8)),
    )
}

/// Read and validate a header block: the first `header_length` bytes of a
/// file, as announced by bytes 6..8. Returns the header and the offset where
/// the records start.
pub fn read_and_validate_header(header_bytes: &[u8]) -> (r: Result<(NohlcvHeader, u64), NohlcvError>)
    requires
        header_bytes@.len() >= 8,
        announced_length(header_bytes@) >= 32 ==> header_bytes@.len() == announced_length(header_bytes@),
    ensures
        announced_length(header_bytes@) < 32 ==> (r matches Err(NohlcvError::CorruptedHeader(msg)) && msg@
            == "Invalid header length: "@ + spec_decimal(announced_length(header_bytes@) as nat)),
        announced_length(header_bytes@) >= 32 && 29 + header_bytes@[28] > header_bytes@.len() ==> (r matches Err(
            NohlcvError::CorruptedHeader(msg),
        ) && msg@ == "Symbol extends beyond header"@),
        announced_length(header_bytes@) >= 32 && 29 + header_bytes@[28] <= header_bytes@.len() ==> match spec_header_block(
            header_bytes@,
        ) {
            Some(h) => if spec_header_problem(h) == 0 {
                r matches Ok((hd, off)) && hd.view() == h && off == header_bytes@.len()
            } else {
                r matches Err(e) && spec_validation_error(h, e)
            },
            None => r matches Err(NohlcvError::InvalidUtf8(_)),
        },
{
    let len = header_bytes.len();
    let magic: [u8; 4] = [header_bytes[0], header_bytes[1], header_bytes[2], header_bytes[3]];
    assert(magic@ =~= header_bytes@.subrange(0, 4));
    let version = read_u16_at(header_bytes, 4);
    let header_length = read_u16_at(header_bytes, 6);
    if header_length < 32 {
        let mut msg = String::from_str("Invalid header length: ");
        push_decimal(&mut msg, header_length as u64);
        return Err(NohlcvError::CorruptedHeader(msg));
    }
    let header = match parse_header_bytes(header_bytes, magic, version, header_length) {
        Ok(h) => h,
        Err(e) => return Err(e),
    };
    match header.validate() {
        Ok(()) => Ok((header, len as u64)),
        Err(e) => Err(e),
    }
}

/// Checks the size of a file before its header is read: it must hold at
/// least 32 bytes.
pub fn check_min_file_size(file_len: u64) -> (r: Result<(), NohlcvError>)
    ensures
        file_len >= 32 <==> r is Ok,
        file_len < 32 ==> (r matches Err(NohlcvError::InvalidData(msg)) && msg@ == "File too small: "@
            + spec_decimal(file_len as nat) + " bytes"@),
{
    if file_len < 32 {
        let mut msg = String::from_str("File too small: ");
        push_decimal(&mut msg, file_len);
        msg.append(" bytes");
        return Err(NohlcvError::InvalidData(msg));
    }
    Ok(())
}

impl NohlcvHeader {
    /// Checks that a file of `file_len` bytes holds everything the header
    /// announces.
    pub fn check_file_len(&self, file_len: u64) -> (r: Result<(), NohlcvError>)
        requires
            self.header_length + self.record_count * 64 <= u64::MAX,
        ensures
            file_len >= self.header_length + self.record_count * 64 <==> r is Ok,
            r matches Err(e) ==> (e matches NohlcvError::InvalidData(msg) && msg@ == "File truncated: expected "@
                + spec_decimal((self.header_length + self.record_count * 64) as nat) + " bytes, found "@
                + spec_decimal(file_len as nat)),
    {
        let expected = self.expected_file_size();
        if file_len < expected {
            let mut msg = String::from_str("File truncated: expected ");
            push_decimal(&mut msg, expected);
            msg.append(" bytes, found ");
            push_decimal(&mut msg, file_len);
            return Err(NohlcvError::InvalidData(msg));
        }
        Ok(())
    }
}

/// Single OHLCV record (64 bytes on disk)
#[derive(Debug, Clone, Copy, PartialEq, Eq, Structural)]
pub struct OhlcvRecord {
    /// Event timestamp in nanoseconds since Unix epoch
    pub ts_event: u64,
    /// Opening price (scaled by 1e9)
    pub open_px: i64,
    /// Highest price (scaled by 1e9)
    pub high_px: i64,
    /// Lowest price (scaled by 1e9)
    pub low_px: i64,
    /// Closing price (scaled by 1e9)
    pub close_px: i64,
    /// Trading volume
    pub volume: u64,
    /// Turnover/value traded
    pub turnover: u64,
    /// Number of trades in this bar
    pub trade_count: u32,
    /// Reserved for future use
    pub _reserved: u32,
}

/// Prices that mark a missing value: `i64::MAX` and -1.
pub open spec fn spec_is_null_price(p: i64) -> bool {
    p == i64::MAX || p == -1
}

/// The record that the 64 bytes `b` decode to.
pub open spec fn spec_ohlcv_from_bytes(b: Seq<u8>) -> OhlcvRecord {
    OhlcvRecord {
        ts_event: spec_u64_from_le_bytes(b.subrange(0, 8)),
        open_px: spec_u64_from_le_bytes(b.subrange(8, 16)) as i64,
        high_px: spec_u64_from_le_bytes(b.subrange(16, 24)) as i64,
        low_px: spec_u64_from_le_bytes(b.subrange(24, 32)) as i64,
        close_px: spec_u64_from_le_bytes(b.subrange(32, 40)) as i64,
        volume: spec_u64_from_le_bytes(b.subrange(40, 48)),
        turnover: spec_u64_from_le_bytes(b.subrange(48, 56)),
        trade_count: spec_u32_from_le_bytes(b.subrange(56, 60)),
        _reserved: spec_u32_from_le_bytes(b.subrange(60, 64)),
    }
}

/// The 64-byte encoding of a record.
pub open spec fn spec_ohlcv_to_bytes(r: OhlcvRecord) -> Seq<u8> {
    spec_u64_to_le_bytes(r.ts_event) + spec_u64_to_le_bytes(r.open_px as u64) + spec_u64_to_le_bytes(
        r.high_px as u64,
    ) + spec_u64_to_le_bytes(r.low_px as u64) + spec_u64_to_le_bytes(r.close_px as u64)
        + spec_u64_to_le_bytes(r.volume) + spec_u64_to_le_bytes(r.turnover) + spec_u32_to_le_bytes(
        r.trade_count,
    ) + spec_u32_to_le_bytes(r._reserved)
}

/// All four prices are present.
pub open spec fn spec_has_valid_prices(r: OhlcvRecord) -> bool {
    !spec_is_null_price(r.open_px) && !spec_is_null_price(r.high_px) && !spec_is_null_price(r.low_px)
        && !spec_is_null_price(r.close_px)
}

/// All prices are present, high is the highest and low the lowest.
pub open spec fn spec_valid_ohlc(r: OhlcvRecord) -> bool {
    &&& spec_has_valid_prices(r)
    &&& r.high_px >= r.open_px && r.high_px >= r.low_px && r.high_px >= r.close_px
    &&& r.low_px <= r.open_px && r.low_px <= r.close_px
}

impl OhlcvRecord {
    /// Decode a record from a 64-byte buffer
    pub fn from_bytes(buffer: &[u8; 64]) -> (r: Self)
        ensures
            r == spec_ohlcv_from_bytes(buffer@),
    {
        let b = buffer.as_slice();
        OhlcvRecord {
            ts_event: read_u64_at(b, 0),
            open_px: read_u64_at(b, 8) as i64,
            high_px: read_u64_at(b, 16) as i64,
            low_px: read_u64_at(b, 24) as i64,
            close_px: read_u64_at(b, 32) as i64,
            volume: read_u64_at(b, 40),
            turnover: read_u64_at(b, 48),
            trade_count: read_u32_at(b, 56),
            _reserved: read_u32_at(b, 60),
        }
    }

    /// Encode the record to a 64-byte buffer
    pub fn to_bytes(&self) -> (r: [u8; 64])
        ensures
            r@ == spec_ohlcv_to_bytes(*self),
    {
        let mut v: Vec<u8> = u64_to_le_bytes(self.ts_event);
        let mut part = u64_to_le_bytes(self.open_px as u64);
        v.append(&mut part);
        let mut part = u64_to_le_bytes(self.high_px as u64);
        v.append(&mut part);
        let mut part = u64_to_le_bytes(self.low_px as u64);
        v.append(&mut part);
        let mut part = u64_to_le_bytes(self.close_px as u64);
        v.append(&mut part);
        let mut part = u64_to_le_bytes(self.volume);
        v.append(&mut part);
        let mut part = u64_to_le_bytes(self.turnover);
        v.append(&mut part);
        let mut part = u32_to_le_bytes(self.trade_count);
        v.append(&mut part);
        let mut part = u32_to_le_bytes(self._reserved);
        v.append(&mut part);
        let mut buffer = [0u8; 64];
        copy_prefix(&mut buffer, &v);
        assert(buffer@ =~= spec_ohlcv_to_bytes(*self));
        buffer
    }

    /// Check if all price fields are valid (not `i64::MAX`, not -1)
    pub fn has_valid_prices(&self) -> (b: bool)
        ensures
            b == spec_has_valid_prices(*self),
            b <==> (self.open_px != i64::MAX && self.high_px != i64::MAX && self.low_px != i64::MAX
                && self.close_px != i64::MAX && self.open_px != -1 && self.high_px != -1 && self.low_px != -1
                && self.close_px != -1),
    {
        self.open_px != i64::MAX && self.high_px != i64::MAX && self.low_px != i64::MAX
            && self.close_px != i64::MAX && self.open_px != -1 && self.high_px != -1
            && self.low_px != -1 && self.close_px != -1
    }

    /// Validate OHLC relationships
    pub fn validate_ohlc(&self) -> (b: bool)
        ensures
            b == spec_valid_ohlc(*self),
            b <==> (self.open_px != i64::MAX && self.high_px != i64::MAX && self.low_px != i64::MAX
                && self.close_px != i64::MAX && self.open_px != -1 && self.high_px != -1 && self.low_px != -1
                && self.close_px != -1 && self.low_px <= self.open_px <= self.high_px && self.low_px
                <= self.close_px <= self.high_px),
    {
        proof {
            lemma_valid_ohlc_exact(*self);
        }
        if !self.has_valid_prices() {
            return false;
        }
        self.high_px >= self.open_px && self.high_px >= self.low_px && self.high_px >= self.close_px
            && self.low_px <= self.open_px && self.low_px <= self.high_px && self.low_px
            <= self.close_px
    }
}

/// The record stored at byte `off` of `b`.
pub(crate) fn record_at(b: &[u8], off: usize) -> (r: OhlcvRecord)
    requires
        off + 64 <= b@.len(),
    ensures
        r == spec_ohlcv_from_bytes(b@.subrange(off as int, off + 64)),
{
    let _len = b.len();
    let ghost c = b@.subrange(off as int, off + 64);
    assert(c.subrange(0, 8) =~= b@.subrange(off as int, off + 8));
    assert(c.subrange(8, 16) =~= b@.subrange(off + 8, off + 16));
    assert(c.subrange(16, 24) =~= b@.subrange(off + 16, off + 24));
    assert(c.subrange(24, 32) =~= b@.subrange(off + 24, off + 32));
    assert(c.subrange(32, 40) =~= b@.subrange(off + 32, off + 40));
    assert(c.subrange(40, 48) =~= b@.subrange(off + 40, off + 48));
    assert(c.subrange(48, 56) =~= b@.subrange(off + 48, off + 56));
    assert(c.subrange(56, 60) =~= b@.subrange(off + 56, off + 60));
    assert(c.subrange(60, 64) =~= b@.subrange(off + 60, off + 64));
    OhlcvRecord {
        ts_event: read_u64_at(b, off),
        open_px: read_u64_at(b, off + 8) as i64,
        high_px: read_u64_at(b, off + 16) as i64,
        low_px: read_u64_at(b, off + 24) as i64,
        close_px: read_u64_at(b, off + 32) as i64,
        volume: read_u64_at(b, off + 40),
        turnover: read_u64_at(b, off + 48),
        trade_count: read_u32_at(b, off + 56),
        _reserved: read_u32_at(b, off + 60),
    }
}

/// The records that a run of whole 64-byte chunks decodes to.
pub open spec fn spec_decode_records(b: Seq<u8>) -> Seq<OhlcvRecord> {
    Seq::new(b.len() / 64, |i: int| spec_ohlcv_from_bytes(b.subrange(64 * i, 64 * i + 64)))
}

/// Decode consecutive 64-byte records from a buffer holding whole records.
pub fn decode_records(buffer: &[u8]) -> (v: Vec<OhlcvRecord>)
    requires
        buffer@.len() % 64 == 0,
    ensures
        v@ == spec_decode_records(buffer@),
{
    let len = buffer.len();
    let n = len / 64;
    let mut v: Vec<OhlcvRecord> = Vec::new();
    let mut i: usize = 0;
    let mut off: usize = 0;
    while i < n
        invariant
            len == buffer@.len(),
            n == len / 64,
            len % 64 == 0,
            i <= n,
            off == 64 * i,
            v@.len() == i,
            forall|j: int| 0 <= j < i ==> v@[j] == spec_ohlcv_from_bytes(buffer@.subrange(64 * j, 64 * j + 64)),
        decreases n - i,
    {
        assert(off + 64 <= buffer@.len());
        v.push(record_at(buffer, off));
        i = i + 1;
        off = off + 64;
    }
    assert(v@ =~= spec_decode_records(buffer@));
    v
}

/// Where a single record starts: `payload_offset + index * 64`. Fails with
/// `IndexOutOfBounds` for an index past the end.
pub fn record_offset(record_count: u64, payload_offset: u64, index: u64) -> (r: Result<u64, NohlcvError>)
    requires
        record_count > 0,
        payload_offset + record_count * 64 <= u64::MAX,
    ensures
        index < record_count ==> r == Ok::<u64, NohlcvError>((payload_offset + index * 64) as u64),
        index >= record_count ==> (r matches Err(NohlcvError::IndexOutOfBounds { index: i, max })
            && i == index && max == record_count - 1),
{
    if index >= record_count {
        return Err(NohlcvError::IndexOutOfBounds { index, max: record_count - 1 });
    }
    assert(index * 64 <= record_count * 64) by (nonlinear_arith)
        requires
            index < record_count,
    ;
    Ok(payload_offset + index * 64)
}

/// Where a read of up to `count` records from `start` begins, and how many
/// records it takes: no more than remain after `start`.
pub fn plan_read(record_count: u64, payload_offset: u64, start: u64, count: usize) -> (r: Result<
    (u64, usize),
    NohlcvError,
>)
    requires
        record_count > 0,
        payload_offset + record_count * 64 <= u64::MAX,
    ensures
        start < record_count ==> (r matches Ok((off, n)) && off == payload_offset + start * 64 && n
            == (if count < record_count - start {
            count as int
        } else {
            record_count - start
        })),
        start >= record_count ==> (r matches Err(NohlcvError::IndexOutOfBounds { index, max })
            && index == start && max == record_count - 1),
{
    let off = match record_offset(record_count, payload_offset, start) {
        Ok(o) => o,
        Err(e) => return Err(e),
    };
    let available = record_count - start;
    let n: usize = if (count as u64) < available {
        count
    } else {
        available as usize
    };
    Ok((off, n))
}

/// The records that pass the OHLC check, in their order.
pub fn filter_valid(records: Vec<OhlcvRecord>) -> (v: Vec<OhlcvRecord>)
    ensures
        v@ == records@.filter(|r: OhlcvRecord| spec_valid_ohlc(r)),
{
    let ghost pred = |r: OhlcvRecord| spec_valid_ohlc(r);
    let mut v: Vec<OhlcvRecord> = Vec::new();
    let mut i: usize = 0;
    while i < records.len()
        invariant
            i <= records@.len(),
            pred == (|r: OhlcvRecord| spec_valid_ohlc(r)),
            v@ == records@.subrange(0, i as int).filter(pred),
        decreases records@.len() - i,
    {
        let r = records[i];
        let ghost prefix = records@.subrange(0, i + 1);
        proof {
            reveal(Seq::filter);
            assert(prefix.drop_last() =~= records@.subrange(0, i as int));
            assert(prefix.last() == r);
            assert(prefix.filter(pred) == if pred(r) {
                records@.subrange(0, i as int).filter(pred).push(r)
            } else {
                records@.subrange(0, i as int).filter(pred)
            });
        }
        if r.validate_ohlc() {
            v.push(r);
        }
        i = i + 1;
    }
    assert(records@.subrange(0, records@.len() as int) =~= records@);
    v
}

/// The integer statistics of a run of bars: how many pass the OHLC check,
/// the extremes of timestamps and of valid lows and highs, and the totals.
pub struct OhlcvCounts {
    pub record_count: usize,
    pub valid_count: usize,
    pub invalid_count: usize,
    pub min_low_px: Option<i64>,
    pub max_high_px: Option<i64>,
    pub total_volume: u64,
    pub total_turnover: u64,
    pub total_trades: u64,
    pub min_timestamp: Option<u64>,
    pub max_timestamp: Option<u64>,
}

pub open spec fn bar_volume(r: OhlcvRecord) -> int {
    r.volume as int
}

pub open spec fn bar_turnover(r: OhlcvRecord) -> int {
    r.turnover as int
}

pub open spec fn bar_trades(r: OhlcvRecord) -> int {
    r.trade_count as int
}

pub open spec fn bar_ts(r: OhlcvRecord) -> int {
    r.ts_event as int
}

pub open spec fn bar_low(r: OhlcvRecord) -> int {
    r.low_px as int
}

pub open spec fn bar_high(r: OhlcvRecord) -> int {
    r.high_px as int
}

pub open spec fn any_bar(r: OhlcvRecord) -> bool {
    true
}

pub open spec fn opt_u64(o: Option<u64>) -> Option<int> {
    match o {
        Some(x) => Some(x as int),
        None => None,
    }
}

pub open spec fn opt_px(o: Option<i64>) -> Option<int> {
    match o {
        Some(x) => Some(x as int),
        None => None,
    }
}

/// The totals of volume, turnover and trade count over `s` each fit in a `u64`.
pub open spec fn totals_fit(s: Seq<OhlcvRecord>) -> bool {
    &&& sum_of(s, |r: OhlcvRecord| bar_volume(r)) <= u64::MAX
    &&& sum_of(s, |r: OhlcvRecord| bar_turnover(r)) <= u64::MAX
    &&& sum_of(s, |r: OhlcvRecord| bar_trades(r)) <= u64::MAX
}

impl OhlcvCounts {
    /// The statistics of `s`.
    pub open spec fn describes(&self, s: Seq<OhlcvRecord>) -> bool {
        &&& self.record_count == s.len()
        &&& self.valid_count == count_matching(s, |r: OhlcvRecord| spec_valid_ohlc(r))
        &&& self.invalid_count == count_matching(s, |r: OhlcvRecord| !spec_valid_ohlc(r))
        &&& opt_px(self.min_low_px) == min_where(s, |r: OhlcvRecord| spec_valid_ohlc(r), |r: OhlcvRecord| bar_low(r))
        &&& opt_px(self.max_high_px) == max_where(s, |r: OhlcvRecord| spec_valid_ohlc(r), |r: OhlcvRecord| bar_high(r))
        &&& self.total_volume == sum_of(s, |r: OhlcvRecord| bar_volume(r))
        &&& self.total_turnover == sum_of(s, |r: OhlcvRecord| bar_turnover(r))
        &&& self.total_trades == sum_of(s, |r: OhlcvRecord| bar_trades(r))
        &&& opt_u64(self.min_timestamp) == min_where(s, |r: OhlcvRecord| any_bar(r), |r: OhlcvRecord| bar_ts(r))
        &&& opt_u64(self.max_timestamp) == max_where(s, |r: OhlcvRecord| any_bar(r), |r: OhlcvRecord| bar_ts(r))
    }

    /// Compute the statistics of `records`.
    pub fn calculate(records: &[OhlcvRecord]) -> (c: OhlcvCounts)
        requires
            totals_fit(records@),
        ensures
            c.describes(records@),
    {
        let n = records.len();
        let mut c = OhlcvCounts {
            record_count: 0,
            valid_count: 0,
            invalid_count: 0,
            min_low_px: None,
            max_high_px: None,
            total_volume: 0,
            total_turnover: 0,
            total_trades: 0,
            min_timestamp: None,
            max_timestamp: None,
        };
        let mut i: usize = 0;
        proof {
            assert(records@.subrange(0, 0) =~= Seq::<OhlcvRecord>::empty());
        }
        while i < n
            invariant
                n == records@.len(),
                i <= n,
                totals_fit(records@),
                c.describes(records@.subrange(0, i as int)),
            decreases n - i,
        {
            let r = records[i];
            proof {
                lemma_prefix_step(records@, i as int);
                lemma_sum_prefix_le(records@, |r: OhlcvRecord| bar_volume(r), i + 1);
                lemma_sum_prefix_le(records@, |r: OhlcvRecord| bar_turnover(r), i + 1);
                lemma_sum_prefix_le(records@, |r: OhlcvRecord| bar_trades(r), i + 1);
                let t = records@.subrange(0, i as int);
                lemma_count_le(t, |r: OhlcvRecord| spec_valid_ohlc(r));
                lemma_count_le(t, |r: OhlcvRecord| !spec_valid_ohlc(r));
            }
            c.record_count = c.record_count + 1;
            c.min_timestamp = match c.min_timestamp {
                None => Some(r.ts_event),
                Some(m) => Some(if r.ts_event < m { r.ts_event } else { m }),
            };
            c.max_timestamp = match c.max_timestamp {
                None => Some(r.ts_event),
                Some(m) => Some(if r.ts_event > m { r.ts_event } else { m }),
            };
            if r.validate_ohlc() {
                c.valid_count = c.valid_count + 1;
                c.min_low_px = match c.min_low_px {
                    None => Some(r.low_px),
                    Some(m) => Some(if r.low_px < m { r.low_px } else { m }),
                };
                c.max_high_px = match c.max_high_px {
                    None => Some(r.high_px),
                    Some(m) => Some(if r.high_px > m { r.high_px } else { m }),
                };
            } else {
                c.invalid_count = c.invalid_count + 1;
            }
            c.total_volume = c.total_volume + r.volume;
            c.total_turnover = c.total_turnover + r.turnover;
            c.total_trades = c.total_trades + r.trade_count as u64;
            i = i + 1;
        }
        proof {
            assert(records@.subrange(0, n as int) =~= records@);
        }
        c
    }
}

/// Decoding the encoding of any OHLCV record gives the record back.
pub proof fn lemma_ohlcv_record_roundtrip(r: OhlcvRecord)
    ensures
        spec_ohlcv_from_bytes(spec_ohlcv_to_bytes(r)) == r,
{
    lemma_auto_spec_u64_to_from_le_bytes();
    lemma_auto_spec_u32_to_from_le_bytes();
    lemma_i64_bits_roundtrip(r.open_px);
    lemma_i64_bits_roundtrip(r.high_px);
    lemma_i64_bits_roundtrip(r.low_px);
    lemma_i64_bits_roundtrip(r.close_px);
    let b = spec_ohlcv_to_bytes(r);
    assert(b.subrange(0, 8) =~= spec_u64_to_le_bytes(r.ts_event));
    assert(b.subrange(8, 16) =~= spec_u64_to_le_bytes(r.open_px as u64));
    assert(b.subrange(16, 24) =~= spec_u64_to_le_bytes(r.high_px as u64));
    assert(b.subrange(24, 32) =~= spec_u64_to_le_bytes(r.low_px as u64));
    assert(b.subrange(32, 40) =~= spec_u64_to_le_bytes(r.close_px as u64));
    assert(b.subrange(40, 48) =~= spec_u64_to_le_bytes(r.volume));
    assert(b.subrange(48, 56) =~= spec_u64_to_le_bytes(r.turnover));
    assert(b.subrange(56, 60) =~= spec_u32_to_le_bytes(r.trade_count));
    assert(b.subrange(60, 64) =~= spec_u32_to_le_bytes(r._reserved));
}

/// Every 64-byte buffer is the encoding of the record it decodes to.
pub proof fn lemma_ohlcv_bytes_roundtrip(b: Seq<u8>)
    requires
        b.len() == 64,
    ensures
        spec_ohlcv_to_bytes(spec_ohlcv_from_bytes(b)) == b,
{
    lemma_auto_spec_u64_to_from_le_bytes();
    lemma_auto_spec_u32_to_from_le_bytes();
    let r = spec_ohlcv_from_bytes(b);
    lemma_u64_bits_roundtrip(spec_u64_from_le_bytes(b.subrange(8, 16)));
    lemma_u64_bits_roundtrip(spec_u64_from_le_bytes(b.subrange(16, 24)));
    lemma_u64_bits_roundtrip(spec_u64_from_le_bytes(b.subrange(24, 32)));
    lemma_u64_bits_roundtrip(spec_u64_from_le_bytes(b.subrange(32, 40)));
    assert(spec_u64_to_le_bytes(r.ts_event) == b.subrange(0, 8));
    assert(spec_u64_to_le_bytes(r.open_px as u64) == b.subrange(8, 16));
    assert(spec_u64_to_le_bytes(r.high_px as u64) == b.subrange(16, 24));
    assert(spec_u64_to_le_bytes(r.low_px as u64) == b.subrange(24, 32));
    assert(spec_u64_to_le_bytes(r.close_px as u64) == b.subrange(32, 40));
    assert(spec_u64_to_le_bytes(r.volume) == b.subrange(40, 48));
    assert(spec_u64_to_le_bytes(r.turnover) == b.subrange(48, 56));
    assert(spec_u32_to_le_bytes(r.trade_count) == b.subrange(56, 60));
    assert(spec_u32_to_le_bytes(r._reserved) == b.subrange(60, 64));
    assert(spec_ohlcv_to_bytes(r) =~= b);
}

/// The OHLC check accepts a record exactly when none of its four prices is
/// missing (`i64::MAX` or -1) and both the open and the close lie between
/// the low and the high, ends included: a bar may open or close at its high
/// or its low.
pub proof fn lemma_valid_ohlc_exact(r: OhlcvRecord)
    ensures
        spec_valid_ohlc(r) <==> (r.open_px != i64::MAX && r.high_px != i64::MAX && r.low_px != i64::MAX && r.close_px
            != i64::MAX && r.open_px != -1 && r.high_px != -1 && r.low_px != -1 && r.close_px != -1 && r.low_px
            <= r.open_px <= r.high_px && r.low_px <= r.close_px <= r.high_px),
{
}

/// A record that passes the OHLC check has all prices present, and its low
/// is at most its high.
pub proof fn lemma_valid_ohlc_ordered(r: OhlcvRecord)
    requires
        spec_valid_ohlc(r),
    ensures
        spec_has_valid_prices(r),
        r.low_px <= r.close_px <= r.high_px,
        r.low_px <= r.open_px <= r.high_px,
{
}

} // verus!
