//! The `.ntrd` trade file format: fixed 64-byte trade records.

use vstd::prelude::*;
use vstd::bytes::*;
use crate::header::{announced_length, fixed_layout_fits, parse_fixed_layout, spec_fixed_layout, HeaderView};
use crate::metadata::entries_view;
use crate::seqs::{count_matching, lemma_count_le, lemma_prefix_step, lemma_sum_prefix_le, max_where, min_where, sum_of};
use crate::text::{push_decimal, spec_decimal};
use crate::codec::{
    copy_prefix, lemma_i64_bits_roundtrip, lemma_u64_bits_roundtrip, read_u16_at, read_u32_at,
    read_u64_at,
};

verus! {

/// Magic bytes for NTRD files ("NTRD")
pub open spec fn spec_ntrd_magic() -> Seq<u8> {
    seq![78u8, 84u8, 82u8, 68u8]
}

/// Magic bytes for NTRD files ("NTRD")
pub fn ntrd_magic() -> (m: [u8; 4])
    ensures
        m@ == spec_ntrd_magic(),
{
    let m: [u8; 4] = [78u8, 84u8, 82u8, 68u8];
    assert(m@ =~= spec_ntrd_magic());
    m
}

/// Expected version
pub const EXPECTED_VERSION: u16 = 1;

/// Size of a single trade record in bytes
pub const RECORD_SIZE: usize = 64;

/// Errors of NTRD operations
#[derive(Debug)]
pub enum NtrdError {
    Io(std::io::Error),
    InvalidMagic([u8; 4]),
    InvalidVersion(u16),
    InvalidUtf8(std::string::FromUtf8Error),
    InvalidData(String),
}

/// Header of a `.ntrd` file
#[derive(Debug)]
pub struct NtrdHeader {
    pub magic: [u8; 4],
    pub version: u16,
    pub header_length: u16,
    pub created_at_ns: u64,
    pub record_count: u64,
    pub instrument_id: u32,
    pub symbol: String,
    pub footprint_flags: u8,
    pub header_checksum: u32,
    /// Metadata entries, in key order; no key occurs twice
    pub metadata: Vec<(String, String)>,
}

impl NtrdHeader {
    pub open spec fn view(&self) -> HeaderView {
        HeaderView {
            magic: self.magic@,
            version: self.version,
            header_length: self.header_length,
            created_at_ns: self.created_at_ns,
            record_count: self.record_count,
            instrument_id: self.instrument_id,
            symbol: self.symbol@,
            footprint_flags: self.footprint_flags,
            header_checksum: self.header_checksum,
            metadata: entries_view(self.metadata@),
        }
    }
}

/// The first four bytes of `b` are the NTRD magic.
pub open spec fn has_ntrd_magic(b: Seq<u8>) -> bool {
    b.subrange(0, 4) == spec_ntrd_magic()
}

/// Checks the 8-byte prefix of a header: the magic bytes must match. Returns
/// the announced version and header length.
pub fn check_prefix(prefix: &[u8; 8]) -> (r: Result<(u16, u16), NtrdError>)
    ensures
        has_ntrd_magic(prefix@) ==> (r matches Ok((v, len)) && v == spec_u16_from_le_bytes(
            prefix@.subrange(4, 6),
        ) && len == spec_u16_from_le_bytes(prefix@.subrange(6, 8))),
        !has_ntrd_magic(prefix@) ==> (r matches Err(NtrdError::InvalidMagic(m)) && m@
            == prefix@.subrange(0, 4)),
{
    let magic: [u8; 4] = [prefix[0], prefix[1], prefix[2], prefix[3]];
    assert(magic@ =~= prefix@.subrange(0, 4));
    let expected = ntrd_magic();
    if magic[0] != expected[0] || magic[1] != expected[1] || magic[2] != expected[2]
        || magic[3] != expected[3] {
        return Err(NtrdError::InvalidMagic(magic));
    }
    assert(magic@ =~= spec_ntrd_magic());
    let b = prefix.as_slice();
    Ok((read_u16_at(b, 4), read_u16_at(b, 6)))
}

/// Decodes a whole header (the first `header_length` bytes of the file).
/// Returns the header and the offset where the records start. Fails only
/// when the symbol or a metadata key or value is not UTF-8.
pub fn read_header(header_bytes: &[u8]) -> (r: Result<(NtrdHeader, u64), NtrdError>)
    requires
        fixed_layout_fits(header_bytes@),
        announced_length(header_bytes@) == header_bytes@.len(),
    ensures
        match spec_fixed_layout(header_bytes@, 1, 2) {
            Some(h) => r matches Ok((hd, off)) && hd.view() == h && off == header_bytes@.len(),
            None => r matches Err(NtrdError::InvalidUtf8(_)),
        },
{
    let len = header_bytes.len();
    match parse_fixed_layout(header_bytes, 1, 2) {
        Ok(raw) => {
            let header = NtrdHeader {
                magic: raw.magic,
                version: raw.version,
                header_length: raw.header_length,
                created_at_ns: raw.created_at_ns,
                record_count: raw.record_count,
                instrument_id: raw.instrument_id,
                symbol: raw.symbol,
                footprint_flags: raw.footprint_flags,
                header_checksum: raw.header_checksum,
                metadata: raw.metadata,
            };
            Ok((header, len as u64))
        },
        Err(e) => Err(NtrdError::InvalidUtf8(e)),
    }
}

/// Decodes a metadata block of a `.ntrd` header: one-byte key lengths and
/// two-byte value lengths, read while any byte remains.
pub fn decode_metadata(bytes: &[u8]) -> (r: Result<Vec<(String, String)>, NtrdError>)
    ensures
        match crate::metadata::spec_decode_entries(bytes@, 0, 1, 2, Seq::empty()) {
            Some(m) => r matches Ok(v) && entries_view(v@) == m,
            None => r matches Err(NtrdError::InvalidUtf8(_)),
        },
{
    match crate::metadata::decode_entries(bytes, 1, 2) {
        Ok(v) => Ok(v),
        Err(e) => Err(NtrdError::InvalidUtf8(e)),
    }
}

/// Single trade record (64 bytes on disk).
#[derive(Debug, Clone, Copy, PartialEq, Eq, Structural)]
pub struct TradeRecord {
    /// Event timestamp in nanoseconds since Unix epoch
    pub ts_event: u64,
    /// Receive timestamp in nanoseconds
    pub ts_recv: u64,
    /// Price in nanodollars
    pub price: i64,
    /// Trade size in shares
    pub size: u32,
    /// Trade side as an ASCII byte
    pub side: u8,
    /// Trade condition flags
    pub flags: u8,
    /// Exchange/publisher ID
    pub exchange: u16,
    /// Unique trade sequence number
    pub trade_id: u64,
}

/// The record that the 64 bytes `b` decode to.
pub open spec fn spec_trade_from_bytes(b: Seq<u8>) -> TradeRecord {
    TradeRecord {
        ts_event: spec_u64_from_le_bytes(b.subrange(0, 8)),
        ts_recv: spec_u64_from_le_bytes(b.subrange(8, 16)),
        price: spec_u64_from_le_bytes(b.subrange(16, 24)) as i64,
        size: spec_u32_from_le_bytes(b.subrange(24, 28)),
        side: b[28],
        flags: b[29],
        exchange: spec_u16_from_le_bytes(b.subrange(30, 32)),
        trade_id: spec_u64_from_le_bytes(b.subrange(32, 40)),
    }
}

/// The 40 meaningful bytes of a record's encoding.
pub open spec fn spec_trade_payload(r: TradeRecord) -> Seq<u8> {
    spec_u64_to_le_bytes(r.ts_event) + spec_u64_to_le_bytes(r.ts_recv) + spec_u64_to_le_bytes(
        r.price as u64,
    ) + spec_u32_to_le_bytes(r.size) + seq![r.side, r.flags] + spec_u16_to_le_bytes(r.exchange)
        + spec_u64_to_le_bytes(r.trade_id)
}

/// The 64-byte encoding of a record: the payload, then 24 reserved zero bytes.
pub open spec fn spec_trade_to_bytes(r: TradeRecord) -> Seq<u8> {
    spec_trade_payload(r) + Seq::new(24, |i: int| 0u8)
}

/// Side bytes: 'B' (66) is a buy; 'S' (83) and 'A' (65) are sells.
pub open spec fn spec_is_buy_side(side: u8) -> bool {
    side == 66
}

pub open spec fn spec_is_sell_side(side: u8) -> bool {
    side == 83 || side == 65
}

/// The readable name of a side byte.
pub open spec fn spec_side_label(side: u8) -> Seq<char> {
    if spec_is_buy_side(side) {
        "Buy"@
    } else if spec_is_sell_side(side) {
        "Sell"@
    } else {
        "Unknown"@
    }
}

/// The aggressor description of a side byte.
pub open spec fn spec_aggressor_label(side: u8) -> Seq<char> {
    if spec_is_buy_side(side) {
        "Buyer (lifted ask)"@
    } else if spec_is_sell_side(side) {
        "Seller (hit bid)"@
    } else {
        "Unknown"@
    }
}

/// Whether a side byte marks a buy.
pub fn is_buy_side(side: u8) -> (b: bool)
    ensures
        b == spec_is_buy_side(side),
{
    side == 66
}

/// Whether a side byte marks a sell.
pub fn is_sell_side(side: u8) -> (b: bool)
    ensures
        b == spec_is_sell_side(side),
{
    side == 83 || side == 65
}

/// The readable name of a side byte: "Buy", "Sell" or "Unknown".
pub fn side_label(side: u8) -> (s: &'static str)
    ensures
        s@ == spec_side_label(side),
{
    if side == 66 {
        "Buy"
    } else if side == 83 || side == 65 {
        "Sell"
    } else {
        "Unknown"
    }
}

impl TradeRecord {
    /// Get the side as a char
    pub fn side_char(&self) -> (c: char)
        ensures
            c == self.side as char,
    {
        self.side as char
    }

    /// Get the side as a readable string
    pub fn side_str(&self) -> (s: &str)
        ensures
            s@ == spec_side_label(self.side),
    {
        side_label(self.side)
    }

    /// Odd lot trade (flag bit 0x80)
    pub fn is_odd_lot(&self) -> (b: bool)
        ensures
            b == (self.flags & 0x80 != 0),
    {
        self.flags & 0x80 != 0
    }

    /// Opening trade (flag bit 0x10)
    pub fn is_opening(&self) -> (b: bool)
        ensures
            b == (self.flags & 0x10 != 0),
    {
        self.flags & 0x10 != 0
    }

    /// Closing trade (flag bit 0x20)
    pub fn is_closing(&self) -> (b: bool)
        ensures
            b == (self.flags & 0x20 != 0),
    {
        self.flags & 0x20 != 0
    }

    /// Buy trade (side 'B')
    pub fn is_buy(&self) -> (b: bool)
        ensures
            b == spec_is_buy_side(self.side),
    {
        is_buy_side(self.side)
    }

    /// Sell trade (side 'S' or 'A')
    pub fn is_sell(&self) -> (b: bool)
        ensures
            b == spec_is_sell_side(self.side),
    {
        is_sell_side(self.side)
    }

    /// The aggressor side is one of 'B', 'S', 'A'
    pub fn has_known_side(&self) -> (b: bool)
        ensures
            b == (spec_is_buy_side(self.side) || spec_is_sell_side(self.side)),
    {
        self.side == 66 || self.side == 83 || self.side == 65
    }

    /// Get aggressor side description
    pub fn aggressor_side(&self) -> (s: &str)
        ensures
            s@ == spec_aggressor_label(self.side),
    {
        if self.side == 66 {
            "Buyer (lifted ask)"
        } else if self.side == 83 || self.side == 65 {
            "Seller (hit bid)"
        } else {
            "Unknown"
        }
    }

    /// Decode a record from a 64-byte buffer.
    pub fn from_bytes(buffer: &[u8; 64]) -> (r: Self)
        ensures
            r == spec_trade_from_bytes(buffer@),
    {
        let b = buffer.as_slice();
        TradeRecord {
            ts_event: read_u64_at(b, 0),
            ts_recv: read_u64_at(b, 8),
            price: read_u64_at(b, 16) as i64,
            size: read_u32_at(b, 24),
            side: b[28],
            flags: b[29],
            exchange: read_u16_at(b, 30),
            trade_id: read_u64_at(b, 32),
        }
    }

    /// Encode the record to a 64-byte buffer (bytes 40..64 are zero).
    pub fn to_bytes(&self) -> (r: [u8; 64])
        ensures
            r@ == spec_trade_to_bytes(*self),
    {
        let mut v: Vec<u8> = u64_to_le_bytes(self.ts_event);
        let mut part = u64_to_le_bytes(self.ts_recv);
        v.append(&mut part);
        let mut part = u64_to_le_bytes(self.price as u64);
        v.append(&mut part);
        let mut part = u32_to_le_bytes(self.size);
        v.append(&mut part);
        v.push(self.side);
        v.push(self.flags);
        let mut part = u16_to_le_bytes(self.exchange);
        v.append(&mut part);
        let mut part = u64_to_le_bytes(self.trade_id);
        v.append(&mut part);
        assert(v@ =~= spec_trade_payload(*self));
        let mut buffer = [0u8; 64];
        copy_prefix(&mut buffer, &v);
        assert(buffer@ =~= spec_trade_to_bytes(*self));
        buffer
    }
}

/// The record stored at byte `off` of `b`.
pub(crate) fn record_at(b: &[u8], off: usize) -> (r: TradeRecord)
    requires
        off + 64 <= b@.len(),
    ensures
        r == spec_trade_from_bytes(b@.subrange(off as int, off + 64)),
{
    let _len = b.len();
    let ghost c = b@.subrange(off as int, off + 64);
    assert(c.subrange(0, 8) =~= b@.subrange(off as int, off + 8));
    assert(c.subrange(8, 16) =~= b@.subrange(off + 8, off + 16));
    assert(c.subrange(16, 24) =~= b@.subrange(off + 16, off + 24));
    assert(c.subrange(24, 28) =~= b@.subrange(off + 24, off + 28));
    assert(c.subrange(30, 32) =~= b@.subrange(off + 30, off + 32));
    assert(c.subrange(32, 40) =~= b@.subrange(off + 32, off + 40));
    TradeRecord {
        ts_event: read_u64_at(b, off),
        ts_recv: read_u64_at(b, off + 8),
        price: read_u64_at(b, off + 16) as i64,
        size: read_u32_at(b, off + 24),
        side: b[off + 28],
        flags: b[off + 29],
        exchange: read_u16_at(b, off + 30),
        trade_id: read_u64_at(b, off + 32),
    }
}

/// The records that a run of whole 64-byte chunks decodes to.
pub open spec fn spec_decode_trades(b: Seq<u8>) -> Seq<TradeRecord> {
    Seq::new(b.len() / 64, |i: int| spec_trade_from_bytes(b.subrange(64 * i, 64 * i + 64)))
}

/// Decode consecutive 64-byte records from a buffer holding whole records.
pub fn decode_records(buffer: &[u8]) -> (v: Vec<TradeRecord>)
    requires
        buffer@.len() % 64 == 0,
    ensures
        v@ == spec_decode_trades(buffer@),
{
    let len = buffer.len();
    let n = len / 64;
    let mut v: Vec<TradeRecord> = Vec::new();
    let mut i: usize = 0;
    let mut off: usize = 0;
    while i < n
        invariant
            len == buffer@.len(),
            n == len / 64,
            len % 64 == 0,
            i <= n,
            off == 64 * i,
            v@.len() == i,
            forall|j: int| 0 <= j < i ==> v@[j] == spec_trade_from_bytes(buffer@.subrange(64 * j, 64 * j + 64)),
        decreases n - i,
    {
        v.push(record_at(buffer, off));
        i = i + 1;
        off = off + 64;
    }
    assert(v@ =~= spec_decode_trades(buffer@));
    v
}

/// Where a single record starts: `payload_offset + index * 64`. An index
/// past the end is refused with its bound in the message.
pub fn record_offset(record_count: u64, payload_offset: u64, index: u64) -> (r: Result<u64, NtrdError>)
    requires
        record_count > 0,
        index < record_count ==> payload_offset + index * 64 <= u64::MAX,
    ensures
        index < record_count ==> r == Ok::<u64, NtrdError>((payload_offset + index * 64) as u64),
        index >= record_count ==> (r matches Err(NtrdError::InvalidData(msg)) && msg@ == "Index "@
            + spec_decimal(index as nat) + " out of bounds (max: "@ + spec_decimal((record_count - 1) as nat)
            + ")"@),
{
    if index >= record_count {
        let mut msg = String::from_str("Index ");
        push_decimal(&mut msg, index);
        msg.append(" out of bounds (max: ");
        push_decimal(&mut msg, record_count - 1);
        msg.append(")");
        return Err(NtrdError::InvalidData(msg));
    }
    Ok(payload_offset + index * 64)
}

/// Where a read of up to `count` records from `start` begins, and how many
/// records it takes: no more than remain after `start`.
pub fn plan_read(record_count: u64, payload_offset: u64, start: u64, count: usize) -> (r: Result<
    (u64, usize),
    NtrdError,
>)
    requires
        start < record_count ==> payload_offset + start * 64 <= u64::MAX,
    ensures
        start < record_count ==> (r matches Ok((off, n)) && off == payload_offset + start * 64 && n
            == (if count < record_count - start {
            count as int
        } else {
            record_count - start
        })),
        start >= record_count ==> (r matches Err(NtrdError::InvalidData(msg)) && msg@ == "Start index "@
            + spec_decimal(start as nat) + " out of bounds"@),
{
    if start >= record_count {
        let mut msg = String::from_str("Start index ");
        push_decimal(&mut msg, start);
        msg.append(" out of bounds");
        return Err(NtrdError::InvalidData(msg));
    }
    let available = record_count - start;
    let n: usize = if (count as u64) < available {
        count
    } else {
        available as usize
    };
    Ok((payload_offset + start * 64, n))
}

/// Which trades a filtered read keeps.
pub enum TradeFilter {
    /// Buy trades
    Buys,
    /// Sell trades
    Sells,
    /// Trades of at least this many shares
    MinSize(u32),
}

/// `r` passes filter `f`.
pub open spec fn spec_passes(f: TradeFilter, r: TradeRecord) -> bool {
    match f {
        TradeFilter::Buys => spec_is_buy_side(r.side),
        TradeFilter::Sells => spec_is_sell_side(r.side),
        TradeFilter::MinSize(m) => r.size >= m,
    }
}

/// The trades that pass `filter`, in their order.
pub fn filter_trades(records: Vec<TradeRecord>, filter: TradeFilter) -> (v: Vec<TradeRecord>)
    ensures
        v@ == records@.filter(|r: TradeRecord| spec_passes(filter, r)),
{
    let ghost pred = |r: TradeRecord| spec_passes(filter, r);
    let mut v: Vec<TradeRecord> = Vec::new();
    let mut i: usize = 0;
    while i < records.len()
        invariant
            i <= records@.len(),
            pred == (|r: TradeRecord| spec_passes(filter, r)),
            v@ == records@.subrange(0, i as int).filter(pred),
        decreases records@.len() - i,
    {
        let r = records[i];
        proof {
            reveal(Seq::filter);
            lemma_prefix_step(records@, i as int);
        }
        let keep = match filter {
            TradeFilter::Buys => r.is_buy(),
            TradeFilter::Sells => r.is_sell(),
            TradeFilter::MinSize(m) => r.size >= m,
        };
        if keep {
            v.push(r);
        }
        i = i + 1;
    }
    assert(records@.subrange(0, records@.len() as int) =~= records@);
    v
}

/// The integer statistics of a run of trades: counts by side and kind,
/// extremes of size and raw price, and the total volume.
pub struct TradeCounts {
    pub record_count: usize,
    pub buy_count: usize,
    pub sell_count: usize,
    pub other_count: usize,
    pub odd_lot_count: usize,
    pub opening_count: usize,
    pub closing_count: usize,
    pub min_size: Option<u32>,
    pub max_size: Option<u32>,
    pub min_price: Option<i64>,
    pub max_price: Option<i64>,
    pub total_volume: u64,
}

pub open spec fn trade_size(r: TradeRecord) -> int {
    r.size as int
}

pub open spec fn trade_price(r: TradeRecord) -> int {
    r.price as int
}

pub open spec fn any_trade(r: TradeRecord) -> bool {
    true
}

/// An `Option` of a machine integer as an `Option<int>`.
pub open spec fn opt_u32(o: Option<u32>) -> Option<int> {
    match o {
        Some(x) => Some(x as int),
        None => None,
    }
}

pub open spec fn opt_i64(o: Option<i64>) -> Option<int> {
    match o {
        Some(x) => Some(x as int),
        None => None,
    }
}

impl TradeCounts {
    /// The statistics of `s`.
    pub open spec fn describes(&self, s: Seq<TradeRecord>) -> bool {
        &&& self.record_count == s.len()
        &&& self.buy_count == count_matching(s, |r: TradeRecord| spec_is_buy_side(r.side))
        &&& self.sell_count == count_matching(
            s,
            |r: TradeRecord| !spec_is_buy_side(r.side) && spec_is_sell_side(r.side),
        )
        &&& self.other_count == count_matching(
            s,
            |r: TradeRecord| !spec_is_buy_side(r.side) && !spec_is_sell_side(r.side),
        )
        &&& self.odd_lot_count == count_matching(s, |r: TradeRecord| r.flags & 0x80 != 0)
        &&& self.opening_count == count_matching(s, |r: TradeRecord| r.flags & 0x10 != 0)
        &&& self.closing_count == count_matching(s, |r: TradeRecord| r.flags & 0x20 != 0)
        &&& opt_u32(self.min_size) == min_where(s, |r: TradeRecord| any_trade(r), |r: TradeRecord| trade_size(r))
        &&& opt_u32(self.max_size) == max_where(s, |r: TradeRecord| any_trade(r), |r: TradeRecord| trade_size(r))
        &&& opt_i64(self.min_price) == min_where(s, |r: TradeRecord| any_trade(r), |r: TradeRecord| trade_price(r))
        &&& opt_i64(self.max_price) == max_where(s, |r: TradeRecord| any_trade(r), |r: TradeRecord| trade_price(r))
        &&& self.total_volume == sum_of(s, |r: TradeRecord| trade_size(r))
    }

    /// Compute the statistics of `records`.
    pub fn calculate(records: &[TradeRecord]) -> (c: TradeCounts)
        requires
            sum_of(records@, |r: TradeRecord| trade_size(r)) <= u64::MAX,
        ensures
            c.describes(records@),
    {
        let n = records.len();
        let mut c = TradeCounts {
            record_count: 0,
            buy_count: 0,
            sell_count: 0,
            other_count: 0,
            odd_lot_count: 0,
            opening_count: 0,
            closing_count: 0,
            min_size: None,
            max_size: None,
            min_price: None,
            max_price: None,
            total_volume: 0,
        };
        let mut i: usize = 0;
        proof {
            assert(records@.subrange(0, 0) =~= Seq::<TradeRecord>::empty());
        }
        while i < n
            invariant
                n == records@.len(),
                i <= n,
                sum_of(records@, |r: TradeRecord| trade_size(r)) <= u64::MAX,
                c.describes(records@.subrange(0, i as int)),
            decreases n - i,
        {
            let r = records[i];
            proof {
                lemma_prefix_step(records@, i as int);
                lemma_sum_prefix_le(records@, |r: TradeRecord| trade_size(r), i + 1);
                let t = records@.subrange(0, i as int);
                assert(count_matching(t, |r: TradeRecord| spec_is_buy_side(r.side)) <= i) by {
                    lemma_count_le(t, |r: TradeRecord| spec_is_buy_side(r.side));
                }
                assert(count_matching(t, |r: TradeRecord| !spec_is_buy_side(r.side) && spec_is_sell_side(r.side)) <= i) by {
                    lemma_count_le(t, |r: TradeRecord| !spec_is_buy_side(r.side) && spec_is_sell_side(r.side));
                }
                assert(count_matching(t, |r: TradeRecord| !spec_is_buy_side(r.side) && !spec_is_sell_side(r.side)) <= i) by {
                    lemma_count_le(t, |r: TradeRecord| !spec_is_buy_side(r.side) && !spec_is_sell_side(r.side));
                }
                assert(count_matching(t, |r: TradeRecord| r.flags & 0x80 != 0) <= i) by {
                    lemma_count_le(t, |r: TradeRecord| r.flags & 0x80 != 0);
                }
                assert(count_matching(t, |r: TradeRecord| r.flags & 0x10 != 0) <= i) by {
                    lemma_count_le(t, |r: TradeRecord| r.flags & 0x10 != 0);
                }
                assert(count_matching(t, |r: TradeRecord| r.flags & 0x20 != 0) <= i) by {
                    lemma_count_le(t, |r: TradeRecord| r.flags & 0x20 != 0);
                }
            }
            c.record_count = c.record_count + 1;
            if r.is_buy() {
                c.buy_count = c.buy_count + 1;
            } else if r.is_sell() {
                c.sell_count = c.sell_count + 1;
            } else {
                c.other_count = c.other_count + 1;
            }
            if r.is_odd_lot() {
                c.odd_lot_count = c.odd_lot_count + 1;
            }
            if r.is_opening() {
                c.opening_count = c.opening_count + 1;
            }
            if r.is_closing() {
                c.closing_count = c.closing_count + 1;
            }
            c.min_size = match c.min_size {
                None => Some(r.size),
                Some(m) => Some(if r.size < m { r.size } else { m }),
            };
            c.max_size = match c.max_size {
                None => Some(r.size),
                Some(m) => Some(if r.size > m { r.size } else { m }),
            };
            c.min_price = match c.min_price {
                None => Some(r.price),
                Some(m) => Some(if r.price < m { r.price } else { m }),
            };
            c.max_price = match c.max_price {
                None => Some(r.price),
                Some(m) => Some(if r.price > m { r.price } else { m }),
            };
            c.total_volume = c.total_volume + r.size as u64;
            i = i + 1;
        }
        proof {
            assert(records@.subrange(0, n as int) =~= records@);
        }
        c
    }
}

/// Decoding the encoding of any trade record gives the record back.
pub proof fn lemma_trade_record_roundtrip(r: TradeRecord)
    ensures
        spec_trade_from_bytes(spec_trade_to_bytes(r)) == r,
{
    lemma_auto_spec_u64_to_from_le_bytes();
    lemma_auto_spec_u32_to_from_le_bytes();
    lemma_auto_spec_u16_to_from_le_bytes();
    lemma_i64_bits_roundtrip(r.price);
    let b = spec_trade_to_bytes(r);
    assert(b.subrange(0, 8) =~= spec_u64_to_le_bytes(r.ts_event));
    assert(b.subrange(8, 16) =~= spec_u64_to_le_bytes(r.ts_recv));
    assert(b.subrange(16, 24) =~= spec_u64_to_le_bytes(r.price as u64));
    assert(b.subrange(24, 28) =~= spec_u32_to_le_bytes(r.size));
    assert(b.subrange(30, 32) =~= spec_u16_to_le_bytes(r.exchange));
    assert(b.subrange(32, 40) =~= spec_u64_to_le_bytes(r.trade_id));
}

/// A 64-byte buffer whose reserved bytes 40..64 are zero is exactly the
/// encoding of the record it decodes to.
pub proof fn lemma_trade_bytes_roundtrip(b: Seq<u8>)
    requires
        b.len() == 64,
        forall|i: int| 40 <= i < 64 ==> b[i] == 0,
    ensures
        spec_trade_to_bytes(spec_trade_from_bytes(b)) == b,
{
    lemma_auto_spec_u64_to_from_le_bytes();
    lemma_auto_spec_u32_to_from_le_bytes();
    lemma_auto_spec_u16_to_from_le_bytes();
    let r = spec_trade_from_bytes(b);
    lemma_u64_bits_roundtrip(spec_u64_from_le_bytes(b.subrange(16, 24)));
    assert(spec_u64_to_le_bytes(r.ts_event) == b.subrange(0, 8));
    assert(spec_u64_to_le_bytes(r.ts_recv) == b.subrange(8, 16));
    assert(spec_u64_to_le_bytes(r.price as u64) == b.subrange(16, 24));
    assert(spec_u32_to_le_bytes(r.size) == b.subrange(24, 28));
    assert(spec_u16_to_le_bytes(r.exchange) == b.subrange(30, 32));
    assert(spec_u64_to_le_bytes(r.trade_id) == b.subrange(32, 40));
    assert(spec_trade_to_bytes(r) =~= b);
}

} // verus!
