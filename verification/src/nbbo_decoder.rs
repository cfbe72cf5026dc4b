//! The `.nbbo` quote file format: a fixed-layout header and 48-byte
//! best-bid/best-offer records.

use vstd::prelude::*;
use vstd::bytes::*;
use crate::codec::{copy_prefix, lemma_i64_bits_roundtrip, lemma_u64_bits_roundtrip, read_u32_at, read_u64_at};
use crate::header::{announced_length, fixed_layout_fits, parse_fixed_layout, spec_fixed_layout, HeaderView};
use crate::metadata::{decode_entries, entries_view, spec_decode_entries};
use crate::seqs::{count_matching, lemma_count_le, lemma_prefix_step, lemma_sum_prefix_le, max_where, min_where, sum_of};
use crate::text::{push_decimal, spec_decimal};

verus! {

/// Magic bytes for NBBO files ("NBB0")
pub open spec fn spec_nbbo_magic() -> Seq<u8> {
    seq![78u8, 66u8, 66u8, 48u8]
}

/// Magic bytes for NBBO files ("NBB0")
pub fn nbbo_magic() -> (m: [u8; 4])
    ensures
        m@ == spec_nbbo_magic(),
{
    let m: [u8; 4] = [78u8, 66u8, 66u8, 48u8];
    assert(m@ =~= spec_nbbo_magic());
    m
}

/// Expected version
pub const EXPECTED_VERSION: u16 = 1;

/// Size of a single NBBO record in bytes
pub const RECORD_SIZE: usize = 48;

/// Errors of NBBO operations
#[derive(Debug)]
pub enum NbboError {
    Io(std::io::Error),
    InvalidMagic([u8; 4]),
    InvalidVersion(u16),
    InvalidUtf8(std::string::FromUtf8Error),
    InvalidData(String),
}

/// Header of a `.nbbo` file
#[derive(Debug, Clone)]
pub struct NbboHeader {
    pub magic: [u8; 4],
    pub version: u16,
    pub header_length: u16,
    pub created_at_ns: u64,
    pub record_count: u64,
    pub instrument_id: u32,
    pub symbol: String,
    pub footprint_flags: u8,
    pub header_checksum: u32,
    /// Metadata entries, in key order; no key occurs twice
    pub metadata: Vec<(String, String)>,
}

impl NbboHeader {
    pub open spec fn view(&self) -> HeaderView {
        HeaderView {
            magic: self.magic@,
            version: self.version,
            header_length: self.header_length,
            created_at_ns: self.created_at_ns,
            record_count: self.record_count,
            instrument_id: self.instrument_id,
            symbol: self.symbol@,
            footprint_flags: self.footprint_flags,
            header_checksum: self.header_checksum,
            metadata: entries_view(self.metadata@),
        }
    }
}

/// The first four bytes of `b` are the NBBO magic.
pub open spec fn has_nbbo_magic(b: Seq<u8>) -> bool {
    b.subrange(0, 4) == spec_nbbo_magic()
}

/// Checks the 8-byte prefix of a header: the magic bytes must match. Returns
/// the announced version and header length.
pub fn check_prefix(prefix: &[u8; 8]) -> (r: Result<(u16, u16), NbboError>)
    ensures
        has_nbbo_magic(prefix@) ==> (r matches Ok((v, len)) && v == spec_u16_from_le_bytes(
            prefix@.subrange(4, 6),
        ) && len == spec_u16_from_le_bytes(prefix@.subrange(6, 8))),
        !has_nbbo_magic(prefix@) ==> (r matches Err(NbboError::InvalidMagic(m)) && m@
            == prefix@.subrange(0, 4)),
{
    let magic: [u8; 4] = [prefix[0], prefix[1], prefix[2], prefix[3]];
    assert(magic@ =~= prefix@.subrange(0, 4));
    let expected = nbbo_magic();
    if magic[0] != expected[0] || magic[1] != expected[1] || magic[2] != expected[2]
        || magic[3] != expected[3] {
        return Err(NbboError::InvalidMagic(magic));
    }
    assert(magic@ =~= spec_nbbo_magic());
    let b = prefix.as_slice();
    Ok((crate::codec::read_u16_at(b, 4), crate::codec::read_u16_at(b, 6)))
}

/// Decodes a whole header (the first `header_length` bytes of the file).
/// Returns the header and the offset where the records start. Fails only
/// when the symbol or a metadata key or value is not UTF-8.
pub fn read_header(header_bytes: &[u8]) -> (r: Result<(NbboHeader, u64), NbboError>)
    requires
        fixed_layout_fits(header_bytes@),
        announced_length(header_bytes@) == header_bytes@.len(),
    ensures
        match spec_fixed_layout(header_bytes@, 2, 1) {
            Some(h) => r matches Ok((hd, off)) && hd.view() == h && off == header_bytes@.len(),
            None => r matches Err(NbboError::InvalidUtf8(_)),
        },
{
    let len = header_bytes.len();
    match parse_fixed_layout(header_bytes, 2, 1) {
        Ok(raw) => {
            let header = NbboHeader {
                magic: raw.magic,
                version: raw.version,
                header_length: raw.header_length,
                created_at_ns: raw.created_at_ns,
                record_count: raw.record_count,
                instrument_id: raw.instrument_id,
                symbol: raw.symbol,
                footprint_flags: raw.footprint_flags,
                header_checksum: raw.header_checksum,
                metadata: raw.metadata,
            };
            Ok((header, len as u64))
        },
        Err(e) => Err(NbboError::InvalidUtf8(e)),
    }
}

/// Decodes a metadata block of a `.nbbo` header: one-byte key and value
/// lengths, read while at least two bytes remain.
pub fn decode_metadata(bytes: &[u8]) -> (r: Result<Vec<(String, String)>, NbboError>)
    ensures
        match spec_decode_entries(bytes@, 0, 2, 1, Seq::empty()) {
            Some(m) => r matches Ok(v) && entries_view(v@) == m,
            None => r matches Err(NbboError::InvalidUtf8(_)),
        },
{
    match decode_entries(bytes, 2, 1) {
        Ok(v) => Ok(v),
        Err(e) => Err(NbboError::InvalidUtf8(e)),
    }
}

/// Single NBBO record (48 bytes on disk)
#[derive(Debug, Clone, Copy, PartialEq, Eq, Structural)]
pub struct NbboRecord {
    /// Timestamp in nanoseconds since Unix epoch
    pub ts_event: u64,
    /// Receive timestamp in nanoseconds
    pub ts_recv: u64,
    /// Best bid price (scaled by 1e9), None if no bid
    pub bid_px: Option<i64>,
    /// Bid size/quantity
    pub bid_sz: u32,
    /// Bid count
    pub bid_ct: u32,
    /// Best ask price (scaled by 1e9), None if no ask
    pub ask_px: Option<i64>,
    /// Ask size/quantity
    pub ask_sz: u32,
    /// Ask count
    pub ask_ct: u32,
}

/// A stored price: -1 marks a missing side.
pub open spec fn price_from_raw(raw: i64) -> Option<i64> {
    if raw == -1 {
        None
    } else {
        Some(raw)
    }
}

/// The stored form of a price: a missing side is written as -1.
pub open spec fn raw_from_price(p: Option<i64>) -> i64 {
    match p {
        Some(x) => x,
        None => -1i64,
    }
}

/// The record that the 48 bytes `b` decode to.
pub open spec fn spec_nbbo_from_bytes(b: Seq<u8>) -> NbboRecord {
    NbboRecord {
        ts_event: spec_u64_from_le_bytes(b.subrange(0, 8)),
        ts_recv: spec_u64_from_le_bytes(b.subrange(8, 16)),
        bid_px: price_from_raw(spec_u64_from_le_bytes(b.subrange(16, 24)) as i64),
        bid_sz: spec_u32_from_le_bytes(b.subrange(24, 28)),
        bid_ct: spec_u32_from_le_bytes(b.subrange(28, 32)),
        ask_px: price_from_raw(spec_u64_from_le_bytes(b.subrange(32, 40)) as i64),
        ask_sz: spec_u32_from_le_bytes(b.subrange(40, 44)),
        ask_ct: spec_u32_from_le_bytes(b.subrange(44, 48)),
    }
}

/// The 48-byte encoding of a record.
pub open spec fn spec_nbbo_to_bytes(r: NbboRecord) -> Seq<u8> {
    spec_u64_to_le_bytes(r.ts_event) + spec_u64_to_le_bytes(r.ts_recv) + spec_u64_to_le_bytes(
        raw_from_price(r.bid_px) as u64,
    ) + spec_u32_to_le_bytes(r.bid_sz) + spec_u32_to_le_bytes(r.bid_ct) + spec_u64_to_le_bytes(
        raw_from_price(r.ask_px) as u64,
    ) + spec_u32_to_le_bytes(r.ask_sz) + spec_u32_to_le_bytes(r.ask_ct)
}

fn price_of_raw(raw: i64) -> (p: Option<i64>)
    ensures
        p == price_from_raw(raw),
{
    if raw == -1 {
        None
    } else {
        Some(raw)
    }
}

fn raw_of_price(p: Option<i64>) -> (raw: i64)
    ensures
        raw == raw_from_price(p),
{
    match p {
        Some(x) => x,
        None => -1,
    }
}

/// The record stored at byte `off` of `b`.
pub(crate) fn record_at(b: &[u8], off: usize) -> (r: NbboRecord)
    requires
        off + 48 <= b@.len(),
    ensures
        r == spec_nbbo_from_bytes(b@.subrange(off as int, off + 48)),
{
    let _len = b.len();
    let ghost c = b@.subrange(off as int, off + 48);
    assert(c.subrange(0, 8) =~= b@.subrange(off as int, off + 8));
    assert(c.subrange(8, 16) =~= b@.subrange(off + 8, off + 16));
    assert(c.subrange(16, 24) =~= b@.subrange(off + 16, off + 24));
    assert(c.subrange(24, 28) =~= b@.subrange(off + 24, off + 28));
    assert(c.subrange(28, 32) =~= b@.subrange(off + 28, off + 32));
    assert(c.subrange(32, 40) =~= b@.subrange(off + 32, off + 40));
    assert(c.subrange(40, 44) =~= b@.subrange(off + 40, off + 44));
    assert(c.subrange(44, 48) =~= b@.subrange(off + 44, off + 48));
    NbboRecord {
        ts_event: read_u64_at(b, off),
        ts_recv: read_u64_at(b, off + 8),
        bid_px: price_of_raw(read_u64_at(b, off + 16) as i64),
        bid_sz: read_u32_at(b, off + 24),
        bid_ct: read_u32_at(b, off + 28),
        ask_px: price_of_raw(read_u64_at(b, off + 32) as i64),
        ask_sz: read_u32_at(b, off + 40),
        ask_ct: read_u32_at(b, off + 44),
    }
}

/// Both sides are quoted.
pub open spec fn spec_two_sided(r: NbboRecord) -> bool {
    r.bid_px is Some && r.ask_px is Some
}

impl NbboRecord {
    /// Decode a record from a 48-byte buffer (a price of -1 is a missing side)
    pub fn from_bytes(buffer: &[u8; 48]) -> (r: Self)
        ensures
            r == spec_nbbo_from_bytes(buffer@),
    {
        let b = buffer.as_slice();
        let r = record_at(b, 0);
        assert(buffer@.subrange(0, 48) =~= buffer@);
        r
    }

    /// Encode the record to a 48-byte buffer (a missing side is written as -1)
    pub fn to_bytes(&self) -> (r: [u8; 48])
        ensures
            r@ == spec_nbbo_to_bytes(*self),
    {
        let mut v: Vec<u8> = u64_to_le_bytes(self.ts_event);
        let mut part = u64_to_le_bytes(self.ts_recv);
        v.append(&mut part);
        let mut part = u64_to_le_bytes(raw_of_price(self.bid_px) as u64);
        v.append(&mut part);
        let mut part = u32_to_le_bytes(self.bid_sz);
        v.append(&mut part);
        let mut part = u32_to_le_bytes(self.bid_ct);
        v.append(&mut part);
        let mut part = u64_to_le_bytes(raw_of_price(self.ask_px) as u64);
        v.append(&mut part);
        let mut part = u32_to_le_bytes(self.ask_sz);
        v.append(&mut part);
        let mut part = u32_to_le_bytes(self.ask_ct);
        v.append(&mut part);
        let mut buffer = [0u8; 48];
        copy_prefix(&mut buffer, &v);
        assert(buffer@ =~= spec_nbbo_to_bytes(*self));
        buffer
    }

    /// Check if both bid and ask are present (two-sided market)
    pub fn is_two_sided(&self) -> (b: bool)
        ensures
            b == (self.bid_px is Some && self.ask_px is Some),
    {
        self.bid_px.is_some() && self.ask_px.is_some()
    }

    /// Check if only bid is present
    pub fn is_bid_only(&self) -> (b: bool)
        ensures
            b == (self.bid_px is Some && self.ask_px is None),
    {
        self.bid_px.is_some() && self.ask_px.is_none()
    }

    /// Check if only ask is present
    pub fn is_ask_only(&self) -> (b: bool)
        ensures
            b == (self.bid_px is None && self.ask_px is Some),
    {
        self.bid_px.is_none() && self.ask_px.is_some()
    }

    /// Check if neither bid nor ask is present
    pub fn is_empty(&self) -> (b: bool)
        ensures
            b == (self.bid_px is None && self.ask_px is None),
    {
        self.bid_px.is_none() && self.ask_px.is_none()
    }
}

/// A record whose quoted prices are not -1 survives encoding and decoding.
/// (A quoted price of -1 is written like a missing side and reads back as
/// one.)
pub proof fn lemma_nbbo_record_roundtrip(r: NbboRecord)
    requires
        r.bid_px != Some(-1i64),
        r.ask_px != Some(-1i64),
    ensures
        spec_nbbo_from_bytes(spec_nbbo_to_bytes(r)) == r,
{
    lemma_auto_spec_u64_to_from_le_bytes();
    lemma_auto_spec_u32_to_from_le_bytes();
    lemma_i64_bits_roundtrip(raw_from_price(r.bid_px));
    lemma_i64_bits_roundtrip(raw_from_price(r.ask_px));
    let b = spec_nbbo_to_bytes(r);
    assert(b.subrange(0, 8) =~= spec_u64_to_le_bytes(r.ts_event));
    assert(b.subrange(8, 16) =~= spec_u64_to_le_bytes(r.ts_recv));
    assert(b.subrange(16, 24) =~= spec_u64_to_le_bytes(raw_from_price(r.bid_px) as u64));
    assert(b.subrange(24, 28) =~= spec_u32_to_le_bytes(r.bid_sz));
    assert(b.subrange(28, 32) =~= spec_u32_to_le_bytes(r.bid_ct));
    assert(b.subrange(32, 40) =~= spec_u64_to_le_bytes(raw_from_price(r.ask_px) as u64));
    assert(b.subrange(40, 44) =~= spec_u32_to_le_bytes(r.ask_sz));
    assert(b.subrange(44, 48) =~= spec_u32_to_le_bytes(r.ask_ct));
}

/// Every 48-byte buffer is the encoding of the record it decodes to.
pub proof fn lemma_nbbo_bytes_roundtrip(b: Seq<u8>)
    requires
        b.len() == 48,
    ensures
        spec_nbbo_to_bytes(spec_nbbo_from_bytes(b)) == b,
{
    lemma_auto_spec_u64_to_from_le_bytes();
    lemma_auto_spec_u32_to_from_le_bytes();
    let r = spec_nbbo_from_bytes(b);
    lemma_u64_bits_roundtrip(spec_u64_from_le_bytes(b.subrange(16, 24)));
    lemma_u64_bits_roundtrip(spec_u64_from_le_bytes(b.subrange(32, 40)));
    assert(spec_u64_to_le_bytes(r.ts_event) == b.subrange(0, 8));
    assert(spec_u64_to_le_bytes(r.ts_recv) == b.subrange(8, 16));
    assert(spec_u64_to_le_bytes(raw_from_price(r.bid_px) as u64) == b.subrange(16, 24));
    assert(spec_u32_to_le_bytes(r.bid_sz) == b.subrange(24, 28));
    assert(spec_u32_to_le_bytes(r.bid_ct) == b.subrange(28, 32));
    assert(spec_u64_to_le_bytes(raw_from_price(r.ask_px) as u64) == b.subrange(32, 40));
    assert(spec_u32_to_le_bytes(r.ask_sz) == b.subrange(40, 44));
    assert(spec_u32_to_le_bytes(r.ask_ct) == b.subrange(44, 48));
    assert(spec_nbbo_to_bytes(r) =~= b);
}

/// The records that a run of whole 48-byte chunks decodes to.
pub open spec fn spec_decode_quotes(b: Seq<u8>) -> Seq<NbboRecord> {
    Seq::new(b.len() / 48, |i: int| spec_nbbo_from_bytes(b.subrange(48 * i, 48 * i + 48)))
}

/// Decode consecutive 48-byte records from a buffer holding whole records.
pub fn decode_records(buffer: &[u8]) -> (v: Vec<NbboRecord>)
    requires
        buffer@.len() % 48 == 0,
    ensures
        v@ == spec_decode_quotes(buffer@),
{
    let len = buffer.len();
    let n = len / 48;
    let mut v: Vec<NbboRecord> = Vec::new();
    let mut i: usize = 0;
    let mut off: usize = 0;
    while i < n
        invariant
            len == buffer@.len(),
            n == len / 48,
            len % 48 == 0,
            i <= n,
            off == 48 * i,
            v@.len() == i,
            forall|j: int| 0 <= j < i ==> v@[j] == spec_nbbo_from_bytes(buffer@.subrange(48 * j, 48 * j + 48)),
        decreases n - i,
    {
        v.push(record_at(buffer, off));
        i = i + 1;
        off = off + 48;
    }
    assert(v@ =~= spec_decode_quotes(buffer@));
    v
}

/// Where a single record starts: `payload_offset + index * 48`. An index
/// past the end is refused with its bound in the message.
pub fn record_offset(record_count: u64, payload_offset: u64, index: u64) -> (r: Result<u64, NbboError>)
    requires
        record_count > 0,
        index < record_count ==> payload_offset + index * 48 <= u64::MAX,
    ensures
        index < record_count ==> r == Ok::<u64, NbboError>((payload_offset + index * 48) as u64),
        index >= record_count ==> (r matches Err(NbboError::InvalidData(msg)) && msg@ == "Index "@
            + spec_decimal(index as nat) + " out of bounds (max: "@ + spec_decimal((record_count - 1) as nat)
            + ")"@),
{
    if index >= record_count {
        let mut msg = String::from_str("Index ");
        push_decimal(&mut msg, index);
        msg.append(" out of bounds (max: ");
        push_decimal(&mut msg, record_count - 1);
        msg.append(")");
        return Err(NbboError::InvalidData(msg));
    }
    Ok(payload_offset + index * 48)
}

/// Where a read of up to `count` records from `start` begins, and how many
/// records it takes: no more than remain after `start`.
pub fn plan_read(record_count: u64, payload_offset: u64, start: u64, count: usize) -> (r: Result<
    (u64, usize),
    NbboError,
>)
    requires
        start < record_count ==> payload_offset + start * 48 <= u64::MAX,
    ensures
        start < record_count ==> (r matches Ok((off, n)) && off == payload_offset + start * 48 && n
            == (if count < record_count - start {
            count as int
        } else {
            record_count - start
        })),
        start >= record_count ==> (r matches Err(NbboError::InvalidData(msg)) && msg@ == "Start index "@
            + spec_decimal(start as nat) + " out of bounds"@),
{
    if start >= record_count {
        let mut msg = String::from_str("Start index ");
        push_decimal(&mut msg, start);
        msg.append(" out of bounds");
        return Err(NbboError::InvalidData(msg));
    }
    let available = record_count - start;
    let n: usize = if (count as u64) < available {
        count
    } else {
        available as usize
    };
    Ok((payload_offset + start * 48, n))
}

/// The two-sided quotes, in their order.
pub fn filter_two_sided(records: Vec<NbboRecord>) -> (v: Vec<NbboRecord>)
    ensures
        v@ == records@.filter(|r: NbboRecord| spec_two_sided(r)),
{
    let ghost pred = |r: NbboRecord| spec_two_sided(r);
    let mut v: Vec<NbboRecord> = Vec::new();
    let mut i: usize = 0;
    while i < records.len()
        invariant
            i <= records@.len(),
            pred == (|r: NbboRecord| spec_two_sided(r)),
            v@ == records@.subrange(0, i as int).filter(pred),
        decreases records@.len() - i,
    {
        let r = records[i];
        proof {
            reveal(Seq::filter);
            lemma_prefix_step(records@, i as int);
        }
        if r.is_two_sided() {
            v.push(r);
        }
        i = i + 1;
    }
    assert(records@.subrange(0, records@.len() as int) =~= records@);
    v
}

/// The integer statistics of a run of quotes: counts by which sides are
/// quoted, extremes of bids, asks and spreads, and total quoted sizes.
pub struct NbboCounts {
    pub record_count: usize,
    pub two_sided_count: usize,
    pub bid_only_count: usize,
    pub ask_only_count: usize,
    pub empty_count: usize,
    pub min_bid: Option<i64>,
    pub max_bid: Option<i64>,
    pub min_ask: Option<i64>,
    pub max_ask: Option<i64>,
    pub min_spread: Option<i64>,
    pub max_spread: Option<i64>,
    pub total_bid_size: u64,
    pub total_ask_size: u64,
}

pub open spec fn has_bid(r: NbboRecord) -> bool {
    r.bid_px is Some
}

pub open spec fn has_ask(r: NbboRecord) -> bool {
    r.ask_px is Some
}

/// The quoted bid (0 when there is none).
pub open spec fn bid_of(r: NbboRecord) -> int {
    match r.bid_px {
        Some(x) => x as int,
        None => 0,
    }
}

/// The quoted ask (0 when there is none).
pub open spec fn ask_of(r: NbboRecord) -> int {
    match r.ask_px {
        Some(x) => x as int,
        None => 0,
    }
}

/// The spread of a quote: ask minus bid.
pub open spec fn spread_of(r: NbboRecord) -> int {
    ask_of(r) - bid_of(r)
}

/// The bid size where a bid is quoted, else 0.
pub open spec fn quoted_bid_size(r: NbboRecord) -> int {
    if has_bid(r) {
        r.bid_sz as int
    } else {
        0
    }
}

/// The ask size where an ask is quoted, else 0.
pub open spec fn quoted_ask_size(r: NbboRecord) -> int {
    if has_ask(r) {
        r.ask_sz as int
    } else {
        0
    }
}

pub open spec fn opt_int(o: Option<i64>) -> Option<int> {
    match o {
        Some(x) => Some(x as int),
        None => None,
    }
}

/// Every spread of `s` fits in an `i64`, and the quoted sizes sum to
/// values that fit in a `u64`.
pub open spec fn quote_totals_fit(s: Seq<NbboRecord>) -> bool {
    &&& forall|i: int| 0 <= i < s.len() && spec_two_sided(#[trigger] s[i]) ==> i64::MIN <= spread_of(s[i]) <= i64::MAX
    &&& sum_of(s, |r: NbboRecord| quoted_bid_size(r)) <= u64::MAX
    &&& sum_of(s, |r: NbboRecord| quoted_ask_size(r)) <= u64::MAX
}

impl NbboCounts {
    /// The statistics of `s`.
    pub open spec fn describes(&self, s: Seq<NbboRecord>) -> bool {
        &&& self.record_count == s.len()
        &&& self.two_sided_count == count_matching(s, |r: NbboRecord| spec_two_sided(r))
        &&& self.bid_only_count == count_matching(s, |r: NbboRecord| has_bid(r) && !has_ask(r))
        &&& self.ask_only_count == count_matching(s, |r: NbboRecord| !has_bid(r) && has_ask(r))
        &&& self.empty_count == count_matching(s, |r: NbboRecord| !has_bid(r) && !has_ask(r))
        &&& opt_int(self.min_bid) == min_where(s, |r: NbboRecord| has_bid(r), |r: NbboRecord| bid_of(r))
        &&& opt_int(self.max_bid) == max_where(s, |r: NbboRecord| has_bid(r), |r: NbboRecord| bid_of(r))
        &&& opt_int(self.min_ask) == min_where(s, |r: NbboRecord| has_ask(r), |r: NbboRecord| ask_of(r))
        &&& opt_int(self.max_ask) == max_where(s, |r: NbboRecord| has_ask(r), |r: NbboRecord| ask_of(r))
        &&& opt_int(self.min_spread) == min_where(s, |r: NbboRecord| spec_two_sided(r), |r: NbboRecord| spread_of(r))
        &&& opt_int(self.max_spread) == max_where(s, |r: NbboRecord| spec_two_sided(r), |r: NbboRecord| spread_of(r))
        &&& self.total_bid_size == sum_of(s, |r: NbboRecord| quoted_bid_size(r))
        &&& self.total_ask_size == sum_of(s, |r: NbboRecord| quoted_ask_size(r))
    }

    /// Compute the statistics of `records`.
    pub fn calculate(records: &[NbboRecord]) -> (c: NbboCounts)
        requires
            quote_totals_fit(records@),
        ensures
            c.describes(records@),
    {
        let n = records.len();
        let mut c = NbboCounts {
            record_count: 0,
            two_sided_count: 0,
            bid_only_count: 0,
            ask_only_count: 0,
            empty_count: 0,
            min_bid: None,
            max_bid: None,
            min_ask: None,
            max_ask: None,
            min_spread: None,
            max_spread: None,
            total_bid_size: 0,
            total_ask_size: 0,
        };
        let mut i: usize = 0;
        proof {
            assert(records@.subrange(0, 0) =~= Seq::<NbboRecord>::empty());
        }
        while i < n
            invariant
                n == records@.len(),
                i <= n,
                quote_totals_fit(records@),
                c.describes(records@.subrange(0, i as int)),
            decreases n - i,
        {
            let r = records[i];
            proof {
                lemma_prefix_step(records@, i as int);
                lemma_sum_prefix_le(records@, |r: NbboRecord| quoted_bid_size(r), i + 1);
                lemma_sum_prefix_le(records@, |r: NbboRecord| quoted_ask_size(r), i + 1);
                let t = records@.subrange(0, i as int);
                lemma_count_le(t, |r: NbboRecord| spec_two_sided(r));
                lemma_count_le(t, |r: NbboRecord| has_bid(r) && !has_ask(r));
                lemma_count_le(t, |r: NbboRecord| !has_bid(r) && has_ask(r));
                lemma_count_le(t, |r: NbboRecord| !has_bid(r) && !has_ask(r));
            }
            c.record_count = c.record_count + 1;
            if r.is_two_sided() {
                c.two_sided_count = c.two_sided_count + 1;
            } else if r.is_bid_only() {
                c.bid_only_count = c.bid_only_count + 1;
            } else if r.is_ask_only() {
                c.ask_only_count = c.ask_only_count + 1;
            } else {
                c.empty_count = c.empty_count + 1;
            }
            if let Some(bid) = r.bid_px {
                c.min_bid = match c.min_bid {
                    None => Some(bid),
                    Some(m) => Some(if bid < m { bid } else { m }),
                };
                c.max_bid = match c.max_bid {
                    None => Some(bid),
                    Some(m) => Some(if bid > m { bid } else { m }),
                };
                c.total_bid_size = c.total_bid_size + r.bid_sz as u64;
            }
            if let Some(ask) = r.ask_px {
                c.min_ask = match c.min_ask {
                    None => Some(ask),
                    Some(m) => Some(if ask < m { ask } else { m }),
                };
                c.max_ask = match c.max_ask {
                    None => Some(ask),
                    Some(m) => Some(if ask > m { ask } else { m }),
                };
                c.total_ask_size = c.total_ask_size + r.ask_sz as u64;
            }
            match (r.bid_px, r.ask_px) {
                (Some(bid), Some(ask)) => {
                    assert(spec_two_sided(records@[i as int]));
                    let spread = ask - bid;
                    c.min_spread = match c.min_spread {
                        None => Some(spread),
                        Some(m) => Some(if spread < m { spread } else { m }),
                    };
                    c.max_spread = match c.max_spread {
                        None => Some(spread),
                        Some(m) => Some(if spread > m { spread } else { m }),
                    };
                },
                _ => {},
            }
            i = i + 1;
        }
        proof {
            assert(records@.subrange(0, n as int) =~= records@);
        }
        c
    }
}

} // verus!
