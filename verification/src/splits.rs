//! Dividend data: the kinds of dividend and the `.divbin` container that
//! stores dividend records of many tickers.
//!
//! A `.divbin` file starts with the magic "DIVD", a `u16` version (1), a
//! `u32` ticker count and the `u64` offset of an index. The index holds one
//! 24-byte entry per ticker: the ticker name (8 bytes, zero-padded), the
//! `u64` offset of its data section, a `u32` record count and 4 bytes of
//! padding. A data section repeats the 8-byte ticker, then a `u32` count and
//! that many 8-byte records: `u32` days since the Unix epoch and `u32` cents.
//! All integers are little-endian.

use vstd::prelude::*;
use vstd::bytes::*;
use vstd::slice::*;
use vstd::utf8::*;
use crate::codec::{read_u16_at, read_u32_at, read_u64_at};
use crate::metadata::string_from_utf8;

verus! {

/// Type of dividend payment
#[derive(Debug, Clone, Copy, PartialEq, Eq, Structural)]
pub enum DividendType {
    /// Regular cash dividend
    Cash,
    /// Stock dividend
    Stock,
    /// Special/one-time dividend
    Special,
}

/// The dividend type stored as `code`: 1 stock, 2 special, anything else cash.
pub open spec fn spec_dividend_type(code: u8) -> DividendType {
    if code == 1 {
        DividendType::Stock
    } else if code == 2 {
        DividendType::Special
    } else {
        DividendType::Cash
    }
}

impl From<u8> for DividendType {
    fn from(value: u8) -> (t: Self) {
        match value {
            1 => DividendType::Stock,
            2 => DividendType::Special,
            _ => DividendType::Cash,
        }
    }
}

impl vstd::std_specs::convert::FromSpecImpl<u8> for DividendType {
    open spec fn obeys_from_spec() -> bool {
        true
    }

    open spec fn from_spec(v: u8) -> DividendType {
        spec_dividend_type(v)
    }
}

/// What goes wrong while looking up a ticker in a `.divbin` buffer.
#[derive(Debug)]
pub enum DivbinError {
    /// A read ran past the end of the data
    Truncated,
    /// The file does not start with "DIVD"
    InvalidMagic([u8; 4]),
    /// The version is not 1
    UnsupportedVersion(u16),
    /// An index entry names its ticker with bytes that are not UTF-8
    InvalidUtf8(std::string::FromUtf8Error),
    /// The data section holds another count than the index announces
    CountMismatch { ticker: String, found: u32, expected: u32 },
    /// No index entry names the ticker
    TickerNotFound(String),
}

/// How a lookup ends, as mathematical values.
pub enum DivbinOutcome {
    Truncated,
    BadMagic(Seq<u8>),
    BadVersion(u16),
    BadName,
    Mismatch(u32, u32),
    Found(Seq<(u32, u32)>),
    NotFound,
}

/// The length of a zero-padded name: up to its first zero byte.
pub open spec fn name_end(b: Seq<u8>, i: int) -> int
    decreases b.len() - i,
{
    if i < 0 || i >= b.len() {
        b.len() as int
    } else if b[i] == 0 {
        i
    } else {
        name_end(b, i + 1)
    }
}

/// The name bytes of the index entry that starts at `e`.
pub open spec fn entry_name(b: Seq<u8>, e: int) -> Seq<u8> {
    let raw = b.subrange(e, e + 8);
    raw.subrange(0, name_end(raw, 0))
}

/// The records of a data section at `off` whose index entry announces
/// `expected` records.
pub open spec fn spec_section(b: Seq<u8>, off: int, expected: u32) -> DivbinOutcome {
    if off + 12 > b.len() {
        DivbinOutcome::Truncated
    } else {
        let count = spec_u32_from_le_bytes(b.subrange(off + 8, off + 12));
        if count != expected {
            DivbinOutcome::Mismatch(count, expected)
        } else if off + 12 + 8 * count > b.len() {
            DivbinOutcome::Truncated
        } else {
            DivbinOutcome::Found(
                Seq::new(
                    count as nat,
                    |i: int|
                        (
                            spec_u32_from_le_bytes(b.subrange(off + 12 + 8 * i, off + 16 + 8 * i)),
                            spec_u32_from_le_bytes(b.subrange(off + 16 + 8 * i, off + 20 + 8 * i)),
                        ),
                ),
            )
        }
    }
}

/// The lookup of `ticker` from index entry `j` on (of `count`) in the index
/// at `index_offset`.
pub open spec fn spec_scan(b: Seq<u8>, index_offset: int, count: int, j: int, ticker: Seq<char>) -> DivbinOutcome
    decreases count - j,
{
    if j >= count {
        DivbinOutcome::NotFound
    } else {
        let e = index_offset + 24 * j;
        if e + 8 > b.len() {
            DivbinOutcome::Truncated
        } else if !valid_utf8(entry_name(b, e)) {
            DivbinOutcome::BadName
        } else if e + 24 > b.len() {
            DivbinOutcome::Truncated
        } else if decode_utf8(entry_name(b, e)) == ticker {
            spec_section(
                b,
                spec_u64_from_le_bytes(b.subrange(e + 8, e + 16)) as int,
                spec_u32_from_le_bytes(b.subrange(e + 16, e + 20)),
            )
        } else {
            spec_scan(b, index_offset, count, j + 1, ticker)
        }
    }
}

/// The lookup of `ticker` in the `.divbin` buffer `b`.
pub open spec fn spec_divbin(b: Seq<u8>, ticker: Seq<char>) -> DivbinOutcome {
    if b.len() < 4 {
        DivbinOutcome::Truncated
    } else if b.subrange(0, 4) != seq![68u8, 73u8, 86u8, 68u8] {
        DivbinOutcome::BadMagic(b.subrange(0, 4))
    } else if b.len() < 6 {
        DivbinOutcome::Truncated
    } else if spec_u16_from_le_bytes(b.subrange(4, 6)) != 1 {
        DivbinOutcome::BadVersion(spec_u16_from_le_bytes(b.subrange(4, 6)))
    } else if b.len() < 18 {
        DivbinOutcome::Truncated
    } else {
        spec_scan(
            b,
            spec_u64_from_le_bytes(b.subrange(10, 18)) as int,
            spec_u32_from_le_bytes(b.subrange(6, 10)) as int,
            0,
            ticker,
        )
    }
}

/// `r` is what a lookup with outcome `o` for `ticker` returns.
pub open spec fn divbin_result_matches(o: DivbinOutcome, ticker: Seq<char>, r: Result<Vec<(u32, u32)>, DivbinError>) -> bool {
    match o {
        DivbinOutcome::Truncated => r matches Err(DivbinError::Truncated),
        DivbinOutcome::BadMagic(m) => r matches Err(DivbinError::InvalidMagic(found)) && found@ == m,
        DivbinOutcome::BadVersion(v) => r matches Err(DivbinError::UnsupportedVersion(found)) && found == v,
        DivbinOutcome::BadName => r matches Err(DivbinError::InvalidUtf8(_)),
        DivbinOutcome::Mismatch(f, e) => r matches Err(DivbinError::CountMismatch { ticker: t, found, expected })
            && t@ == ticker && found == f && expected == e,
        DivbinOutcome::Found(recs) => r matches Ok(v) && v@ == recs,
        DivbinOutcome::NotFound => r matches Err(DivbinError::TickerNotFound(t)) && t@ == ticker,
    }
}

proof fn lemma_name_end(b: Seq<u8>, i: int)
    requires
        0 <= i <= b.len(),
    ensures
        i <= name_end(b, i) <= b.len(),
        forall|k: int| i <= k < name_end(b, i) ==> b[k] != 0,
        name_end(b, i) < b.len() ==> b[name_end(b, i)] == 0,
    decreases b.len() - i,
{
    if i < b.len() && b[i] != 0 {
        lemma_name_end(b, i + 1);
    }
}

/// The name of an index entry is its eight name bytes up to the first zero
/// byte, or all eight when none is zero: it holds no zero byte, and only a
/// zero byte (or the end of the eight) ends it.
pub proof fn lemma_entry_name(b: Seq<u8>, e: int)
    requires
        0 <= e,
        e + 8 <= b.len(),
    ensures
        entry_name(b, e).len() <= 8,
        forall|k: int| 0 <= k < entry_name(b, e).len() ==> #[trigger] entry_name(b, e)[k] == b[e + k] && b[e + k] != 0,
        entry_name(b, e).len() < 8 ==> b[e + entry_name(b, e).len()] == 0,
{
    let raw = b.subrange(e, e + 8);
    lemma_name_end(raw, 0);
    assert forall|k: int| 0 <= k < entry_name(b, e).len() implies #[trigger] entry_name(b, e)[k] == b[e + k] && b[e + k]
        != 0 by {
        assert(raw[k] == b[e + k]);
    }
    if entry_name(b, e).len() < 8 {
        assert(raw[name_end(raw, 0)] == b[e + name_end(raw, 0)]);
    }
}

/// The byte offset of index entry `k` in an index at `index_offset`.
pub open spec fn entry_at(index_offset: int, k: int) -> int {
    index_offset + 24 * k
}

proof fn lemma_scan_reaches(b: Seq<u8>, index_offset: int, count: int, i: int, j: int, ticker: Seq<char>)
    requires
        0 <= i <= j < count,
        0 <= index_offset,
        forall|k: int| i <= k <= j ==> entry_at(index_offset, k) + 24 <= b.len() && valid_utf8(
            #[trigger] entry_name(b, entry_at(index_offset, k)),
        ),
        forall|k: int| i <= k < j ==> decode_utf8(#[trigger] entry_name(b, entry_at(index_offset, k))) != ticker,
        decode_utf8(entry_name(b, entry_at(index_offset, j))) == ticker,
    ensures
        spec_scan(b, index_offset, count, i, ticker) == spec_section(
            b,
            spec_u64_from_le_bytes(b.subrange(entry_at(index_offset, j) + 8, entry_at(index_offset, j) + 16)) as int,
            spec_u32_from_le_bytes(b.subrange(entry_at(index_offset, j) + 16, entry_at(index_offset, j) + 20)),
        ),
    decreases j - i,
{
    assert(entry_at(index_offset, i) + 24 <= b.len() && valid_utf8(entry_name(b, entry_at(index_offset, i))));
    if i < j {
        assert(decode_utf8(entry_name(b, entry_at(index_offset, i))) != ticker);
        lemma_scan_reaches(b, index_offset, count, i + 1, j, ticker);
    }
}

/// Looking up a ticker in a well-formed file returns the records of the
/// first index entry whose name is the ticker: when entries `0..=j` lie in
/// the buffer with UTF-8 names, entry `j` is named `ticker` and no earlier
/// one is, the lookup gives entry `j`'s data section.
pub proof fn lemma_lookup_finds_entry(b: Seq<u8>, ticker: Seq<char>, j: int)
    requires
        b.len() >= 18,
        b.subrange(0, 4) == seq![68u8, 73u8, 86u8, 68u8],
        spec_u16_from_le_bytes(b.subrange(4, 6)) == 1,
        0 <= j < spec_u32_from_le_bytes(b.subrange(6, 10)),
        forall|k: int| 0 <= k <= j ==> entry_at(spec_u64_from_le_bytes(b.subrange(10, 18)) as int, k) + 24 <= b.len()
            && valid_utf8(#[trigger] entry_name(b, entry_at(spec_u64_from_le_bytes(b.subrange(10, 18)) as int, k))),
        forall|k: int| 0 <= k < j ==> decode_utf8(
            #[trigger] entry_name(b, entry_at(spec_u64_from_le_bytes(b.subrange(10, 18)) as int, k)),
        ) != ticker,
        decode_utf8(entry_name(b, entry_at(spec_u64_from_le_bytes(b.subrange(10, 18)) as int, j))) == ticker,
    ensures
        ({
            let e = entry_at(spec_u64_from_le_bytes(b.subrange(10, 18)) as int, j);
            spec_divbin(b, ticker) == spec_section(
                b,
                spec_u64_from_le_bytes(b.subrange(e + 8, e + 16)) as int,
                spec_u32_from_le_bytes(b.subrange(e + 16, e + 20)),
            )
        }),
{
    lemma_scan_reaches(
        b,
        spec_u64_from_le_bytes(b.subrange(10, 18)) as int,
        spec_u32_from_le_bytes(b.subrange(6, 10)) as int,
        0,
        j,
        ticker,
    );
}

fn name_len(b: &[u8], e: usize) -> (n: usize)
    requires
        e + 8 <= b@.len(),
    ensures
        n == name_end(b@.subrange(e as int, e + 8), 0),
        n <= 8,
        forall|k: int| 0 <= k < n ==> #[trigger] b@[e + k] != 0,
        n < 8 ==> b@[e + n] == 0,
{
    let ghost raw = b@.subrange(e as int, e + 8);
    let len = b.len();
    let mut i: usize = 0;
    while i < 8
        invariant
            len == b@.len(),
            e + 8 <= b@.len(),
            raw == b@.subrange(e as int, e + 8),
            i <= 8,
            name_end(raw, 0) == name_end(raw, i as int),
            forall|k: int| 0 <= k < i ==> #[trigger] b@[e + k] != 0,
        decreases 8 - i,
    {
        if b[e + i] == 0 {
            return i;
        }
        i = i + 1;
    }
    8
}

/// Reads the records of the data section at `off`.
fn read_section(bytes: &[u8], off: u64, expected: u32, ticker: &str) -> (r: Result<Vec<(u32, u32)>, DivbinError>)
    ensures
        divbin_result_matches(spec_section(bytes@, off as int, expected), ticker@, r),
{
    let len = bytes.len();
    if off > len as u64 || 12 > (len as u64) - off {
        return Err(DivbinError::Truncated);
    }
    let start = off as usize;
    let count = read_u32_at(bytes, start + 8);
    if count != expected {
        return Err(DivbinError::CountMismatch { ticker: String::from_str(ticker), found: count, expected });
    }
    if (count as usize) > (len - start - 12) / 8 {
        return Err(DivbinError::Truncated);
    }
    let mut v: Vec<(u32, u32)> = Vec::new();
    let mut i: usize = 0;
    let ghost b = bytes@;
    while i < count as usize
        invariant
            b == bytes@,
            len == b.len(),
            start == off,
            start + 12 + 8 * count <= len,
            i <= count,
            v@.len() == i,
            forall|k: int|
                0 <= k < i ==> v@[k] == (
                    spec_u32_from_le_bytes(b.subrange(start + 12 + 8 * k, start + 16 + 8 * k)),
                    spec_u32_from_le_bytes(b.subrange(start + 16 + 8 * k, start + 20 + 8 * k)),
                ),
        decreases count - i,
    {
        let p = start + 12 + 8 * i;
        let date_days = read_u32_at(bytes, p);
        let amount_cents = read_u32_at(bytes, p + 4);
        v.push((date_days, amount_cents));
        i = i + 1;
    }
    proof {
        let recs = Seq::new(
            count as nat,
            |k: int|
                (
                    spec_u32_from_le_bytes(b.subrange(start + 12 + 8 * k, start + 16 + 8 * k)),
                    spec_u32_from_le_bytes(b.subrange(start + 16 + 8 * k, start + 20 + 8 * k)),
                ),
        );
        assert(v@ =~= recs);
    }
    Ok(v)
}

/// Look up the dividend records of `ticker` in a `.divbin` buffer (see the
/// module documentation). Returns the raw `(days since epoch, cents)` pairs.
pub fn parse_divbin(bytes: &[u8], ticker: &str) -> (r: Result<Vec<(u32, u32)>, DivbinError>)
    ensures
        divbin_result_matches(spec_divbin(bytes@, ticker@), ticker@, r),
{
    let len = bytes.len();
    if len < 4 {
        return Err(DivbinError::Truncated);
    }
    let magic: [u8; 4] = [bytes[0], bytes[1], bytes[2], bytes[3]];
    assert(magic@ =~= bytes@.subrange(0, 4));
    if !(magic[0] == 68 && magic[1] == 73 && magic[2] == 86 && magic[3] == 68) {
        assert(bytes@.subrange(0, 4) != seq![68u8, 73u8, 86u8, 68u8]) by {
            if bytes@.subrange(0, 4) == seq![68u8, 73u8, 86u8, 68u8] {
                assert(magic@[0] == 68 && magic@[1] == 73 && magic@[2] == 86 && magic@[3] == 68);
            }
        }
        return Err(DivbinError::InvalidMagic(magic));
    }
    assert(bytes@.subrange(0, 4) =~= seq![68u8, 73u8, 86u8, 68u8]);
    if len < 6 {
        return Err(DivbinError::Truncated);
    }
    let version = read_u16_at(bytes, 4);
    if version != 1 {
        return Err(DivbinError::UnsupportedVersion(version));
    }
    if len < 18 {
        return Err(DivbinError::Truncated);
    }
    let ticker_count = read_u32_at(bytes, 6);
    let index_offset = read_u64_at(bytes, 10);
    let wanted = String::from_str(ticker);
    let ghost b = bytes@;
    let mut j: u32 = 0;
    while j < ticker_count
        invariant
            b == bytes@,
            len == b.len(),
            wanted@ == ticker@,
            j <= ticker_count,
            spec_divbin(b, ticker@) == spec_scan(b, index_offset as int, ticker_count as int, j as int, ticker@),
        decreases ticker_count - j,
    {
        let ghost e = index_offset + 24 * j;
        if index_offset > len as u64 || (j as u64) > ((len as u64) - index_offset) / 24
            || 8 > (len as u64) - index_offset - 24 * (j as u64) {
            return Err(DivbinError::Truncated);
        }
        let e_exec = (index_offset as usize) + 24 * (j as usize);
        let n = name_len(bytes, e_exec);
        assert(bytes@.subrange(e_exec as int, e_exec + 8).subrange(0, n as int) =~= bytes@.subrange(
            e_exec as int,
            e_exec + n,
        ));
        let found_ticker = match string_from_utf8(slice_to_vec(slice_subrange(bytes, e_exec, e_exec + n))) {
            Ok(s) => s,
            Err(err) => return Err(DivbinError::InvalidUtf8(err)),
        };
        if 24 > len - e_exec {
            return Err(DivbinError::Truncated);
        }
        let file_offset = read_u64_at(bytes, e_exec + 8);
        let record_count = read_u32_at(bytes, e_exec + 16);
        if found_ticker == wanted {
            return read_section(bytes, file_offset, record_count, ticker);
        }
        j = j + 1;
    }
    Err(DivbinError::TickerNotFound(String::from_str(ticker)))
}

} // verus!
