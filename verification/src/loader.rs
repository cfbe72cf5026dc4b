//! Discovery bookkeeping for market data files: the names the data files
//! carry, and the registry of symbols found in the data directories.
//!
//! Data files are named `YYYY-MM-DD_to_YYYY-MM-DD-<kind>-<interval>.<ext>`,
//! for example `2024-01-01_to_2024-12-31-nbbo-1m.nbbo`: the start date, the
//! end date after `_to_`, then the kind and the interval after dashes.

use vstd::prelude::*;
use vstd::utf8::*;
use crate::order::{lemma_lex_total, lemma_lex_trans, lex_less, lex_lt};
use crate::calendar::{days_from_civil, valid_date};
use crate::seqs::{lemma_prefix_step, max_where, min_where};
use crate::nohlcv_decoder::{spec_has_valid_prices, OhlcvRecord};
use crate::parse::{
    chars_of, string_of, parse_i32, parse_u32, parse_u64, spec_parse_signed, spec_parse_unsigned, spec_split, spec_strip_prefix,
    spec_strip_suffix, split_chars, strip_prefix, strip_suffix, pieces_view,
};

verus! {

#[verifier::external_type_specification]
#[verifier::external_body]
pub struct ExPathBuf(std::path::PathBuf);

/// `PathBuf::clone`. Claimed: the clone is a copy of the path.
pub assume_specification[ <std::path::PathBuf as Clone>::clone ](p: &std::path::PathBuf) -> (r: std::path::PathBuf)
    ensures
        r == *p,
;

/// Midnight UTC of a calendar date, in seconds since the Unix epoch; `None`
/// for a date that does not exist or whose year lies outside the range of
/// calendar dates.
pub open spec fn spec_utc_midnight(year: i32, month: u32, day: u32) -> Option<i64> {
    if valid_date(year as int, month as int, day as int) {
        Some((days_from_civil(year as int, month as int, day as int) * 86400) as i64)
    } else {
        None
    }
}

/// chrono's `Utc.with_ymd_and_hms(year, month, day, 0, 0, 0).single()`,
/// read as a timestamp. Claimed, as chrono's source shows: the date is
/// accepted exactly when its month and day exist in the proleptic Gregorian
/// calendar and its year lies in chrono's range (-262143 through 262142), and
/// the timestamp counts the seconds from 1970-01-01 to the date's midnight.
#[verifier::external_body]
fn utc_midnight(year: i32, month: u32, day: u32) -> (r: Option<i64>)
    ensures
        r == spec_utc_midnight(year, month, day),
{
    match chrono::TimeZone::with_ymd_and_hms(&chrono::Utc, year, month, day, 0, 0, 0).single() {
        Some(dt) => Some(dt.timestamp()),
        None => None,
    }
}

/// The timestamp of the date whose year, month and day read as `y`, `m`
/// and `d`.
pub open spec fn spec_date_parts(y: Seq<char>, m: Seq<char>, d: Seq<char>) -> Option<i64> {
    match (spec_parse_signed(y), spec_parse_unsigned(m), spec_parse_unsigned(d)) {
        (Some(yy), Some(mm), Some(dd)) => if i32::MIN <= yy <= i32::MAX && mm <= u32::MAX && dd <= u32::MAX {
            spec_utc_midnight(yy as i32, mm as u32, dd as u32)
        } else {
            None
        },
        _ => None,
    }
}

/// The timestamp of a `YYYY-MM-DD` date.
pub open spec fn spec_parse_date(s: Seq<char>) -> Option<i64> {
    let p = spec_split(s, '-');
    if p.len() != 3 {
        None
    } else {
        spec_date_parts(p[0], p[1], p[2])
    }
}

/// The seconds an interval such as `5m`, `1h` or `1d` stands for: a
/// number of minutes, hours or days. The value is not bounded here.
pub open spec fn spec_interval(s: Seq<char>) -> Option<int> {
    let unit = |suffix: char, secs: int|
        match spec_strip_suffix(s, seq![suffix]) {
            Some(n) => match spec_parse_unsigned(n) {
                Some(v) => if v <= u64::MAX {
                    Some(v * secs)
                } else {
                    None
                },
                None => None,
            },
            None => None,
        };
    if spec_strip_suffix(s, seq!['m']) is Some {
        unit('m', 60)
    } else if spec_strip_suffix(s, seq!['h']) is Some {
        unit('h', 3600)
    } else if spec_strip_suffix(s, seq!['d']) is Some {
        unit('d', 86400)
    } else {
        None
    }
}

/// The interval of `s` is unknown or fits in a `u64`.
pub open spec fn interval_fits(s: Seq<char>) -> bool {
    spec_interval(s) matches Some(v) ==> v <= u64::MAX
}

/// The start, end and interval text that a data file name with extension
/// `suffix` carries: the name without the extension is a `YYYY-MM-DD` start
/// date, `_to_`, and a `YYYY-MM-DD` end date followed by `-<kind>-<interval>`
/// (the kind itself is not checked).
pub open spec fn spec_data_file_parts(filename: Seq<char>, suffix: Seq<char>) -> Option<(i64, i64, Seq<char>)> {
    match spec_strip_suffix(filename, suffix) {
        None => None,
        Some(stem) => {
            let halves = spec_split(stem, '_');
            if halves.len() != 3 || halves[1] != seq!['t', 'o'] {
                None
            } else {
                match spec_parse_date(halves[0]) {
                    None => None,
                    Some(start) => {
                        let rest = spec_split(halves[2], '-');
                        if rest.len() < 5 {
                            None
                        } else {
                            match spec_date_parts(rest[0], rest[1], rest[2]) {
                                None => None,
                                Some(end) => Some((start, end, rest[4])),
                            }
                        }
                    },
                }
            }
        },
    }
}

/// The start, end and interval in seconds that a data file name carries.
pub open spec fn spec_data_file_name(filename: Seq<char>, suffix: Seq<char>) -> Option<(i64, i64, int)> {
    match spec_data_file_parts(filename, suffix) {
        None => None,
        Some((start, end, text)) => match spec_interval(text) {
            None => None,
            Some(iv) => Some((start, end, iv)),
        },
    }
}

/// The name carries no interval too large for a `u64`.
pub open spec fn file_name_fits(filename: Seq<char>, suffix: Seq<char>) -> bool {
    spec_data_file_name(filename, suffix) matches Some((_, _, iv)) ==> iv <= u64::MAX
}

/// The timestamp of the date with the given year, month and day text.
fn date_from_parts(y: &[char], m: &[char], d: &[char]) -> (r: Option<i64>)
    ensures
        r == spec_date_parts(y@, m@, d@),
{
    let year = match parse_i32(y) {
        Some(v) => v,
        None => return None,
    };
    let month = match parse_u32(m) {
        Some(v) => v,
        None => return None,
    };
    let day = match parse_u32(d) {
        Some(v) => v,
        None => return None,
    };
    utc_midnight(year, month, day)
}

fn interval_of(s: &[char]) -> (r: Option<u64>)
    requires
        interval_fits(s@),
    ensures
        match spec_interval(s@) {
            Some(v) => r == Some(v as u64),
            None => r is None,
        },
{
    let m: [char; 1] = ['m'];
    let h: [char; 1] = ['h'];
    let dd: [char; 1] = ['d'];
    assert(m@ =~= seq!['m']);
    assert(h@ =~= seq!['h']);
    assert(dd@ =~= seq!['d']);
    let (num, secs) = match strip_suffix(s, m.as_slice()) {
        Some(n) => (n, 60u64),
        None => match strip_suffix(s, h.as_slice()) {
            Some(n) => (n, 3600u64),
            None => match strip_suffix(s, dd.as_slice()) {
                Some(n) => (n, 86400u64),
                None => return None,
            },
        },
    };
    match parse_u64(num.as_slice()) {
        Some(v) => Some(v * secs),
        None => None,
    }
}

/// Whether the interval written in `interval_str` (if any) fits in a
/// `u64`.
pub fn interval_in_range(interval_str: &str) -> (b: bool)
    ensures
        b == interval_fits(interval_str@),
{
    let s = chars_of(interval_str);
    let m: [char; 1] = ['m'];
    let h: [char; 1] = ['h'];
    let dd: [char; 1] = ['d'];
    assert(m@ =~= seq!['m']);
    assert(h@ =~= seq!['h']);
    assert(dd@ =~= seq!['d']);
    let (num, max) = match strip_suffix(s.as_slice(), m.as_slice()) {
        Some(n) => (n, u64::MAX / 60),
        None => match strip_suffix(s.as_slice(), h.as_slice()) {
            Some(n) => (n, u64::MAX / 3600),
            None => match strip_suffix(s.as_slice(), dd.as_slice()) {
                Some(n) => (n, u64::MAX / 86400),
                None => return true,
            },
        },
    };
    match parse_u64(num.as_slice()) {
        Some(v) => v <= max,
        None => true,
    }
}

/// The start, end and interval text carried by a data file name.
fn data_file_parts(filename: &str, suffix: &str) -> (r: Option<(i64, i64, Vec<char>)>)
    ensures
        match spec_data_file_parts(filename@, suffix@) {
            Some((s, e, t)) => r matches Some((s2, e2, t2)) && s2 == s && e2 == e && t2@ == t,
            None => r is None,
        },
{
    let name = chars_of(filename);
    let suf = chars_of(suffix);
    let stem = match strip_suffix(name.as_slice(), suf.as_slice()) {
        Some(t) => t,
        None => return None,
    };
    let halves = split_chars(stem.as_slice(), '_');
    let ghost hv = pieces_view(halves@);
    if halves.len() != 3 {
        return None;
    }
    assert(halves@[0]@ == hv[0] && halves@[1]@ == hv[1] && halves@[2]@ == hv[2]);
    let mid = halves[1].as_slice();
    if !(mid.len() == 2 && mid[0] == 't' && mid[1] == 'o') {
        proof {
            if hv[1] == seq!['t', 'o'] {
                assert(mid@ == seq!['t', 'o']);
                assert(mid@[0] == 't' && mid@[1] == 'o');
            }
        }
        return None;
    }
    assert(hv[1] =~= seq!['t', 'o']);
    let start = match date_of(halves[0].as_slice()) {
        Some(t) => t,
        None => return None,
    };
    let mut rest = split_chars(halves[2].as_slice(), '-');
    let ghost rv = pieces_view(rest@);
    if rest.len() < 5 {
        return None;
    }
    assert(rest@[0]@ == rv[0] && rest@[1]@ == rv[1] && rest@[2]@ == rv[2] && rest@[4]@ == rv[4]);
    let end = match date_from_parts(rest[0].as_slice(), rest[1].as_slice(), rest[2].as_slice()) {
        Some(t) => t,
        None => return None,
    };
    let text = rest.remove(4);
    Some((start, end, text))
}

/// The timestamp of a `YYYY-MM-DD` date.
fn date_of(s: &[char]) -> (r: Option<i64>)
    ensures
        r == spec_parse_date(s@),
{
    let parts = split_chars(s, '-');
    let ghost pv = pieces_view(parts@);
    if parts.len() != 3 {
        return None;
    }
    assert(parts@[0]@ == pv[0] && parts@[1]@ == pv[1] && parts@[2]@ == pv[2]);
    date_from_parts(parts[0].as_slice(), parts[1].as_slice(), parts[2].as_slice())
}

/// The start, end and interval carried by a data file name.
fn data_file_name(filename: &str, suffix: &str) -> (r: Option<(i64, i64, u64)>)
    requires
        file_name_fits(filename@, suffix@),
    ensures
        match spec_data_file_name(filename@, suffix@) {
            Some((s, e, iv)) => r == Some((s, e, iv as u64)),
            None => r is None,
        },
{
    match data_file_parts(filename, suffix) {
        Some((start, end, text)) => match interval_of(text.as_slice()) {
            Some(iv) => Some((start, end, iv)),
            None => None,
        },
        None => None,
    }
}

/// Whether the interval that a data file name carries, if any, fits in a
/// `u64`.
pub fn file_name_in_range(filename: &str, suffix: &str) -> (b: bool)
    ensures
        b == file_name_fits(filename@, suffix@),
{
    match data_file_parts(filename, suffix) {
        Some((start, end, text)) => {
            let s = string_of(text.as_slice());
            interval_in_range(s.as_str())
        },
        None => true,
    }
}

/// The bytes that order symbols: their UTF-8 encoding.
pub open spec fn symbol_key(s: Seq<char>) -> Seq<u8> {
    encode_utf8(s)
}

/// Type of data file
#[derive(Debug, Clone, Copy, PartialEq, Eq, Structural)]
pub enum FileType {
    Nbbo,
    Nohlcv,
    Csv,
}

/// Information about a single data file
#[derive(Debug, Clone)]
pub struct DataFile {
    pub path: std::path::PathBuf,
    pub file_type: FileType,
    /// Seconds (e.g., 60 for 1m)
    pub interval: Option<u64>,
    pub record_count: u64,
    /// Unix timestamp
    pub start_date: i64,
    /// Unix timestamp
    pub end_date: i64,
}

/// Metadata for a trading symbol
#[derive(Debug)]
pub struct SymbolMetadata {
    pub symbol: String,
    pub exchanges: Vec<String>,
    /// Unix timestamps (start, end)
    pub date_range: (i64, i64),
    pub available_files: Vec<DataFile>,
}

impl Clone for SymbolMetadata {
    fn clone(&self) -> (c: Self) {
        SymbolMetadata {
            symbol: self.symbol.clone(),
            exchanges: self.exchanges.clone(),
            date_range: (self.date_range.0, self.date_range.1),
            available_files: self.available_files.clone(),
        }
    }
}

pub open spec fn file_start(f: DataFile) -> int {
    f.start_date as int
}

pub open spec fn file_end(f: DataFile) -> int {
    f.end_date as int
}

pub open spec fn any_file(f: DataFile) -> bool {
    true
}

/// The earliest start over `files`; `i64::MAX` when there are none.
pub open spec fn spec_range_start(files: Seq<DataFile>) -> int {
    match min_where(files, |f: DataFile| any_file(f), |f: DataFile| file_start(f)) {
        Some(m) => m,
        None => i64::MAX as int,
    }
}

/// The latest end over `files`; `i64::MIN` when there are none.
pub open spec fn spec_range_end(files: Seq<DataFile>) -> int {
    match max_where(files, |f: DataFile| any_file(f), |f: DataFile| file_end(f)) {
        Some(m) => m,
        None => i64::MIN as int,
    }
}

/// Calculate date range from a list of files
pub fn calculate_date_range(files: &[DataFile]) -> (r: (i64, i64))
    ensures
        r.0 == spec_range_start(files@),
        r.1 == spec_range_end(files@),
{
    let mut min_date = i64::MAX;
    let mut max_date = i64::MIN;
    let mut i: usize = 0;
    assert(files@.subrange(0, 0) =~= Seq::<DataFile>::empty());
    while i < files.len()
        invariant
            i <= files@.len(),
            min_date == spec_range_start(files@.subrange(0, i as int)),
            max_date == spec_range_end(files@.subrange(0, i as int)),
        decreases files@.len() - i,
    {
        proof {
            lemma_prefix_step(files@, i as int);
        }
        if files[i].start_date < min_date {
            min_date = files[i].start_date;
        }
        if files[i].end_date > max_date {
            max_date = files[i].end_date;
        }
        i = i + 1;
    }
    assert(files@.subrange(0, files@.len() as int) =~= files@);
    (min_date, max_date)
}

/// A symbol's metadata as mathematical values.
pub struct MetaView {
    pub symbol: Seq<char>,
    pub exchanges: Seq<Seq<char>>,
    pub date_range: (i64, i64),
    pub files: Seq<DataFile>,
}

/// The characters of each string.
pub open spec fn strings_view(v: Seq<String>) -> Seq<Seq<char>> {
    v.map_values(|s: String| s@)
}

impl SymbolMetadata {
    pub open spec fn view(&self) -> MetaView {
        MetaView {
            symbol: self.symbol@,
            exchanges: strings_view(self.exchanges@),
            date_range: self.date_range,
            files: self.available_files@,
        }
    }
}

/// The symbols of the entries, in order.
pub open spec fn symbols_of(s: Seq<MetaView>) -> Seq<Seq<char>> {
    s.map_values(|m: MetaView| m.symbol)
}

/// The symbols strictly ascend in byte order (so none occurs twice).
pub open spec fn entries_sorted(s: Seq<MetaView>) -> bool {
    forall|i: int, j: int|
        0 <= i < j < s.len() ==> lex_lt(symbol_key(#[trigger] s[i].symbol), symbol_key(#[trigger] s[j].symbol))
}

/// The entry for `sym`, if any.
pub open spec fn find_entry(s: Seq<MetaView>, sym: Seq<char>) -> Option<MetaView>
    decreases s.len(),
{
    if s.len() == 0 {
        None
    } else if s.last().symbol == sym {
        Some(s.last())
    } else {
        find_entry(s.drop_last(), sym)
    }
}

/// The entry for `symbol` after files from `exchange` are recorded on top
/// of `old`: the exchange joins the list if new, the files are appended, and
/// the date range widens to cover theirs.
pub open spec fn spec_registered(old: Option<MetaView>, symbol: Seq<char>, exchange: Seq<char>, files: Seq<DataFile>) -> MetaView {
    let start = spec_range_start(files) as i64;
    let end = spec_range_end(files) as i64;
    match old {
        None => MetaView { symbol, exchanges: seq![exchange], date_range: (start, end), files },
        Some(m) => MetaView {
            symbol,
            exchanges: if m.exchanges.contains(exchange) {
                m.exchanges
            } else {
                m.exchanges.push(exchange)
            },
            date_range: (
                if start < m.date_range.0 {
                    start
                } else {
                    m.date_range.0
                },
                if end > m.date_range.1 {
                    end
                } else {
                    m.date_range.1
                },
            ),
            files: m.files + files,
        },
    }
}

/// An entry as scanning leaves it: it holds files, names each exchange
/// once, and its date range runs from the earliest start to the latest end
/// of its files.
pub open spec fn entry_consistent(m: MetaView) -> bool {
    &&& m.files.len() > 0
    &&& m.exchanges.no_duplicates()
    &&& m.date_range.0 as int == spec_range_start(m.files)
    &&& m.date_range.1 as int == spec_range_end(m.files)
}

/// The date range of a nonempty list of files is that of some file.
proof fn lemma_range_of_files(files: Seq<DataFile>)
    requires
        files.len() > 0,
    ensures
        min_where(files, |f: DataFile| any_file(f), |f: DataFile| file_start(f)) matches Some(v)
            && i64::MIN <= v <= i64::MAX,
        max_where(files, |f: DataFile| any_file(f), |f: DataFile| file_end(f)) matches Some(v)
            && i64::MIN <= v <= i64::MAX,
{
    crate::seqs::lemma_extremes_attained(files, |f: DataFile| any_file(f), |f: DataFile| file_start(f));
    crate::seqs::lemma_extremes_attained(files, |f: DataFile| any_file(f), |f: DataFile| file_end(f));
    assert(any_file(files[0]));
}

/// Recording a nonempty list of files for a symbol, on top of an entry that
/// is itself consistent (or of none), gives a consistent entry for that
/// symbol.
pub proof fn lemma_registered_consistent(old: Option<MetaView>, symbol: Seq<char>, exchange: Seq<char>, files: Seq<DataFile>)
    requires
        files.len() > 0,
        old matches Some(m) ==> entry_consistent(m),
    ensures
        spec_registered(old, symbol, exchange, files).symbol == symbol,
        entry_consistent(spec_registered(old, symbol, exchange, files)),
{
    lemma_range_of_files(files);
    let r = spec_registered(old, symbol, exchange, files);
    match old {
        None => {
            assert(seq![exchange].no_duplicates());
        },
        Some(m) => {
            lemma_range_of_files(m.files);
            crate::seqs::lemma_extremes_concat(m.files, files, |f: DataFile| any_file(f), |f: DataFile| file_start(f));
            crate::seqs::lemma_extremes_concat(m.files, files, |f: DataFile| any_file(f), |f: DataFile| file_end(f));
            if !m.exchanges.contains(exchange) {
                let x = m.exchanges.push(exchange);
                assert forall|i: int, j: int| 0 <= i < x.len() && 0 <= j < x.len() && i != j implies x[i] != x[j] by {
                    if j == x.len() - 1 {
                        assert(m.exchanges[i] == x[i]);
                    } else if i == x.len() - 1 {
                        assert(m.exchanges[j] == x[j]);
                    }
                }
            }
        },
    }
}

proof fn lemma_keys_differ(a: Seq<char>, b: Seq<char>)
    requires
        lex_lt(symbol_key(a), symbol_key(b)),
    ensures
        a != b,
{
    lemma_lex_total(symbol_key(a), symbol_key(b));
}

proof fn lemma_same_key(a: Seq<char>, b: Seq<char>)
    requires
        symbol_key(a) == symbol_key(b),
    ensures
        a == b,
{
    encode_utf8_decode_utf8(a);
    encode_utf8_decode_utf8(b);
}

proof fn lemma_find_in_sorted(s: Seq<MetaView>, i: int)
    requires
        entries_sorted(s),
        0 <= i < s.len(),
    ensures
        find_entry(s, s[i].symbol) == Some(s[i]),
    decreases s.len(),
{
    if i < s.len() - 1 {
        lemma_keys_differ(s[i].symbol, s[s.len() - 1].symbol);
        let t = s.drop_last();
        assert forall|a: int, b: int| 0 <= a < b < t.len() implies lex_lt(
            symbol_key(#[trigger] t[a].symbol),
            symbol_key(#[trigger] t[b].symbol),
        ) by {
            assert(t[a] == s[a] && t[b] == s[b]);
        }
        lemma_find_in_sorted(t, i);
    }
}

proof fn lemma_find_member(s: Seq<MetaView>, sym: Seq<char>)
    ensures
        find_entry(s, sym) matches Some(m) ==> m.symbol == sym && exists|i: int| 0 <= i < s.len() && s[i] == m,
    decreases s.len(),
{
    if s.len() > 0 {
        let t = s.drop_last();
        lemma_find_member(t, sym);
        if s.last().symbol != sym {
            if let Some(m) = find_entry(t, sym) {
                let i = choose|i: int| 0 <= i < t.len() && t[i] == m;
                assert(s[i] == m);
            }
        } else {
            assert(s[s.len() - 1] == s.last());
        }
    }
}

proof fn lemma_find_absent(s: Seq<MetaView>, sym: Seq<char>)
    requires
        forall|i: int| 0 <= i < s.len() ==> (#[trigger] s[i]).symbol != sym,
    ensures
        find_entry(s, sym) is None,
    decreases s.len(),
{
    if s.len() > 0 {
        let t = s.drop_last();
        assert forall|i: int| 0 <= i < t.len() implies (#[trigger] t[i]).symbol != sym by {
            assert(t[i] == s[i]);
        }
        lemma_find_absent(t, sym);
    }
}

proof fn lemma_find_update(s: Seq<MetaView>, i: int, x: MetaView, k: Seq<char>)
    requires
        0 <= i < s.len(),
        x.symbol == s[i].symbol,
        k != x.symbol,
    ensures
        find_entry(s.update(i, x), k) == find_entry(s, k),
    decreases s.len(),
{
    if i < s.len() - 1 {
        assert(s.update(i, x).drop_last() =~= s.drop_last().update(i, x));
        lemma_find_update(s.drop_last(), i, x, k);
    } else {
        assert(s.update(i, x).drop_last() =~= s.drop_last());
    }
}

proof fn lemma_find_insert(s: Seq<MetaView>, i: int, x: MetaView, k: Seq<char>)
    requires
        0 <= i <= s.len(),
        k != x.symbol,
    ensures
        find_entry(s.insert(i, x), k) == find_entry(s, k),
    decreases s.len(),
{
    if i < s.len() {
        assert(s.insert(i, x).drop_last() =~= s.drop_last().insert(i, x));
        assert(s.insert(i, x).last() == s.last());
        lemma_find_insert(s.drop_last(), i, x, k);
    } else {
        assert(s.insert(i, x).drop_last() =~= s);
    }
}

/// Whether `v` holds a string equal to `s`.
fn contains_string(v: &Vec<String>, s: &String) -> (b: bool)
    ensures
        b == strings_view(v@).contains(s@),
{
    let mut j: usize = 0;
    while j < v.len()
        invariant
            j <= v@.len(),
            forall|k: int| 0 <= k < j ==> (#[trigger] v@[k])@ != s@,
        decreases v@.len() - j,
    {
        if v[j] == *s {
            assert(strings_view(v@)[j as int] == s@);
            return true;
        }
        j = j + 1;
    }
    assert forall|k: int| 0 <= k < strings_view(v@).len() implies strings_view(v@)[k] != s@ by {
        assert(strings_view(v@)[k] == v@[k]@);
    }
    false
}

/// A registry entry for `symbol` holding `files` from `exchange`.
fn new_entry(symbol: String, exchange: String, files: Vec<DataFile>, start: i64, end: i64) -> (m: SymbolMetadata)
    requires
        start == spec_range_start(files@),
        end == spec_range_end(files@),
    ensures
        m.view() == spec_registered(None, symbol@, exchange@, files@),
{
    let mut exchanges: Vec<String> = Vec::new();
    let ghost ex = exchange@;
    exchanges.push(exchange);
    assert(strings_view(exchanges@) =~= seq![ex]);
    SymbolMetadata { symbol, exchanges, date_range: (start, end), available_files: files }
}

/// Main data loader for discovering and loading market data
pub struct DataLoader {
    base_paths: Vec<std::path::PathBuf>,
    cache: Vec<SymbolMetadata>,
}

impl DataLoader {
    /// The registered symbols with their metadata.
    pub closed spec fn entries(&self) -> Seq<MetaView> {
        self.cache@.map_values(|m: SymbolMetadata| m.view())
    }

    /// The directories searched for data.
    pub closed spec fn paths(&self) -> Seq<std::path::PathBuf> {
        self.base_paths@
    }

    /// The registry is ordered by symbol, with no symbol twice, and each
    /// entry is as scanning leaves it.
    pub open spec fn wf(&self) -> bool {
        &&& entries_sorted(self.entries())
        &&& forall|i: int| 0 <= i < self.entries().len() ==> entry_consistent(#[trigger] self.entries()[i])
    }

    /// The metadata registered for `sym`.
    pub open spec fn lookup(&self, sym: Seq<char>) -> Option<MetaView> {
        find_entry(self.entries(), sym)
    }

    /// Whatever a well-formed registry (one that scanning built) holds for a
    /// symbol carries that symbol, at least one file, each exchange once, and
    /// the date range from the earliest start to the latest end of its files.
    pub proof fn lemma_lookup_consistent(&self, sym: Seq<char>)
        requires
            self.wf(),
        ensures
            self.lookup(sym) matches Some(m) ==> m.symbol == sym && entry_consistent(m),
    {
        lemma_find_member(self.entries(), sym);
    }

    /// Create a new DataLoader with specified search directories
    pub fn new(base_paths: Vec<std::path::PathBuf>) -> (r: Self)
        ensures
            r.wf(),
            r.entries() == Seq::<MetaView>::empty(),
            r.paths() == base_paths@,
    {
        let r = DataLoader { base_paths, cache: Vec::new() };
        assert(r.entries() =~= Seq::<MetaView>::empty());
        r
    }

    /// The directories searched for data.
    pub fn base_paths(&self) -> (r: &Vec<std::path::PathBuf>)
        ensures
            r@ == self.paths(),
    {
        &self.base_paths
    }

    /// Forget every registered symbol.
    pub fn clear_cache(&mut self)
        ensures
            final(self).wf(),
            final(self).entries() == Seq::<MetaView>::empty(),
            final(self).paths() == old(self).paths(),
    {
        self.cache = Vec::new();
        assert(self.entries() =~= Seq::<MetaView>::empty());
    }

    /// Record the data files found for `symbol` under `exchange`, as a scan
    /// of the data directories does for each symbol directory. Nothing is
    /// recorded for an empty symbol or an empty list of files.
    pub fn record_symbol_files(&mut self, symbol: String, exchange: String, files: Vec<DataFile>)
        requires
            old(self).wf(),
        ensures
            final(self).wf(),
            final(self).paths() == old(self).paths(),
            symbol@.len() == 0 || files@.len() == 0 ==> final(self).entries() == old(self).entries(),
            symbol@.len() > 0 && files@.len() > 0 ==> final(self).lookup(symbol@) == Some(
                spec_registered(old(self).lookup(symbol@), symbol@, exchange@, files@),
            ),
            symbol@.len() > 0 && files@.len() > 0 ==> forall|k: Seq<char>|
                k != symbol@ ==> #[trigger] final(self).lookup(k) == old(self).lookup(k),
    {
        if symbol.as_str().unicode_len() == 0 || files.len() == 0 {
            return;
        }
        let (start, end) = calculate_date_range(files.as_slice());
        let ghost e = self.entries();
        let ghost sym = symbol@;
        let ghost ex = exchange@;
        let ghost fs = files@;
        let n = self.cache.len();
        let mut i: usize = 0;
        while i < n
            invariant
                n == self.cache@.len(),
                e == self.entries(),
                self.paths() == old(self).paths(),
                e == old(self).entries(),
                sym.len() > 0,
                fs.len() > 0,
                ex == exchange@,
                fs == files@,
                start == spec_range_start(fs),
                end == spec_range_end(fs),
                e.len() == n,
                entries_sorted(e),
                sym == symbol@,
                i <= n,
                forall|j: int| 0 <= j < i ==> lex_lt(symbol_key(#[trigger] e[j].symbol), symbol_key(sym)),
                forall|j: int| 0 <= j < e.len() ==> entry_consistent(#[trigger] e[j]),
            decreases n - i,
        {
            assert(e[i as int] == self.cache@[i as int].view());
            if self.cache[i].symbol == symbol {
                proof {
                    lemma_find_in_sorted(e, i as int);
                }
                let mut m = self.cache.remove(i);
                let ghost old_m = m.view();
                let present = contains_string(&m.exchanges, &exchange);
                if !present {
                    let ghost before = m.exchanges@;
                    assert(strings_view(before) == old_m.exchanges);
                    assert(exchange@ == ex);
                    m.exchanges.push(exchange);
                    assert(m.exchanges@ == before.push(m.exchanges@.last()));
                    assert(m.exchanges@.last()@ == ex);
                    assert forall|k: int| 0 <= k < m.exchanges@.len() implies #[trigger] strings_view(m.exchanges@)[k]
                        == old_m.exchanges.push(ex)[k] by {
                        if k < before.len() {
                            assert(m.exchanges@[k] == before[k]);
                            assert(strings_view(before)[k] == before[k]@);
                        }
                    }
                    assert(strings_view(m.exchanges@) =~= old_m.exchanges.push(ex));
                }
                let mut files = files;
                m.available_files.append(&mut files);
                let lo = if start < m.date_range.0 {
                    start
                } else {
                    m.date_range.0
                };
                let hi = if end > m.date_range.1 {
                    end
                } else {
                    m.date_range.1
                };
                m.date_range = (lo, hi);
                let ghost new_view = m.view();
                assert(new_view == spec_registered(Some(old_m), sym, ex, fs));
                self.cache.insert(i, m);
                proof {
                    lemma_registered_consistent(Some(old_m), sym, ex, fs);
                    assert(self.entries() =~= e.update(i as int, new_view));
                    let e2 = self.entries();
                    assert forall|a: int, b: int| 0 <= a < b < e2.len() implies lex_lt(
                        symbol_key(#[trigger] e2[a].symbol),
                        symbol_key(#[trigger] e2[b].symbol),
                    ) by {
                        assert(e2[a].symbol == e[a].symbol);
                        assert(e2[b].symbol == e[b].symbol);
                    }
                    lemma_find_in_sorted(e2, i as int);
                    assert forall|k: Seq<char>| k != sym implies #[trigger] find_entry(e2, k) == find_entry(e, k) by {
                        lemma_find_update(e, i as int, new_view, k);
                    }
                }
                return;
            }
            if lex_less(symbol.as_str().as_bytes(), self.cache[i].symbol.as_str().as_bytes()) {
                proof {
                    assert forall|j: int| 0 <= j < e.len() implies (#[trigger] e[j]).symbol != sym by {
                        if j < i {
                            lemma_keys_differ(e[j].symbol, sym);
                        } else {
                            if j > i {
                                lemma_lex_trans(symbol_key(sym), symbol_key(e[i as int].symbol), symbol_key(e[j].symbol));
                            }
                            lemma_keys_differ(sym, e[j].symbol);
                        }
                    }
                    lemma_find_absent(e, sym);
                }
                let m = new_entry(symbol, exchange, files, start, end);
                let ghost new_view = m.view();
                self.cache.insert(i, m);
                proof {
                    lemma_registered_consistent(None, sym, ex, fs);
                    self.lemma_after_insert(e, i as int, new_view);
                }
                return;
            }
            proof {
                lemma_lex_total(symbol_key(sym), symbol_key(e[i as int].symbol));
                if symbol_key(sym) == symbol_key(e[i as int].symbol) {
                    lemma_same_key(sym, e[i as int].symbol);
                }
            }
            i = i + 1;
        }
        proof {
            assert forall|j: int| 0 <= j < e.len() implies (#[trigger] e[j]).symbol != sym by {
                lemma_keys_differ(e[j].symbol, sym);
            }
            lemma_find_absent(e, sym);
        }
        let m = new_entry(symbol, exchange, files, start, end);
        let ghost new_view = m.view();
        self.cache.push(m);
        proof {
            lemma_registered_consistent(None, sym, ex, fs);
            self.lemma_after_insert(e, n as int, new_view);
        }
    }

    proof fn lemma_after_insert(&self, e: Seq<MetaView>, i: int, x: MetaView)
        requires
            0 <= i <= e.len(),
            entries_sorted(e),
            self.entries() =~= e.insert(i, x),
            forall|j: int| 0 <= j < i ==> lex_lt(symbol_key(#[trigger] e[j].symbol), symbol_key(x.symbol)),
            i < e.len() ==> lex_lt(symbol_key(x.symbol), symbol_key(e[i].symbol)),
            forall|j: int| 0 <= j < e.len() ==> entry_consistent(#[trigger] e[j]),
            entry_consistent(x),
        ensures
            self.wf(),
            find_entry(self.entries(), x.symbol) == Some(x),
            forall|k: Seq<char>| k != x.symbol ==> #[trigger] find_entry(self.entries(), k) == find_entry(e, k),
    {
        let e2 = self.entries();
        assert forall|a: int, b: int| 0 <= a < b < e2.len() implies lex_lt(
            symbol_key(#[trigger] e2[a].symbol),
            symbol_key(#[trigger] e2[b].symbol),
        ) by {
            if b < i {
            } else if b == i {
            } else if a < i {
                if b - 1 > i {
                    lemma_lex_trans(symbol_key(x.symbol), symbol_key(e[i].symbol), symbol_key(e[b - 1].symbol));
                }
                lemma_lex_trans(symbol_key(e[a].symbol), symbol_key(x.symbol), symbol_key(e[b - 1].symbol));
            } else if a == i {
                if b - 1 > i {
                    lemma_lex_trans(symbol_key(x.symbol), symbol_key(e[i].symbol), symbol_key(e[b - 1].symbol));
                }
            } else {
            }
        }
        assert(e2[i] == x);
        lemma_find_in_sorted(e2, i);
        assert forall|k: Seq<char>| k != x.symbol implies #[trigger] find_entry(self.entries(), k) == find_entry(e, k) by {
            lemma_find_insert(e, i, x, k);
        }
    }

    /// Parse date string (`YYYY-MM-DD`) to Unix timestamp
    pub fn parse_date(&self, date_str: &str) -> (r: Option<i64>)
        ensures
            r == spec_parse_date(date_str@),
    {
        let s = chars_of(date_str);
        date_of(s.as_slice())
    }

    /// Parse interval string (`5m`, `1h`, `1d`, ...) to seconds
    pub fn parse_interval(&self, interval_str: &str) -> (r: Option<u64>)
        requires
            interval_fits(interval_str@),
        ensures
            match spec_interval(interval_str@) {
                Some(v) => r == Some(v as u64),
                None => r is None,
            },
    {
        let s = chars_of(interval_str);
        interval_of(s.as_slice())
    }

    /// Parse NBBO filename format (`YYYY-MM-DD_to_YYYY-MM-DD-nbbo-{interval}.nbbo`)
    pub fn parse_nbbo_filename(&self, filename: &str) -> (r: Option<(i64, i64, u64)>)
        requires
            file_name_fits(filename@, ".nbbo"@),
        ensures
            match spec_data_file_name(filename@, ".nbbo"@) {
                Some((s, e, iv)) => r == Some((s, e, iv as u64)),
                None => r is None,
            },
    {
        data_file_name(filename, ".nbbo")
    }

    /// Parse NOHLCV filename format (`YYYY-MM-DD_to_YYYY-MM-DD-ohlcv-{interval}.nohlcv`)
    pub fn parse_nohlcv_filename(&self, filename: &str) -> (r: Option<(i64, i64, u64)>)
        requires
            file_name_fits(filename@, ".nohlcv"@),
        ensures
            match spec_data_file_name(filename@, ".nohlcv"@) {
                Some((s, e, iv)) => r == Some((s, e, iv as u64)),
                None => r is None,
            },
    {
        data_file_name(filename, ".nohlcv")
    }

    /// What a data file's name says of it: an NBBO or NOHLCV file whose name
    /// carries its dates and interval, or a CSV file; `None` for anything
    /// else.
    pub fn parse_data_file_name(&self, filename: &str) -> (r: Option<(FileType, Option<(i64, i64, u64)>)>)
        requires
            file_name_fits(filename@, ".nbbo"@),
            file_name_fits(filename@, ".nohlcv"@),
        ensures
            r == (match spec_data_file_name(filename@, ".nbbo"@) {
                Some((s, e, iv)) => Some((FileType::Nbbo, Some((s, e, iv as u64)))),
                None => match spec_data_file_name(filename@, ".nohlcv"@) {
                    Some((s, e, iv)) => Some((FileType::Nohlcv, Some((s, e, iv as u64)))),
                    None => if spec_strip_suffix(filename@, ".csv"@) is Some {
                        Some((FileType::Csv, None))
                    } else {
                        None
                    },
                },
            }),
    {
        if let Some(info) = self.parse_nbbo_filename(filename) {
            return Some((FileType::Nbbo, Some(info)));
        }
        if let Some(info) = self.parse_nohlcv_filename(filename) {
            return Some((FileType::Nohlcv, Some(info)));
        }
        let name = chars_of(filename);
        let csv = chars_of(".csv");
        match strip_suffix(name.as_slice(), csv.as_slice()) {
            Some(_) => Some((FileType::Csv, None)),
            None => None,
        }
    }

    /// Get all available symbols, in byte order
    pub fn get_available_symbols(&self) -> (r: Vec<String>)
        ensures
            strings_view(r@) == symbols_of(self.entries()),
            self.wf() ==> forall|i: int, j: int|
                0 <= i < j < r@.len() ==> lex_lt(symbol_key((#[trigger] r@[i])@), symbol_key((#[trigger] r@[j])@)),
    {
        let mut r: Vec<String> = Vec::new();
        let mut i: usize = 0;
        while i < self.cache.len()
            invariant
                i <= self.cache@.len(),
                r@.len() == i,
                self.entries().len() == self.cache@.len(),
                strings_view(r@) == symbols_of(self.entries()).subrange(0, i as int),
            decreases self.cache@.len() - i,
        {
            let sym = self.cache[i].symbol.clone();
            assert(self.entries()[i as int] == self.cache@[i as int].view());
            assert(sym@ == symbols_of(self.entries())[i as int]);
            let ghost old_r = r@;
            r.push(sym);
            assert forall|k: int| 0 <= k < i + 1 implies strings_view(r@)[k] == symbols_of(self.entries())[k] by {
                if k < i {
                    assert(r@[k] == old_r[k]);
                    assert(strings_view(old_r)[k] == symbols_of(self.entries())[k]);
                }
            }
            i = i + 1;
            assert(strings_view(r@) =~= symbols_of(self.entries()).subrange(0, i as int));
        }
        assert(symbols_of(self.entries()).subrange(0, i as int) =~= symbols_of(self.entries()));
        assert forall|a: int, b: int| 0 <= a < b < r@.len() && self.wf() implies lex_lt(
            symbol_key((#[trigger] r@[a])@),
            symbol_key((#[trigger] r@[b])@),
        ) by {
            assert(strings_view(r@)[a] == r@[a]@);
            assert(strings_view(r@)[b] == r@[b]@);
            assert(self.entries()[a].symbol == r@[a]@);
            assert(self.entries()[b].symbol == r@[b]@);
        }
        r
    }

    /// Get metadata for a specific symbol
    pub fn get_symbol_info(&self, symbol: &str) -> (r: Option<&SymbolMetadata>)
        ensures
            match r {
                Some(m) => self.lookup(symbol@) == Some(m.view()),
                None => self.lookup(symbol@) is None,
            },
    {
        let wanted = String::from_str(symbol);
        let ghost e = self.entries();
        let mut i = self.cache.len();
        assert(e.subrange(0, i as int) =~= e);
        while i > 0
            invariant
                i <= self.cache@.len(),
                e == self.entries(),
                wanted@ == symbol@,
                find_entry(e, symbol@) == find_entry(e.subrange(0, i as int), symbol@),
            decreases i,
        {
            let ghost sub = e.subrange(0, i as int);
            if self.cache[i - 1].symbol == wanted {
                assert(sub.last() == self.cache@[i - 1].view());
                return Some(&self.cache[i - 1]);
            }
            assert(sub.drop_last() =~= e.subrange(0, i - 1));
            i = i - 1;
        }
        assert(e.subrange(0, 0) =~= Seq::<MetaView>::empty());
        None
    }
}

/// The file's dates meet the requested range (each bound optional).
pub open spec fn spec_in_range(f: DataFile, start_date: Option<i64>, end_date: Option<i64>) -> bool {
    match (start_date, end_date) {
        (Some(s), Some(e)) => f.start_date <= e && f.end_date >= s,
        (Some(s), None) => f.end_date >= s,
        (None, Some(e)) => f.start_date <= e,
        (None, None) => true,
    }
}

/// The positions among the first `n` files of those with interval `iv`
/// whose dates meet the range, in order.
pub open spec fn matching_upto(files: Seq<DataFile>, n: int, iv: u64, start_date: Option<i64>, end_date: Option<i64>) -> Seq<
    usize,
>
    decreases n,
{
    if n <= 0 {
        Seq::empty()
    } else {
        let rest = matching_upto(files, n - 1, iv, start_date, end_date);
        if files[n - 1].interval == Some(iv) && spec_in_range(files[n - 1], start_date, end_date) {
            rest.push((n - 1) as usize)
        } else {
            rest
        }
    }
}

/// The positions of the files to load for the first `k` requested
/// intervals: interval by interval, files in their order.
pub open spec fn spec_selection(files: Seq<DataFile>, intervals: Seq<u64>, k: int, start_date: Option<i64>, end_date: Option<i64>) -> Seq<
    usize,
>
    decreases k,
{
    if k <= 0 {
        Seq::empty()
    } else {
        spec_selection(files, intervals, k - 1, start_date, end_date) + matching_upto(
            files,
            files.len() as int,
            intervals[k - 1],
            start_date,
            end_date,
        )
    }
}

proof fn lemma_matching_members(files: Seq<DataFile>, n: int, iv: u64, start_date: Option<i64>, end_date: Option<i64>)
    requires
        0 <= n <= files.len(),
        n <= usize::MAX,
    ensures
        forall|x: usize| #[trigger] matching_upto(files, n, iv, start_date, end_date).contains(x) <==> (x < n
            && files[x as int].interval == Some(iv) && spec_in_range(files[x as int], start_date, end_date)),
        forall|p: int| 0 <= p < matching_upto(files, n, iv, start_date, end_date).len() ==> #[trigger] matching_upto(files, n, iv, start_date, end_date)[p] < n,
    decreases n,
{
    if n > 0 {
        lemma_matching_members(files, n - 1, iv, start_date, end_date);
        let rest = matching_upto(files, n - 1, iv, start_date, end_date);
        let m = matching_upto(files, n, iv, start_date, end_date);
        assert forall|x: usize| #[trigger] m.contains(x) <==> (x < n && files[x as int].interval == Some(iv)
            && spec_in_range(files[x as int], start_date, end_date)) by {
            if files[n - 1].interval == Some(iv) && spec_in_range(files[n - 1], start_date, end_date) {
                assert(m == rest.push((n - 1) as usize));
                if m.contains(x) {
                    let p = choose|p: int| 0 <= p < m.len() && m[p] == x;
                    if p < rest.len() {
                        assert(rest[p] == x);
                        assert(rest.contains(x));
                    }
                }
                if x < n && files[x as int].interval == Some(iv) && spec_in_range(files[x as int], start_date, end_date) {
                    if x == n - 1 {
                        assert(m[m.len() - 1] == x);
                    } else {
                        assert(rest.contains(x));
                        let p = choose|p: int| 0 <= p < rest.len() && rest[p] == x;
                        assert(m[p] == x);
                    }
                }
            } else {
                assert(m == rest);
            }
        }
        assert forall|p: int| 0 <= p < m.len() implies #[trigger] m[p] < n by {
            if p < rest.len() {
                assert(m[p] == rest[p]);
            }
        }
    }
}

proof fn lemma_selection_members(files: Seq<DataFile>, intervals: Seq<u64>, k: int, start_date: Option<i64>, end_date: Option<i64>)
    requires
        0 <= k <= intervals.len(),
        files.len() <= usize::MAX,
    ensures
        forall|x: usize| #[trigger] spec_selection(files, intervals, k, start_date, end_date).contains(x) <==> (x
            < files.len() && spec_in_range(files[x as int], start_date, end_date) && exists|q: int|
            0 <= q < k && files[x as int].interval == Some(#[trigger] intervals[q])),
    decreases k,
{
    if k > 0 {
        lemma_selection_members(files, intervals, k - 1, start_date, end_date);
        lemma_matching_members(files, files.len() as int, intervals[k - 1], start_date, end_date);
        let a = spec_selection(files, intervals, k - 1, start_date, end_date);
        let b = matching_upto(files, files.len() as int, intervals[k - 1], start_date, end_date);
        let c = spec_selection(files, intervals, k, start_date, end_date);
        assert(c == a + b);
        assert forall|x: usize| #[trigger] c.contains(x) <==> (x < files.len() && spec_in_range(
            files[x as int],
            start_date,
            end_date,
        ) && exists|q: int| 0 <= q < k && files[x as int].interval == Some(#[trigger] intervals[q])) by {
            if c.contains(x) {
                let p = choose|p: int| 0 <= p < c.len() && c[p] == x;
                if p < a.len() {
                    assert(a[p] == x);
                    assert(a.contains(x));
                } else {
                    assert(b[p - a.len()] == x);
                    assert(b.contains(x));
                    assert(files[x as int].interval == Some(intervals[k - 1]));
                }
            }
            if x < files.len() && spec_in_range(files[x as int], start_date, end_date) && exists|q: int|
                0 <= q < k && files[x as int].interval == Some(#[trigger] intervals[q]) {
                let q = choose|q: int| 0 <= q < k && files[x as int].interval == Some(#[trigger] intervals[q]);
                if q < k - 1 {
                    assert(a.contains(x));
                    let p = choose|p: int| 0 <= p < a.len() && a[p] == x;
                    assert(c[p] == x);
                } else {
                    assert(b.contains(x));
                    let p = choose|p: int| 0 <= p < b.len() && b[p] == x;
                    assert(c[a.len() + p] == x);
                }
            }
        }
    }
}

/// Which files are loaded: a file is selected exactly when its interval is
/// one of the requested ones and its span meets the requested dates (it
/// ends no earlier than the start and starts no later than the end, so a
/// file that overlaps the range counts, not only one lying inside it).
pub proof fn lemma_selected_files(files: Seq<DataFile>, intervals: Seq<u64>, start_date: Option<i64>, end_date: Option<i64>)
    requires
        files.len() <= usize::MAX,
    ensures
        forall|x: usize| #[trigger] spec_selection(files, intervals, intervals.len() as int, start_date, end_date).contains(x)
            <==> (x < files.len() && (exists|q: int| 0 <= q < intervals.len() && files[x as int].interval == Some(#[trigger] intervals[q]))
            && (start_date matches Some(s) ==> files[x as int].end_date >= s)
            && (end_date matches Some(e) ==> files[x as int].start_date <= e)),
{
    lemma_selection_members(files, intervals, intervals.len() as int, start_date, end_date);
}

/// The positions in `files` of the files to load for `intervals` within the
/// requested dates: for each interval in turn, the files with that interval
/// whose dates meet the range, in their order.
pub fn select_files(files: &[DataFile], start_date: Option<i64>, end_date: Option<i64>, intervals: &[u64]) -> (r: Vec<
    usize,
>)
    ensures
        r@ == spec_selection(files@, intervals@, intervals@.len() as int, start_date, end_date),
        forall|x: usize| #[trigger] r@.contains(x) <==> (x < files@.len() && (exists|q: int|
            0 <= q < intervals@.len() && files@[x as int].interval == Some(#[trigger] intervals@[q]))
            && (start_date matches Some(s) ==> files@[x as int].end_date >= s)
            && (end_date matches Some(e) ==> files@[x as int].start_date <= e)),
{
    let _n = files.len();
    proof {
        lemma_selected_files(files@, intervals@, start_date, end_date);
    }
    let mut r: Vec<usize> = Vec::new();
    let mut k: usize = 0;
    while k < intervals.len()
        invariant
            k <= intervals@.len(),
            r@ == spec_selection(files@, intervals@, k as int, start_date, end_date),
        decreases intervals@.len() - k,
    {
        let iv = intervals[k];
        let ghost before = r@;
        let mut j: usize = 0;
        while j < files.len()
            invariant
                j <= files@.len(),
                iv == intervals@[k as int],
                r@ == before + matching_upto(files@, j as int, iv, start_date, end_date),
            decreases files@.len() - j,
        {
            let f = &files[j];
            let wanted = match f.interval {
                Some(fi) => fi == iv,
                None => false,
            };
            let in_range = match (start_date, end_date) {
                (Some(s), Some(e)) => f.start_date <= e && f.end_date >= s,
                (Some(s), None) => f.end_date >= s,
                (None, Some(e)) => f.start_date <= e,
                (None, None) => true,
            };
            if wanted && in_range {
                r.push(j);
            }
            j = j + 1;
            assert(r@ =~= before + matching_upto(files@, j as int, iv, start_date, end_date));
        }
        k = k + 1;
    }
    r
}

/// The bars of `rs` that loading keeps, in order: bars timestamped (in whole
/// seconds) before `start_date` are skipped, the first bar after `end_date`
/// ends the load, and bars without all four prices are dropped.
pub open spec fn spec_bars_for_load(rs: Seq<OhlcvRecord>, start_date: Option<i64>, end_date: Option<i64>) -> Seq<
    OhlcvRecord,
>
    decreases rs.len(),
{
    if rs.len() == 0 {
        Seq::empty()
    } else {
        let r = rs[0];
        let ts = (r.ts_event / 1_000_000_000) as int;
        if start_date matches Some(st) && ts < st {
            spec_bars_for_load(rs.drop_first(), start_date, end_date)
        } else if end_date matches Some(en) && ts > en {
            Seq::empty()
        } else if spec_has_valid_prices(r) {
            seq![r] + spec_bars_for_load(rs.drop_first(), start_date, end_date)
        } else {
            spec_bars_for_load(rs.drop_first(), start_date, end_date)
        }
    }
}

/// The bars of a `.nohlcv` file that loading keeps (see `spec_bars_for_load`).
pub fn bars_for_load(records: &[OhlcvRecord], start_date: Option<i64>, end_date: Option<i64>) -> (v: Vec<OhlcvRecord>)
    ensures
        v@ == spec_bars_for_load(records@, start_date, end_date),
{
    let mut v: Vec<OhlcvRecord> = Vec::new();
    let n = records.len();
    let mut i: usize = 0;
    assert(records@.subrange(0, n as int) =~= records@);
    while i < n
        invariant
            n == records@.len(),
            i <= n,
            v@ + spec_bars_for_load(records@.subrange(i as int, n as int), start_date, end_date) == spec_bars_for_load(
                records@,
                start_date,
                end_date,
            ),
        decreases n - i,
    {
        let r = records[i];
        let ghost rest = records@.subrange(i as int, n as int);
        assert(rest[0] == r);
        assert(rest.drop_first() =~= records@.subrange(i + 1, n as int));
        let ts = (r.ts_event / 1_000_000_000) as i64;
        if let Some(st) = start_date {
            if ts < st {
                i = i + 1;
                continue;
            }
        }
        if let Some(en) = end_date {
            if ts > en {
                assert(v@ + Seq::<OhlcvRecord>::empty() =~= v@);
                return v;
            }
        }
        if r.has_valid_prices() {
            let ghost before = v@;
            v.push(r);
            assert(before + (seq![r] + spec_bars_for_load(rest.drop_first(), start_date, end_date)) =~= v@
                + spec_bars_for_load(rest.drop_first(), start_date, end_date));
        }
        i = i + 1;
    }
    assert(records@.subrange(n as int, n as int) =~= Seq::<OhlcvRecord>::empty());
    assert(v@ + Seq::<OhlcvRecord>::empty() =~= v@);
    v
}

} // verus!
