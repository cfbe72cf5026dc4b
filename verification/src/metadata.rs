//! Key/value metadata blocks of file headers.
//!
//! A header ends with a run of entries, each a length-prefixed UTF-8 key and
//! a length-prefixed UTF-8 value. Decoding stops quietly at the first entry
//! that does not fit, fails on the first key or value that is not UTF-8, and
//! a later entry replaces an earlier one with the same key. The entries are
//! kept in key order, as a `BTreeMap` keeps them.

use vstd::prelude::*;
use vstd::bytes::*;
use vstd::slice::*;
use vstd::utf8::*;
use crate::codec::read_u16_at;
use crate::order::{lemma_text_order, lemma_text_trans, text_less, text_lt};

verus! {

#[verifier::external_type_specification]
#[verifier::external_body]
pub struct ExFromUtf8Error(std::string::FromUtf8Error);

/// `String::from_utf8`. Claimed: it succeeds exactly when the bytes are
/// valid UTF-8, and the string then holds the characters they encode.
#[verifier::external_body]
pub(crate) fn string_from_utf8(bytes: Vec<u8>) -> (r: Result<String, std::string::FromUtf8Error>)
    ensures
        r is Ok <==> valid_utf8(bytes@),
        r matches Ok(s) ==> s@ == decode_utf8(bytes@),
{
    String::from_utf8(bytes)
}

/// Decoded metadata entries, as character sequences.
pub type EntriesView = Seq<(Seq<char>, Seq<char>)>;

/// The characters of each entry of `v`.
pub open spec fn entries_view(v: Seq<(String, String)>) -> EntriesView {
    v.map_values(|e: (String, String)| (e.0@, e.1@))
}

/// Map insertion on an entry list kept in key order, as a `BTreeMap`
/// stores its entries: the entry with key `k` gets value `v`, or a new
/// entry goes before the first greater key.
pub open spec fn spec_insert_entry(m: EntriesView, k: Seq<char>, v: Seq<char>) -> EntriesView
    decreases m.len(),
{
    if m.len() == 0 {
        seq![(k, v)]
    } else if m[0].0 == k {
        m.update(0, (k, v))
    } else if text_lt(k, m[0].0) {
        seq![(k, v)] + m
    } else {
        seq![m[0]] + spec_insert_entry(m.drop_first(), k, v)
    }
}

/// The keys strictly increase, in the order of `String`; so no key occurs
/// twice.
pub open spec fn keys_sorted(m: EntriesView) -> bool {
    forall|i: int, j: int| 0 <= i < j < m.len() ==> text_lt(#[trigger] m[i].0, #[trigger] m[j].0)
}

/// The value stored under `k`, if any (the first entry with that key).
pub open spec fn entry_lookup(m: EntriesView, k: Seq<char>) -> Option<Seq<char>>
    decreases m.len(),
{
    if m.len() == 0 {
        None
    } else if m[0].0 == k {
        Some(m[0].1)
    } else {
        entry_lookup(m.drop_first(), k)
    }
}

/// Length of the value at `pos`, stored in `width` (1 or 2) little-endian bytes.
pub open spec fn value_len_at(b: Seq<u8>, pos: int, width: int) -> int {
    if width == 1 {
        b[pos] as int
    } else {
        spec_u16_from_le_bytes(b.subrange(pos, pos + 2)) as int
    }
}

/// The entries decoded from `b`, starting at `off` with `acc` already
/// decoded; `None` when a key or value is not UTF-8. An entry is read while
/// at least `guard` bytes remain; the value length takes `width` bytes.
pub open spec fn spec_decode_entries(
    b: Seq<u8>,
    off: int,
    guard: int,
    width: int,
    acc: EntriesView,
) -> Option<EntriesView>
    decreases b.len() - off,
{
    if off < 0 || off + guard > b.len() || guard < 1 || width < 1 || width > 2 {
        Some(acc)
    } else {
        let key_len = b[off] as int;
        let k0 = off + 1;
        if key_len == 0 || k0 + key_len > b.len() {
            Some(acc)
        } else if !valid_utf8(b.subrange(k0, k0 + key_len)) {
            None
        } else {
            let v0 = k0 + key_len;
            if v0 + width > b.len() {
                Some(acc)
            } else {
                let d0 = v0 + width;
                let value_len = value_len_at(b, v0, width);
                if d0 + value_len > b.len() {
                    Some(acc)
                } else if !valid_utf8(b.subrange(d0, d0 + value_len)) {
                    None
                } else {
                    spec_decode_entries(
                        b,
                        d0 + value_len,
                        guard,
                        width,
                        spec_insert_entry(
                            acc,
                            decode_utf8(b.subrange(k0, k0 + key_len)),
                            decode_utf8(b.subrange(d0, d0 + value_len)),
                        ),
                    )
                }
            }
        }
    }
}

proof fn lemma_sorted_tail(m: EntriesView)
    requires
        keys_sorted(m),
        m.len() > 0,
    ensures
        keys_sorted(m.drop_first()),
        forall|i: int| 0 <= i < m.drop_first().len() ==> text_lt(m[0].0, #[trigger] m.drop_first()[i].0),
{
    assert forall|i: int, j: int| 0 <= i < j < m.drop_first().len() implies text_lt(
        #[trigger] m.drop_first()[i].0,
        #[trigger] m.drop_first()[j].0,
    ) by {
        assert(m.drop_first()[i] == m[i + 1] && m.drop_first()[j] == m[j + 1]);
    }
    assert forall|i: int| 0 <= i < m.drop_first().len() implies text_lt(m[0].0, #[trigger] m.drop_first()[i].0) by {
        assert(m.drop_first()[i] == m[i + 1]);
    }
}

/// In a key-ordered list, a key that sorts before every key is not there.
proof fn lemma_lookup_below(m: EntriesView, k: Seq<char>)
    requires
        keys_sorted(m),
        forall|i: int| 0 <= i < m.len() ==> text_lt(k, #[trigger] m[i].0),
    ensures
        entry_lookup(m, k) is None,
    decreases m.len(),
{
    if m.len() > 0 {
        lemma_text_order(k, m[0].0);
        lemma_sorted_tail(m);
        assert forall|i: int| 0 <= i < m.drop_first().len() implies text_lt(k, #[trigger] m.drop_first()[i].0) by {
            assert(m.drop_first()[i] == m[i + 1]);
        }
        lemma_lookup_below(m.drop_first(), k);
    }
}

/// Inserting into a key-ordered list keeps it ordered; what is stored
/// under `k` afterwards is `v`; other keys keep their values; and the keys
/// are the old ones and `k`.
pub proof fn lemma_insert_entry(m: EntriesView, k: Seq<char>, v: Seq<char>)
    requires
        keys_sorted(m),
    ensures
        keys_sorted(spec_insert_entry(m, k, v)),
        entry_lookup(spec_insert_entry(m, k, v), k) == Some(v),
        forall|k2: Seq<char>|
            k2 != k ==> #[trigger] entry_lookup(spec_insert_entry(m, k, v), k2) == entry_lookup(m, k2),
        forall|i: int|
            0 <= i < spec_insert_entry(m, k, v).len() ==> (#[trigger] spec_insert_entry(m, k, v)[i]).0 == k || exists|j: int|
                0 <= j < m.len() && m[j].0 == spec_insert_entry(m, k, v)[i].0,
    decreases m.len(),
{
    let r = spec_insert_entry(m, k, v);
    if m.len() == 0 {
        assert(r.drop_first() =~= Seq::<(Seq<char>, Seq<char>)>::empty());
        assert forall|k2: Seq<char>| k2 != k implies #[trigger] entry_lookup(r, k2) == entry_lookup(m, k2) by {
            assert(entry_lookup(r.drop_first(), k2) is None);
        }
    } else if m[0].0 == k {
        assert(r.drop_first() =~= m.drop_first());
        assert forall|k2: Seq<char>| k2 != k implies #[trigger] entry_lookup(r, k2) == entry_lookup(m, k2) by {
            assert(r[0].0 == k);
        }
        assert forall|i: int, j: int| 0 <= i < j < r.len() implies text_lt(#[trigger] r[i].0, #[trigger] r[j].0) by {
            assert(r[i].0 == m[i].0 && r[j].0 == m[j].0);
        }
        assert forall|i: int| 0 <= i < r.len() implies (#[trigger] r[i]).0 == k || exists|j: int|
            0 <= j < m.len() && m[j].0 == r[i].0 by {
            assert(r[i].0 == m[i].0);
        }
    } else if text_lt(k, m[0].0) {
        assert(r.drop_first() =~= m);
        assert forall|i: int, j: int| 0 <= i < j < r.len() implies text_lt(#[trigger] r[i].0, #[trigger] r[j].0) by {
            if i == 0 {
                assert(r[j] == m[j - 1]);
                if j - 1 > 0 {
                    lemma_text_trans(k, m[0].0, m[j - 1].0);
                }
            } else {
                assert(r[i] == m[i - 1] && r[j] == m[j - 1]);
            }
        }
        lemma_sorted_tail(m);
        assert forall|i: int| 0 <= i < m.len() implies text_lt(k, #[trigger] m[i].0) by {
            if i > 0 {
                assert(m.drop_first()[i - 1] == m[i]);
                lemma_text_trans(k, m[0].0, m[i].0);
            }
        }
        assert forall|k2: Seq<char>| k2 != k implies #[trigger] entry_lookup(r, k2) == entry_lookup(m, k2) by {
            assert(r[0].0 == k);
        }
        assert forall|i: int| 0 <= i < r.len() implies (#[trigger] r[i]).0 == k || exists|j: int|
            0 <= j < m.len() && m[j].0 == r[i].0 by {
            if i > 0 {
                assert(r[i] == m[i - 1]);
            }
        }
    } else {
        let t = m.drop_first();
        lemma_sorted_tail(m);
        lemma_insert_entry(t, k, v);
        let rt = spec_insert_entry(t, k, v);
        assert(r.drop_first() =~= rt);
        lemma_text_order(k, m[0].0);
        assert(text_lt(m[0].0, k));
        assert forall|i: int| 0 <= i < rt.len() implies text_lt(m[0].0, #[trigger] rt[i].0) by {
            if rt[i].0 != k {
                let j = choose|j: int| 0 <= j < t.len() && t[j].0 == rt[i].0;
                assert(t[j] == m[j + 1]);
            }
        }
        assert forall|i: int, j: int| 0 <= i < j < r.len() implies text_lt(#[trigger] r[i].0, #[trigger] r[j].0) by {
            if i == 0 {
                assert(r[j] == rt[j - 1]);
            } else {
                assert(r[i] == rt[i - 1] && r[j] == rt[j - 1]);
            }
        }
        assert forall|k2: Seq<char>| k2 != k implies #[trigger] entry_lookup(r, k2) == entry_lookup(m, k2) by {
            if m[0].0 != k2 {
                assert(entry_lookup(rt, k2) == entry_lookup(t, k2));
            }
        }
        assert forall|i: int| 0 <= i < r.len() implies (#[trigger] r[i]).0 == k || exists|j: int|
            0 <= j < m.len() && m[j].0 == r[i].0 by {
            if i == 0 {
                assert(m[0].0 == r[0].0);
            } else {
                assert(r[i] == rt[i - 1]);
                if rt[i - 1].0 != k {
                    let j = choose|j: int| 0 <= j < t.len() && t[j].0 == rt[i - 1].0;
                    assert(t[j] == m[j + 1]);
                }
            }
        }
    }
}

/// Whatever a metadata block decodes to is ordered by key, so it never
/// holds a key twice.
pub proof fn lemma_decoded_keys_sorted(b: Seq<u8>, off: int, guard: int, width: int, acc: EntriesView)
    requires
        keys_sorted(acc),
    ensures
        spec_decode_entries(b, off, guard, width, acc) matches Some(m) ==> keys_sorted(m),
    decreases b.len() - off,
{
    if !(off < 0 || off + guard > b.len() || guard < 1 || width < 1 || width > 2) {
        let key_len = b[off] as int;
        let k0 = off + 1;
        if !(key_len == 0 || k0 + key_len > b.len()) && valid_utf8(b.subrange(k0, k0 + key_len)) {
            let v0 = k0 + key_len;
            if v0 + width <= b.len() {
                let d0 = v0 + width;
                let value_len = value_len_at(b, v0, width);
                if d0 + value_len <= b.len() && valid_utf8(b.subrange(d0, d0 + value_len)) {
                    let kk = decode_utf8(b.subrange(k0, k0 + key_len));
                    let vv = decode_utf8(b.subrange(d0, d0 + value_len));
                    lemma_insert_entry(acc, kk, vv);
                    lemma_decoded_keys_sorted(b, d0 + value_len, guard, width, spec_insert_entry(acc, kk, vv));
                }
            }
        }
    }
}

/// The insertion into the entries from position `i` on, where every entry
/// before `i` has a key that sorts before `k`.
proof fn lemma_insert_step(m: EntriesView, i: int, k: Seq<char>, v: Seq<char>)
    requires
        0 <= i < m.len(),
        m[i].0 != k,
        !text_lt(k, m[i].0),
    ensures
        spec_insert_entry(m.subrange(i, m.len() as int), k, v) == seq![m[i]] + spec_insert_entry(
            m.subrange(i + 1, m.len() as int),
            k,
            v,
        ),
{
    let s = m.subrange(i, m.len() as int);
    assert(s[0] == m[i]);
    assert(s.drop_first() =~= m.subrange(i + 1, m.len() as int));
}

/// Sets `key` to `value` in entries kept in key order: the entry with
/// that key is replaced, or a new entry goes before the first greater key.
pub fn insert_entry(entries: &mut Vec<(String, String)>, key: String, value: String)
    ensures
        entries_view(final(entries)@) == spec_insert_entry(entries_view(old(entries)@), key@, value@),
{
    let ghost m = entries_view(entries@);
    let ghost k = key@;
    let ghost v = value@;
    let n = entries.len();
    let mut i: usize = 0;
    assert(m.subrange(0, n as int) =~= m);
    assert(m.subrange(0, 0) =~= Seq::<(Seq<char>, Seq<char>)>::empty());
    while i < n
        invariant
            n == entries@.len(),
            entries@ == old(entries)@,
            m == entries_view(entries@),
            k == key@,
            v == value@,
            i <= n,
            spec_insert_entry(m, k, v) == m.subrange(0, i as int) + spec_insert_entry(m.subrange(i as int, n as int), k, v),
        decreases n - i,
    {
        let here = &entries[i].0;
        if *here == key {
            let ghost rest = m.subrange(i as int, n as int);
            assert(rest[0] == m[i as int]);
            entries[i] = (key, value);
            assert(entries_view(entries@) =~= m.subrange(0, i as int) + rest.update(0, (k, v)));
            return;
        }
        if text_less(key.as_str(), here.as_str()) {
            let ghost rest = m.subrange(i as int, n as int);
            assert(rest[0] == m[i as int]);
            entries.insert(i, (key, value));
            assert(entries_view(entries@) =~= m.subrange(0, i as int) + (seq![(k, v)] + rest));
            return;
        }
        proof {
            lemma_insert_step(m, i as int, k, v);
            assert(m.subrange(0, i as int) + seq![m[i as int]] =~= m.subrange(0, i + 1));
        }
        i = i + 1;
    }
    assert(m.subrange(n as int, n as int) =~= Seq::<(Seq<char>, Seq<char>)>::empty());
    entries.push((key, value));
    assert(entries_view(entries@) =~= m.push((k, v)));
}

/// Decodes a metadata block (see the module documentation). An entry is read
/// while at least `guard` bytes remain; value lengths take `width` bytes.
pub fn decode_entries(bytes: &[u8], guard: usize, width: usize) -> (r: Result<
    Vec<(String, String)>,
    std::string::FromUtf8Error,
>)
    requires
        1 <= guard <= 2,
        1 <= width <= 2,
    ensures
        match spec_decode_entries(bytes@, 0, guard as int, width as int, Seq::empty()) {
            Some(m) => r matches Ok(v) && entries_view(v@) == m,
            None => r is Err,
        },
{
    let len = bytes.len();
    let mut entries: Vec<(String, String)> = Vec::new();
    let mut offset: usize = 0;
    assert(entries_view(entries@) =~= Seq::<(Seq<char>, Seq<char>)>::empty());
    loop
        invariant
            len == bytes@.len(),
            1 <= guard <= 2,
            1 <= width <= 2,
            offset <= len,
            spec_decode_entries(bytes@, 0, guard as int, width as int, Seq::empty())
                == spec_decode_entries(bytes@, offset as int, guard as int, width as int, entries_view(entries@)),
        decreases len - offset,
    {
        if len - offset < guard {
            return Ok(entries);
        }
        let key_len = bytes[offset] as usize;
        let k0 = offset + 1;
        if key_len == 0 || key_len > len - k0 {
            return Ok(entries);
        }
        let key_bytes = slice_to_vec(slice_subrange(bytes, k0, k0 + key_len));
        let key = match string_from_utf8(key_bytes) {
            Ok(s) => s,
            Err(e) => return Err(e),
        };
        let v0 = k0 + key_len;
        if width > len - v0 {
            return Ok(entries);
        }
        let value_len: usize = if width == 1 {
            bytes[v0] as usize
        } else {
            read_u16_at(bytes, v0) as usize
        };
        let d0 = v0 + width;
        if value_len > len - d0 {
            return Ok(entries);
        }
        let value_bytes = slice_to_vec(slice_subrange(bytes, d0, d0 + value_len));
        let value = match string_from_utf8(value_bytes) {
            Ok(s) => s,
            Err(e) => return Err(e),
        };
        insert_entry(&mut entries, key, value);
        offset = d0 + value_len;
    }
}

} // verus!
