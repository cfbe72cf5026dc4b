//! Decimal rendering of integers.

use vstd::prelude::*;

verus! {

/// `String::push`. Claimed: the character is appended at the end.
pub assume_specification[ String::push ](s: &mut String, ch: char)
    ensures
        final(s)@ == old(s)@.push(ch),
;

/// The ASCII digit for `d` (0..=9).
pub open spec fn digit_char(d: nat) -> char {
    ((48 + d) as u8) as char
}

/// Decimal representation of `n`, without leading zeros.
pub open spec fn spec_decimal(n: nat) -> Seq<char>
    decreases n,
{
    if n < 10 {
        seq![digit_char(n)]
    } else {
        spec_decimal(n / 10).push(digit_char(n % 10))
    }
}

/// The last `width` decimal digits of `n`, padded with leading zeros.
pub open spec fn spec_padded(n: nat, width: nat) -> Seq<char>
    decreases width,
{
    if width == 0 {
        Seq::empty()
    } else {
        spec_padded(n / 10, (width - 1) as nat).push(digit_char(n % 10))
    }
}

/// Decimal representation of `n` with a comma between groups of three
/// digits, counted from the right.
pub open spec fn spec_grouped_decimal(n: nat) -> Seq<char>
    decreases n,
{
    if n < 1000 {
        spec_decimal(n)
    } else {
        spec_grouped_decimal(n / 1000).push(',') + spec_padded(n % 1000, 3)
    }
}

fn digit(d: u64) -> (c: char)
    requires
        d < 10,
    ensures
        c == digit_char(d as nat),
{
    ((d as u8) + 48) as char
}

/// Appends the decimal representation of `n`.
pub fn push_decimal(s: &mut String, n: u64)
    ensures
        final(s)@ == old(s)@ + spec_decimal(n as nat),
    decreases n,
{
    if n >= 10 {
        push_decimal(s, n / 10);
    }
    s.push(digit(n % 10));
    assert(spec_decimal(n as nat) == if n < 10 {
        seq![digit_char(n as nat)]
    } else {
        spec_decimal((n / 10) as nat).push(digit_char((n % 10) as nat))
    });
    assert(final(s)@ =~= old(s)@ + spec_decimal(n as nat)) by {
        if n < 10 {
            assert(seq![digit_char(n as nat)] =~= Seq::<char>::empty().push(digit_char(n as nat)));
        }
    }
}

/// Appends the last `width` decimal digits of `n`, zero-padded.
pub fn push_padded(s: &mut String, n: u64, width: u64)
    ensures
        final(s)@ == old(s)@ + spec_padded(n as nat, width as nat),
    decreases width,
{
    if width > 0 {
        push_padded(s, n / 10, width - 1);
        s.push(digit(n % 10));
        assert(final(s)@ =~= old(s)@ + spec_padded(n as nat, width as nat));
    } else {
        assert(final(s)@ =~= old(s)@ + spec_padded(n as nat, width as nat));
    }
}

/// Appends `n` in decimal with thousands separators.
pub fn push_grouped_decimal(s: &mut String, n: u64)
    ensures
        final(s)@ == old(s)@ + spec_grouped_decimal(n as nat),
    decreases n,
{
    if n < 1000 {
        push_decimal(s, n);
    } else {
        push_grouped_decimal(s, n / 1000);
        s.push(',');
        push_padded(s, n % 1000, 3);
        assert(final(s)@ =~= old(s)@ + spec_grouped_decimal(n as nat));
    }
}

/// The decimal representation of `n`.
pub fn decimal_string(n: u64) -> (s: String)
    ensures
        s@ == spec_decimal(n as nat),
{
    let mut s = String::new();
    push_decimal(&mut s, n);
    assert(s@ =~= spec_decimal(n as nat));
    s
}

/// Format a number with thousands separators ("1,234,567").
pub fn format_number(n: u64) -> (s: String)
    ensures
        s@ == spec_grouped_decimal(n as nat),
{
    let mut s = String::new();
    push_grouped_decimal(&mut s, n);
    assert(s@ =~= spec_grouped_decimal(n as nat));
    s
}

/// A nanosecond timestamp as seconds with a nine-digit fraction
/// ("1234.000000001").
pub fn format_timestamp(ns: u64) -> (s: String)
    ensures
        s@ == spec_decimal((ns / 1_000_000_000) as nat).push('.') + spec_padded(
            (ns % 1_000_000_000) as nat,
            9,
        ),
{
    let mut s = String::new();
    push_decimal(&mut s, ns / 1_000_000_000);
    s.push('.');
    push_padded(&mut s, ns % 1_000_000_000, 9);
    assert(s@ =~= spec_decimal((ns / 1_000_000_000) as nat).push('.') + spec_padded(
        (ns % 1_000_000_000) as nat,
        9,
    ));
    s
}

} // verus!
