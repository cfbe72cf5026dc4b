//! Splitting and integer parsing on character sequences, as `str::split`,
//! `strip_suffix`, `strip_prefix` and integer `parse` behave.

use vstd::prelude::*;

verus! {

/// The characters of `s`.
pub fn chars_of(s: &str) -> (v: Vec<char>)
    ensures
        v@ == s@,
{
    let n = s.unicode_len();
    let mut v: Vec<char> = Vec::new();
    let mut i: usize = 0;
    while i < n
        invariant
            n == s@.len(),
            i <= n,
            v@ == s@.subrange(0, i as int),
        decreases n - i,
    {
        v.push(s.get_char(i));
        i = i + 1;
        assert(v@ =~= s@.subrange(0, i as int));
    }
    assert(s@.subrange(0, n as int) =~= s@);
    v
}

/// The string made of `chars`.
pub fn string_of(chars: &[char]) -> (s: String)
    ensures
        s@ == chars@,
{
    let mut s = String::new();
    let mut i: usize = 0;
    while i < chars.len()
        invariant
            i <= chars@.len(),
            s@ == chars@.subrange(0, i as int),
        decreases chars@.len() - i,
    {
        s.push(chars[i]);
        i = i + 1;
        assert(s@ =~= chars@.subrange(0, i as int));
    }
    assert(chars@.subrange(0, chars@.len() as int) =~= chars@);
    s
}

/// The pieces of `s` between occurrences of `sep`, empty pieces included:
/// `n` separators give `n + 1` pieces.
pub open spec fn spec_split(s: Seq<char>, sep: char) -> Seq<Seq<char>>
    decreases s.len(),
{
    if s.len() == 0 {
        seq![Seq::empty()]
    } else {
        let rest = spec_split(s.drop_last(), sep);
        if s.last() == sep {
            rest.push(Seq::empty())
        } else {
            rest.update(rest.len() - 1, rest.last().push(s.last()))
        }
    }
}

proof fn lemma_split_nonempty(s: Seq<char>, sep: char)
    ensures
        spec_split(s, sep).len() >= 1,
    decreases s.len(),
{
    if s.len() > 0 {
        lemma_split_nonempty(s.drop_last(), sep);
    }
}

/// The character sequences held by `v`.
pub open spec fn pieces_view(v: Seq<Vec<char>>) -> Seq<Seq<char>> {
    v.map_values(|x: Vec<char>| x@)
}

/// Split `s` at every `sep`.
pub fn split_chars(s: &[char], sep: char) -> (v: Vec<Vec<char>>)
    ensures
        pieces_view(v@) == spec_split(s@, sep),
{
    let mut v: Vec<Vec<char>> = Vec::new();
    v.push(Vec::new());
    let mut i: usize = 0;
    assert(s@.subrange(0, 0) =~= Seq::<char>::empty());
    assert(pieces_view(v@) =~= spec_split(s@.subrange(0, 0), sep));
    while i < s.len()
        invariant
            i <= s@.len(),
            pieces_view(v@) == spec_split(s@.subrange(0, i as int), sep),
            v@.len() >= 1,
        decreases s@.len() - i,
    {
        let c = s[i];
        let ghost prev = pieces_view(v@);
        proof {
            assert(s@.subrange(0, i + 1).drop_last() =~= s@.subrange(0, i as int));
            lemma_split_nonempty(s@.subrange(0, i as int), sep);
        }
        if c == sep {
            v.push(Vec::new());
            assert(pieces_view(v@) =~= prev.push(Seq::empty()));
        } else {
            let last = v.len() - 1;
            let mut piece = v.pop().unwrap();
            piece.push(c);
            v.push(piece);
            assert(pieces_view(v@) =~= prev.update(prev.len() - 1, prev.last().push(c)));
        }
        i = i + 1;
    }
    assert(s@.subrange(0, s@.len() as int) =~= s@);
    v
}

/// `s` without the suffix `suf`, if it ends with it.
pub open spec fn spec_strip_suffix(s: Seq<char>, suf: Seq<char>) -> Option<Seq<char>> {
    if suf.len() <= s.len() && s.subrange(s.len() - suf.len(), s.len() as int) == suf {
        Some(s.subrange(0, s.len() - suf.len()))
    } else {
        None
    }
}

/// `s` without the prefix `pre`, if it starts with it.
pub open spec fn spec_strip_prefix(s: Seq<char>, pre: Seq<char>) -> Option<Seq<char>> {
    if pre.len() <= s.len() && s.subrange(0, pre.len() as int) == pre {
        Some(s.subrange(pre.len() as int, s.len() as int))
    } else {
        None
    }
}

/// `s` without the suffix `suf`, if it ends with it.
pub fn strip_suffix(s: &[char], suf: &[char]) -> (r: Option<Vec<char>>)
    ensures
        match spec_strip_suffix(s@, suf@) {
            Some(t) => r matches Some(v) && v@ == t,
            None => r is None,
        },
{
    let n = s.len();
    let m = suf.len();
    if m > n {
        return None;
    }
    let mut i: usize = 0;
    while i < m
        invariant
            n == s@.len(),
            m == suf@.len(),
            m <= n,
            i <= m,
            forall|k: int| 0 <= k < i ==> s@[n - m + k] == suf@[k],
        decreases m - i,
    {
        if s[n - m + i] != suf[i] {
            assert(s@.subrange(n - m, n as int)[i as int] != suf@[i as int]);
            return None;
        }
        i = i + 1;
    }
    assert(s@.subrange(n - m, n as int) =~= suf@);
    let mut v: Vec<char> = Vec::new();
    let mut j: usize = 0;
    while j < n - m
        invariant
            n == s@.len(),
            m <= n,
            j <= n - m,
            v@ == s@.subrange(0, j as int),
        decreases n - m - j,
    {
        v.push(s[j]);
        j = j + 1;
        assert(v@ =~= s@.subrange(0, j as int));
    }
    Some(v)
}

/// `s` without the prefix `pre`, if it starts with it.
pub fn strip_prefix(s: &[char], pre: &[char]) -> (r: Option<Vec<char>>)
    ensures
        match spec_strip_prefix(s@, pre@) {
            Some(t) => r matches Some(v) && v@ == t,
            None => r is None,
        },
{
    let n = s.len();
    let m = pre.len();
    if m > n {
        return None;
    }
    let mut i: usize = 0;
    while i < m
        invariant
            n == s@.len(),
            m == pre@.len(),
            m <= n,
            i <= m,
            forall|k: int| 0 <= k < i ==> s@[k] == pre@[k],
        decreases m - i,
    {
        if s[i] != pre[i] {
            assert(s@.subrange(0, m as int)[i as int] != pre@[i as int]);
            return None;
        }
        i = i + 1;
    }
    assert(s@.subrange(0, m as int) =~= pre@);
    let mut v: Vec<char> = Vec::new();
    let mut j: usize = m;
    while j < n
        invariant
            n == s@.len(),
            m <= j <= n,
            v@ == s@.subrange(m as int, j as int),
        decreases n - j,
    {
        v.push(s[j]);
        j = j + 1;
        assert(v@ =~= s@.subrange(m as int, j as int));
    }
    Some(v)
}

/// `c` is an ASCII decimal digit.
pub open spec fn is_digit(c: char) -> bool {
    '0' <= c <= '9'
}

/// The value of a run of decimal digits.
pub open spec fn digits_value(d: Seq<char>) -> nat
    decreases d.len(),
{
    if d.len() == 0 {
        0
    } else {
        digits_value(d.drop_last()) * 10 + ((d.last() as int - '0' as int) as nat)
    }
}

/// All characters are decimal digits, and there is at least one.
pub open spec fn all_digits(d: Seq<char>) -> bool {
    d.len() > 0 && forall|i: int| 0 <= i < d.len() ==> is_digit(#[trigger] d[i])
}

/// The value that an unsigned integer `parse` reads from `s`: an optional
/// `+`, then decimal digits; `None` when the text is not of that form. The
/// value is not bounded here.
pub open spec fn spec_parse_unsigned(s: Seq<char>) -> Option<nat> {
    let d = if s.len() > 0 && s[0] == '+' {
        s.drop_first()
    } else {
        s
    };
    if all_digits(d) {
        Some(digits_value(d))
    } else {
        None
    }
}

/// The value that a signed integer `parse` reads from `s`: an optional `+`
/// or `-`, then decimal digits. The value is not bounded here.
pub open spec fn spec_parse_signed(s: Seq<char>) -> Option<int> {
    if s.len() > 0 && s[0] == '-' {
        let d = s.drop_first();
        if all_digits(d) {
            Some(-digits_value(d))
        } else {
            None
        }
    } else {
        match spec_parse_unsigned(s) {
            Some(v) => Some(v as int),
            None => None,
        }
    }
}

proof fn lemma_digits_step(d: Seq<char>, i: int)
    requires
        0 <= i < d.len(),
    ensures
        is_digit(d[i]) ==> digits_value(d.subrange(0, i + 1)) == digits_value(d.subrange(0, i)) * 10 + (d[i] as int
            - '0' as int),
        digits_value(d.subrange(0, i)) <= digits_value(d.subrange(0, i + 1)),
{
    assert(d.subrange(0, i + 1).drop_last() =~= d.subrange(0, i));
}

proof fn lemma_digits_monotone(d: Seq<char>, i: int)
    requires
        0 <= i <= d.len(),
    ensures
        digits_value(d.subrange(0, i)) <= digits_value(d),
    decreases d.len() - i,
{
    if i < d.len() {
        lemma_digits_step(d, i);
        lemma_digits_monotone(d, i + 1);
    } else {
        assert(d.subrange(0, i) =~= d);
    }
}

/// The value of `d` if it is a nonempty run of digits whose value is at most
/// `max`; otherwise `None`.
fn digits_up_to(d: &[char], start: usize, max: u64) -> (r: Option<u64>)
    requires
        start <= d@.len(),
        max >= 9,
    ensures
        all_digits(d@.subrange(start as int, d@.len() as int)) && digits_value(
            d@.subrange(start as int, d@.len() as int),
        ) <= max ==> r == Some(digits_value(d@.subrange(start as int, d@.len() as int)) as u64),
        !(all_digits(d@.subrange(start as int, d@.len() as int)) && digits_value(
            d@.subrange(start as int, d@.len() as int),
        ) <= max) ==> r is None,
{
    let ghost t = d@.subrange(start as int, d@.len() as int);
    let n = d.len();
    if start >= n {
        return None;
    }
    let mut value: u64 = 0;
    let mut i: usize = start;
    while i < n
        invariant
            n == d@.len(),
            start < n,
            start <= i <= n,
            t == d@.subrange(start as int, n as int),
            forall|k: int| 0 <= k < i - start ==> is_digit(#[trigger] t[k]),
            value == digits_value(t.subrange(0, i - start)),
            value <= max,
            max >= 9,
        decreases n - i,
    {
        let c = d[i];
        assert(c == t[i - start]);
        if !('0' <= c && c <= '9') {
            return None;
        }
        let digit = (c as u32 - '0' as u32) as u64;
        proof {
            lemma_digits_step(t, i - start);
            lemma_digits_monotone(t, i - start + 1);
        }
        if value > (max - digit) / 10 {
            assert(value * 10 + digit > max) by (nonlinear_arith)
                requires
                    value > (max - digit) / 10,
                    digit <= 9,
                    digit <= max || true,
            ;
            return None;
        }
        assert(value * 10 + digit <= max) by (nonlinear_arith)
            requires
                value <= (max - digit) / 10,
                digit <= max,
        ;
        value = value * 10 + digit;
        i = i + 1;
    }
    assert(t.subrange(0, n - start) =~= t);
    Some(value)
}

/// Parse an unsigned integer (an optional `+`, then decimal digits) no
/// larger than `max`.
pub fn parse_unsigned(s: &[char], max: u64) -> (r: Option<u64>)
    requires
        max >= 9,
    ensures
        match spec_parse_unsigned(s@) {
            Some(v) => if v <= max {
                r == Some(v as u64)
            } else {
                r is None
            },
            None => r is None,
        },
{
    let start: usize = if s.len() > 0 && s[0] == '+' {
        1
    } else {
        0
    };
    assert(s@.subrange(start as int, s@.len() as int) =~= if s@.len() > 0 && s@[0] == '+' {
        s@.drop_first()
    } else {
        s@
    });
    digits_up_to(s, start, max)
}

/// Parse a `u64` as `str::parse` does.
pub fn parse_u64(s: &[char]) -> (r: Option<u64>)
    ensures
        match spec_parse_unsigned(s@) {
            Some(v) => if v <= u64::MAX {
                r == Some(v as u64)
            } else {
                r is None
            },
            None => r is None,
        },
{
    parse_unsigned(s, u64::MAX)
}

/// Parse a `u32` as `str::parse` does.
pub fn parse_u32(s: &[char]) -> (r: Option<u32>)
    ensures
        match spec_parse_unsigned(s@) {
            Some(v) => if v <= u32::MAX {
                r == Some(v as u32)
            } else {
                r is None
            },
            None => r is None,
        },
{
    match parse_unsigned(s, u32::MAX as u64) {
        Some(v) => Some(v as u32),
        None => None,
    }
}

/// Parse an `i32` as `str::parse` does.
pub fn parse_i32(s: &[char]) -> (r: Option<i32>)
    ensures
        match spec_parse_signed(s@) {
            Some(v) => if i32::MIN <= v <= i32::MAX {
                r == Some(v as i32)
            } else {
                r is None
            },
            None => r is None,
        },
{
    if s.len() > 0 && s[0] == '-' {
        assert(s@.subrange(1, s@.len() as int) =~= s@.drop_first());
        match digits_up_to(s, 1, 2147483648) {
            Some(v) => Some((0 - (v as i64)) as i32),
            None => None,
        }
    } else {
        match parse_unsigned(s, 2147483647) {
            Some(v) => Some(v as i32),
            None => None,
        }
    }
}

} // verus!
