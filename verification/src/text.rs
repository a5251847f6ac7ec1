//! Verified text utilities: character and substring search, splitting,
//! and decimal and hexadecimal numerals. The registry and interval file
//! grammars are stated over these spec functions.

use vstd::prelude::*;

verus! {

// ---------------------------------------------------------------------------
// Character search

pub open spec fn has_char(s: Seq<char>, c: char) -> bool {
    exists|i: int| 0 <= i < s.len() && s[i] == c
}

/// `i` is the first position of `c` in `s`.
pub open spec fn first_at(s: Seq<char>, c: char, i: int) -> bool {
    &&& 0 <= i < s.len()
    &&& s[i] == c
    &&& forall|j: int| 0 <= j < i ==> s[j] != c
}

/// `i` is the last position of `c` in `s`.
pub open spec fn last_at(s: Seq<char>, c: char, i: int) -> bool {
    &&& 0 <= i < s.len()
    &&& s[i] == c
    &&& forall|j: int| i < j < s.len() ==> s[j] != c
}

/// Position of the first occurrence of `c` in `s`, if any.
pub fn find_char(s: &str, c: char) -> (r: Option<usize>)
    ensures
        match r {
            Some(i) => first_at(s@, c, i as int),
            None => !has_char(s@, c),
        },
{
    let n: usize = s.unicode_len();
    let mut i: usize = 0;
    while i < n
        invariant
            i <= n,
            n == s@.len(),
            forall|j: int| 0 <= j < i ==> s@[j] != c,
        decreases n - i,
    {
        if s.get_char(i) == c {
            return Some(i);
        }
        i = i + 1;
    }
    None
}

/// Position of the last occurrence of `c` in `s`, if any.
pub fn rfind_char(s: &str, c: char) -> (r: Option<usize>)
    ensures
        match r {
            Some(i) => last_at(s@, c, i as int),
            None => !has_char(s@, c),
        },
{
    let n: usize = s.unicode_len();
    let mut i: usize = n;
    while i > 0
        invariant
            i <= n,
            n == s@.len(),
            forall|j: int| i <= j < n ==> s@[j] != c,
        decreases i,
    {
        i = i - 1;
        if s.get_char(i) == c {
            return Some(i);
        }
    }
    None
}

/// Whether the first character of `s` is `c`.
pub fn starts_with_char(s: &str, c: char) -> (r: bool)
    ensures
        r == (s@.len() > 0 && s@[0] == c),
{
    if s.unicode_len() == 0 {
        false
    } else {
        s.get_char(0) == c
    }
}

/// Whether the last character of `s` is `c`.
pub fn ends_with_char(s: &str, c: char) -> (r: bool)
    ensures
        r == (s@.len() > 0 && s@[s@.len() - 1] == c),
{
    let n: usize = s.unicode_len();
    if n == 0 {
        false
    } else {
        s.get_char(n - 1) == c
    }
}

// ---------------------------------------------------------------------------
// Substring search

/// The pattern `pat` occurs in `s` at position `i`.
pub open spec fn match_at(s: Seq<char>, pat: Seq<char>, i: int) -> bool {
    &&& 0 <= i
    &&& i + pat.len() <= s.len()
    &&& s.subrange(i, i + pat.len() as int) == pat
}

pub open spec fn has_match(s: Seq<char>, pat: Seq<char>) -> bool {
    exists|i: int| match_at(s, pat, i)
}

/// `i` is the first position where `pat` occurs in `s`.
pub open spec fn first_match_at(s: Seq<char>, pat: Seq<char>, i: int) -> bool {
    &&& match_at(s, pat, i)
    &&& forall|j: int| 0 <= j < i ==> !match_at(s, pat, j)
}

/// `i` is the last position where `pat` occurs in `s`.
pub open spec fn last_match_at(s: Seq<char>, pat: Seq<char>, i: int) -> bool {
    &&& match_at(s, pat, i)
    &&& forall|j: int| i < j <= s.len() ==> !match_at(s, pat, j)
}

/// Whether `pat` occurs in `s` starting at `i`; `i + pat len` must be in range.
fn matches_here(s: &str, n: usize, pat: &str, m: usize, i: usize) -> (r: bool)
    requires
        n == s@.len(),
        m == pat@.len(),
        i + m <= n,
    ensures
        r == match_at(s@, pat@, i as int),
{
    let mut k: usize = 0;
    while k < m
        invariant
            k <= m,
            n == s@.len(),
            m == pat@.len(),
            i + m <= n,
            forall|l: int| 0 <= l < k ==> s@[i + l] == pat@[l],
        decreases m - k,
    {
        if s.get_char(i + k) != pat.get_char(k) {
            proof {
                assert(s@.subrange(i as int, i + m) != pat@) by {
                    assert(s@.subrange(i as int, i + m)[k as int] == s@[i + k]);
                }
            }
            return false;
        }
        k = k + 1;
    }
    proof {
        assert(s@.subrange(i as int, i + m) =~= pat@);
    }
    true
}

/// Position of the first occurrence of `pat` in `s`, if any.
pub fn find_sub(s: &str, pat: &str) -> (r: Option<usize>)
    ensures
        match r {
            Some(i) => first_match_at(s@, pat@, i as int),
            None => !has_match(s@, pat@),
        },
{
    let n: usize = s.unicode_len();
    let m: usize = pat.unicode_len();
    if m > n {
        return None;
    }
    if m == 0 {
        proof {
            assert(s@.subrange(0, 0) =~= pat@);
        }
        return Some(0);
    }
    let mut i: usize = 0;
    while i <= n - m
        invariant
            1 <= m <= n,
            i <= n - m + 1,
            n == s@.len(),
            m == pat@.len(),
            forall|j: int| 0 <= j < i ==> !match_at(s@, pat@, j),
        decreases n - m + 1 - i,
    {
        if matches_here(s, n, pat, m, i) {
            return Some(i);
        }
        i = i + 1;
    }
    None
}

/// Position of the last occurrence of `pat` in `s`, if any.
pub fn rfind_sub(s: &str, pat: &str) -> (r: Option<usize>)
    ensures
        match r {
            Some(i) => last_match_at(s@, pat@, i as int),
            None => !has_match(s@, pat@),
        },
{
    let n: usize = s.unicode_len();
    let m: usize = pat.unicode_len();
    if m > n {
        return None;
    }
    if m == 0 {
        proof {
            assert(s@.subrange(n as int, n as int) =~= pat@);
        }
        return Some(n);
    }
    let mut i: usize = n - m + 1;
    while i > 0
        invariant
            1 <= m <= n,
            i <= n - m + 1,
            n == s@.len(),
            m == pat@.len(),
            forall|j: int| i <= j <= n ==> !match_at(s@, pat@, j),
        decreases i,
    {
        i = i - 1;
        if matches_here(s, n, pat, m, i) {
            return Some(i);
        }
    }
    None
}

// ---------------------------------------------------------------------------
// Splitting on a separator character

/// The parts of `s` between occurrences of `sep`, in order; a string with
/// `k` separators has `k + 1` parts, and empty parts are kept.
pub open spec fn split_on(s: Seq<char>, sep: char) -> Seq<Seq<char>>
    decreases s.len(),
{
    if s.len() == 0 {
        seq![Seq::<char>::empty()]
    } else if s[0] == sep {
        seq![Seq::<char>::empty()] + split_on(s.drop_first(), sep)
    } else {
        let rest = split_on(s.drop_first(), sep);
        seq![seq![s[0]] + rest[0]] + rest.drop_first()
    }
}

pub proof fn lemma_split_on_len(s: Seq<char>, sep: char)
    ensures
        split_on(s, sep).len() >= 1,
    decreases s.len(),
{
    if s.len() != 0 {
        lemma_split_on_len(s.drop_first(), sep);
    }
}

/// A string without the separator is one single part.
pub proof fn lemma_split_on_none(s: Seq<char>, sep: char)
    requires
        forall|j: int| 0 <= j < s.len() ==> s[j] != sep,
    ensures
        split_on(s, sep) =~~= seq![s],
    decreases s.len(),
{
    if s.len() != 0 {
        lemma_split_on_none(s.drop_first(), sep);
        assert(seq![s[0]] + s.drop_first() =~= s);
    }
}

/// Splitting at the first separator: the part before it, then the split
/// of what follows it.
pub proof fn lemma_split_on_first(s: Seq<char>, sep: char, i: int)
    requires
        first_at(s, sep, i),
    ensures
        split_on(s, sep) =~~= seq![s.take(i)] + split_on(s.skip(i + 1), sep),
    decreases i,
{
    lemma_split_on_len(s.skip(i + 1), sep);
    if i == 0 {
        assert(s.drop_first() =~= s.skip(1));
        assert(s.take(0) =~= Seq::<char>::empty());
    } else {
        let t = s.drop_first();
        assert(first_at(t, sep, i - 1)) by {
            assert(forall|j: int| 0 <= j < i - 1 ==> t[j] == s[j + 1]);
        }
        lemma_split_on_first(t, sep, i - 1);
        lemma_split_on_len(t.skip(i), sep);
        assert(seq![s[0]] + t.take(i - 1) =~= s.take(i));
        assert(t.skip(i) =~= s.skip(i + 1));
    }
}

/// The parts of `s` around the occurrences of `sep`, as owned strings.
pub fn split_str(s: &str, sep: char) -> (parts: Vec<String>)
    ensures
        parts.deep_view() == split_on(s@, sep),
{
    let n: usize = s.unicode_len();
    let mut parts: Vec<String> = Vec::new();
    let mut q: usize = 0;
    let mut p: usize = 0;
    proof {
        assert(s@.skip(0) =~= s@);
        assert(parts.deep_view() + split_on(s@, sep) =~~= split_on(s@, sep));
    }
    while p < n
        invariant
            q <= p <= n,
            n == s@.len(),
            forall|j: int| q <= j < p ==> s@[j] != sep,
            split_on(s@, sep) == parts.deep_view() + split_on(s@.skip(q as int), sep),
        decreases n - p,
    {
        if s.get_char(p) == sep {
            let part = s.substring_char(q, p).to_owned();
            proof {
                let tail = s@.skip(q as int);
                assert(first_at(tail, sep, p - q)) by {
                    assert(forall|j: int| 0 <= j < p - q ==> tail[j] == s@[q + j]);
                }
                lemma_split_on_first(tail, sep, p - q);
                assert(tail.take(p - q) =~= s@.subrange(q as int, p as int));
                assert(tail.skip(p - q + 1) =~= s@.skip(p + 1));
            }
            let ghost prev = parts.deep_view();
            parts.push(part);
            proof {
                assert(parts.deep_view() =~~= prev.push(part@));
                assert(prev.push(part@) + split_on(s@.skip(p + 1), sep) =~~= prev + split_on(s@.skip(q as int), sep));
            }
            q = p + 1;
        }
        p = p + 1;
    }
    let last = s.substring_char(q, n).to_owned();
    proof {
        let tail = s@.skip(q as int);
        lemma_split_on_none(tail, sep);
        assert(tail =~= s@.subrange(q as int, n as int));
    }
    let ghost prev = parts.deep_view();
    parts.push(last);
    proof {
        assert(parts.deep_view() =~~= prev.push(s@.subrange(q as int, n as int)));
        assert(prev.push(s@.subrange(q as int, n as int)) =~~= prev + seq![s@.subrange(q as int, n as int)]);
    }
    parts
}

// ---------------------------------------------------------------------------
// Decimal numerals

pub open spec fn is_digit(c: char) -> bool {
    '0' <= c && c <= '9'
}

pub open spec fn digit_val(c: char) -> int {
    (c as u32) - 48
}

pub open spec fn all_digits(s: Seq<char>) -> bool {
    forall|i: int| 0 <= i < s.len() ==> is_digit(s[i])
}

/// Value of `s` read as a decimal numeral.
pub open spec fn dec_val(s: Seq<char>) -> int
    decreases s.len(),
{
    if s.len() == 0 {
        0
    } else {
        dec_val(s.drop_last()) * 10 + digit_val(s.last())
    }
}

/// The number a non-empty, all-digit string denotes, when it fits in `u32`.
pub open spec fn dec_u32(s: Seq<char>) -> Option<u32> {
    if s.len() > 0 && all_digits(s) && 0 <= dec_val(s) <= u32::MAX {
        Some(dec_val(s) as u32)
    } else {
        None
    }
}

pub proof fn lemma_dec_val_nonneg(s: Seq<char>)
    requires
        all_digits(s),
    ensures
        dec_val(s) >= 0,
    decreases s.len(),
{
    if s.len() > 0 {
        assert(all_digits(s.drop_last()));
        lemma_dec_val_nonneg(s.drop_last());
    }
}

/// A longer all-digit prefix denotes at least as large a number.
proof fn lemma_dec_val_mono(s: Seq<char>, i: int)
    requires
        all_digits(s),
        0 <= i <= s.len(),
    ensures
        dec_val(s.take(i)) <= dec_val(s),
    decreases s.len() - i,
{
    if i < s.len() {
        assert(all_digits(s.take(i + 1)));
        assert(s.take(i + 1).drop_last() =~= s.take(i));
        lemma_dec_val_nonneg(s.take(i));
        lemma_dec_val_mono(s, i + 1);
    } else {
        assert(s.take(i) =~= s);
    }
}

/// Parse a whole string as a decimal `u32`.
pub fn parse_u32_dec(s: &str) -> (r: Option<u32>)
    ensures
        r == dec_u32(s@),
{
    let n: usize = s.unicode_len();
    if n == 0 {
        return None;
    }
    let mut acc: u32 = 0;
    let mut i: usize = 0;
    while i < n
        invariant
            i <= n,
            n == s@.len(),
            all_digits(s@.take(i as int)),
            acc == dec_val(s@.take(i as int)),
        decreases n - i,
    {
        let c = s.get_char(i);
        if !(c >= '0' && c <= '9') {
            assert(!all_digits(s@));
            return None;
        }
        let d: u32 = (c as u32) - 48;
        let wide: u64 = acc as u64 * 10 + d as u64;
        proof {
            assert(s@.take(i + 1).drop_last() =~= s@.take(i as int));
            assert(all_digits(s@.take(i + 1)));
        }
        if wide > 0xFFFF_FFFF {
            proof {
                if all_digits(s@) {
                    lemma_dec_val_mono(s@, i + 1);
                }
            }
            return None;
        }
        acc = wide as u32;
        i = i + 1;
    }
    proof {
        assert(s@.take(n as int) =~= s@);
    }
    Some(acc)
}

// ---------------------------------------------------------------------------
// Hexadecimal numerals

pub open spec fn is_hex_digit(c: char) -> bool {
    is_digit(c) || ('a' <= c && c <= 'f') || ('A' <= c && c <= 'F')
}

pub open spec fn hex_digit_val(c: char) -> int {
    if is_digit(c) {
        (c as u32) - 48
    } else if 'a' <= c && c <= 'f' {
        (c as u32) - 87
    } else {
        (c as u32) - 55
    }
}

pub open spec fn all_hex_digits(s: Seq<char>) -> bool {
    forall|i: int| 0 <= i < s.len() ==> is_hex_digit(s[i])
}

/// Value of `s` read as a hexadecimal numeral.
pub open spec fn hex_val(s: Seq<char>) -> int
    decreases s.len(),
{
    if s.len() == 0 {
        0
    } else {
        hex_val(s.drop_last()) * 16 + hex_digit_val(s.last())
    }
}

/// The number an address group of one to four hexadecimal digits denotes.
pub open spec fn hex_group16(s: Seq<char>) -> Option<u16> {
    if 1 <= s.len() <= 4 && all_hex_digits(s) && 0 <= hex_val(s) < 0x1_0000 {
        Some(hex_val(s) as u16)
    } else {
        None
    }
}

pub proof fn lemma_hex_val_bound(s: Seq<char>)
    requires
        all_hex_digits(s),
        s.len() <= 4,
    ensures
        0 <= hex_val(s),
        hex_val(s) < if s.len() == 0 { 1int } else if s.len() == 1 { 16int }
            else if s.len() == 2 { 256int } else if s.len() == 3 { 4096int } else { 65536int },
    decreases s.len(),
{
    if s.len() > 0 {
        assert(all_hex_digits(s.drop_last()));
        lemma_hex_val_bound(s.drop_last());
    }
}

/// Parse a whole string as an address group of at most four hex digits.
pub fn parse_hex16(s: &str) -> (r: Option<u16>)
    ensures
        r == hex_group16(s@),
{
    let n: usize = s.unicode_len();
    if n == 0 || n > 4 {
        return None;
    }
    let mut acc: u32 = 0;
    let mut i: usize = 0;
    while i < n
        invariant
            i <= n,
            1 <= n <= 4,
            n == s@.len(),
            all_hex_digits(s@.take(i as int)),
            acc == hex_val(s@.take(i as int)),
            acc < 0x1_0000,
        decreases n - i,
    {
        let c = s.get_char(i);
        let d: u32 = if c >= '0' && c <= '9' {
            (c as u32) - 48
        } else if c >= 'a' && c <= 'f' {
            (c as u32) - 87
        } else if c >= 'A' && c <= 'F' {
            (c as u32) - 55
        } else {
            assert(!all_hex_digits(s@));
            return None;
        };
        proof {
            assert(s@.take(i + 1).drop_last() =~= s@.take(i as int));
            assert(all_hex_digits(s@.take(i + 1)));
            lemma_hex_val_bound(s@.take(i + 1));
        }
        acc = acc * 16 + d;
        i = i + 1;
    }
    proof {
        assert(s@.take(n as int) =~= s@);
        lemma_hex_val_bound(s@);
    }
    Some(acc as u16)
}

// ---------------------------------------------------------------------------
// Trailing characters

/// `s` with every trailing `c` removed.
pub open spec fn strip_trailing(s: Seq<char>, c: char) -> Seq<char>
    decreases s.len(),
{
    if s.len() > 0 && s.last() == c {
        strip_trailing(s.drop_last(), c)
    } else {
        s
    }
}

/// Remove every trailing `c` from `s`.
pub fn strip_trailing_chars(s: &str, c: char) -> (r: String)
    ensures
        r@ == strip_trailing(s@, c),
{
    let n: usize = s.unicode_len();
    let mut k: usize = n;
    proof {
        assert(s@.take(n as int) =~= s@);
    }
    while k > 0 && s.get_char(k - 1) == c
        invariant
            k <= n,
            n == s@.len(),
            strip_trailing(s@, c) == strip_trailing(s@.take(k as int), c),
        decreases k,
    {
        proof {
            assert(s@.take(k as int).drop_last() =~= s@.take(k - 1));
        }
        k = k - 1;
    }
    s.substring_char(0, k).to_owned()
}

// ---------------------------------------------------------------------------
// Occurrence indexes

/// Index of the first occurrence of `c` in `s` (meaningful when one exists).
pub open spec fn first_at_idx(s: Seq<char>, c: char) -> int {
    choose|i: int| first_at(s, c, i)
}

/// Index of the last occurrence of `c` in `s` (meaningful when one exists).
pub open spec fn last_at_idx(s: Seq<char>, c: char) -> int {
    choose|i: int| last_at(s, c, i)
}

/// Index of the first occurrence of `pat` in `s` (meaningful when one exists).
pub open spec fn first_match_idx(s: Seq<char>, pat: Seq<char>) -> int {
    choose|i: int| first_match_at(s, pat, i)
}

/// Index of the last occurrence of `pat` in `s` (meaningful when one exists).
pub open spec fn last_match_idx(s: Seq<char>, pat: Seq<char>) -> int {
    choose|i: int| last_match_at(s, pat, i)
}

pub proof fn lemma_first_at_unique(s: Seq<char>, c: char, i: int, j: int)
    requires
        first_at(s, c, i),
        first_at(s, c, j),
    ensures
        i == j,
{
}

pub proof fn lemma_last_at_unique(s: Seq<char>, c: char, i: int, j: int)
    requires
        last_at(s, c, i),
        last_at(s, c, j),
    ensures
        i == j,
{
}

pub proof fn lemma_first_match_unique(s: Seq<char>, pat: Seq<char>, i: int, j: int)
    requires
        first_match_at(s, pat, i),
        first_match_at(s, pat, j),
    ensures
        i == j,
{
}

pub proof fn lemma_last_match_unique(s: Seq<char>, pat: Seq<char>, i: int, j: int)
    requires
        last_match_at(s, pat, i),
        last_match_at(s, pat, j),
    ensures
        i == j,
{
}


} // verus!
