//! Line and column arithmetic over UTF-8 text, used to locate parsed values and errors.
//!
//! Lines and columns are 1-based; a column counts characters, not bytes.

use vstd::prelude::*;
use crate::text::{
    sub_chars, spec_byte_offset, spec_byte_len, spec_utf8_width, utf8_width, chars_of, byte_len,
    lemma_byte_offset_monotone, lemma_byte_len_is_encoding_len,
};

verus! {

/// `true` when `bytes` holds no newline byte.
pub open spec fn spec_is_single_line(bytes: Seq<u8>) -> bool {
    !bytes.contains(10u8)
}

/// 1-based line and column reached after the first `k` characters of `s`: a newline starts the
/// next line at column 1, any other character moves one column right.
pub open spec fn spec_line_col(s: Seq<char>, k: int) -> (nat, nat)
    decreases k,
{
    if k <= 0 || k > s.len() {
        (1, 1)
    } else {
        let prev = spec_line_col(s, k - 1);
        if s[k - 1] == '\n' {
            (prev.0 + 1, 1)
        } else {
            (prev.0, prev.1 + 1)
        }
    }
}

/// The first character index at or after `k` whose byte offset in `s` is at least `off`, or the
/// length of `s` when every later character starts before `off`.
pub open spec fn spec_scan_to(s: Seq<char>, off: int, k: int) -> int
    decreases s.len() - k,
{
    if k < 0 || k >= s.len() || spec_byte_offset(s, k) >= off {
        k
    } else {
        spec_scan_to(s, off, k + 1)
    }
}

/// Number of characters of `s` that start before byte offset `off`.
pub open spec fn spec_chars_before(s: Seq<char>, off: int) -> int {
    spec_scan_to(s, off, 0)
}

/// Line and column of byte offset `off` in `s` (an offset past the end stops at the end).
pub open spec fn spec_line_column(s: Seq<char>, off: int) -> (nat, nat) {
    spec_line_col(s, spec_chars_before(s, off))
}

/// Number of characters of `s` that start in the byte range `[start, end)`, with `end` clamped to
/// the length of `s`.
pub open spec fn spec_char_count(s: Seq<char>, start: int, end: int) -> int {
    let end = if end < spec_byte_len(s) { end } else { spec_byte_len(s) as int };
    if start >= end {
        0
    } else {
        spec_chars_before(s, end) - spec_chars_before(s, start)
    }
}

/// `true` when `off` is the byte offset at which some character of `s` starts, or the end of `s`.
pub open spec fn spec_is_char_boundary(s: Seq<char>, off: int) -> bool {
    exists|k: int| 0 <= k <= s.len() && #[trigger] spec_byte_offset(s, k) == off
}

/// The column of the first position of `s`, from character `k` on, that lies on line `line` at or
/// after byte offset `off`; past the end, the column of the end when it is on `line`, else 1.
pub open spec fn spec_column_on_line(s: Seq<char>, line: int, off: int, k: int) -> nat
    decreases s.len() - k,
{
    if k < 0 || k >= s.len() {
        if spec_line_col(s, s.len() as int).0 == line {
            spec_line_col(s, s.len() as int).1
        } else {
            1
        }
    } else if spec_line_col(s, k).0 == line && spec_byte_offset(s, k) >= off {
        spec_line_col(s, k).1
    } else {
        spec_column_on_line(s, line, off, k + 1)
    }
}

/// Whether `bytes` contain no newline (a single-line document).
pub fn is_single_line(bytes: &[u8]) -> (r: bool)
    ensures
        r == spec_is_single_line(bytes@),
{
    let mut i: usize = 0;
    while i < bytes.len()
        invariant
            0 <= i <= bytes@.len(),
            forall|j: int| 0 <= j < i ==> bytes@[j] != 10u8,
        decreases bytes@.len() - i,
    {
        if bytes[i] == 10u8 {
            assert(bytes@[i as int] == 10u8);
            return false;
        }
        i = i + 1;
    }
    true
}

/// Every character widens the byte offset by at least one, so offsets of later characters are
/// strictly larger.
proof fn lemma_offset_strict(s: Seq<char>, i: int, j: int)
    requires
        0 <= i < j <= s.len(),
    ensures
        spec_byte_offset(s, i) < spec_byte_offset(s, j),
{
    lemma_byte_offset_monotone(s, i, j);
}

/// Scanning from `0` reaches the same index as scanning from `j` when every character before `j`
/// starts before `off`.
proof fn lemma_scan_skip(s: Seq<char>, off: int, j: int)
    requires
        0 <= j <= s.len(),
        forall|i: int| 0 <= i < j ==> spec_byte_offset(s, i) < off,
    ensures
        spec_scan_to(s, off, 0) == spec_scan_to(s, off, j),
    decreases j,
{
    if j > 0 {
        lemma_scan_skip(s, off, j - 1);
        assert(spec_byte_offset(s, j - 1) < off);
    }
}

/// At a character boundary `offset(k)`, exactly the first `k` characters start before it.
proof fn lemma_chars_before_boundary(s: Seq<char>, k: int)
    requires
        0 <= k <= s.len(),
    ensures
        spec_chars_before(s, spec_byte_offset(s, k) as int) == k,
{
    let off = spec_byte_offset(s, k) as int;
    assert forall|i: int| 0 <= i < k implies spec_byte_offset(s, i) < off by {
        lemma_offset_strict(s, i, k);
    }
    lemma_scan_skip(s, off, k);
}

/// Bytes consumed by the first `k` characters fit in the byte length of the whole text.
proof fn lemma_offset_fits(s: Seq<char>, k: int, total: usize)
    requires
        0 <= k <= s.len(),
        total as nat == vstd::utf8::encode_utf8(s).len(),
    ensures
        spec_byte_offset(s, k) <= total,
{
    lemma_byte_len_is_encoding_len(s);
    lemma_byte_offset_monotone(s, k, s.len() as int);
}

/// 1-based line and UTF-8 character column at `byte_offset` in `text`.
pub fn line_column(text: &str, byte_offset: usize) -> (r: (usize, usize))
    requires
        text@.len() < usize::MAX,
    ensures
        (r.0 as nat, r.1 as nat) == spec_line_column(text@, byte_offset as int),
{
    let chars = chars_of(text);
    let total = byte_len(text);
    let n = chars.len();
    let mut line: usize = 1;
    let mut column: usize = 1;
    let mut index: usize = 0;
    let mut k: usize = 0;
    while k < n && index < byte_offset
        invariant
            chars@ == text@,
            n == chars@.len(),
            n < usize::MAX,
            total as nat == vstd::utf8::encode_utf8(text@).len(),
            0 <= k <= n,
            index == spec_byte_offset(text@, k as int),
            (line as nat, column as nat) == spec_line_col(text@, k as int),
            1 <= line <= k + 1,
            1 <= column <= k + 1,
            spec_scan_to(text@, byte_offset as int, k as int) == spec_chars_before(
                text@,
                byte_offset as int,
            ),
        decreases n - k,
    {
        let ch = chars[k];
        let w = utf8_width(ch);
        proof {
            lemma_offset_fits(text@, k + 1, total);
        }
        if ch == '\n' {
            line = line + 1;
            column = 1;
        } else {
            column = column + 1;
        }
        index = index + w;
        k = k + 1;
    }
    (line, column)
}

/// UTF-8 character count in `text[start_byte..end_byte]`, with `end_byte` clamped to the text.
pub fn char_count(text: &str, start_byte: usize, end_byte: usize) -> (r: usize)
    requires
        start_byte >= end_byte || start_byte >= spec_byte_len(text@) || spec_is_char_boundary(
            text@,
            start_byte as int,
        ),
    ensures
        r as int == spec_char_count(text@, start_byte as int, end_byte as int),
{
    let chars = chars_of(text);
    let total = byte_len(text);
    let n = chars.len();
    proof {
        lemma_byte_len_is_encoding_len(text@);
    }
    let end = if end_byte < total { end_byte } else { total };
    if start_byte >= end {
        return 0;
    }
    let ghost s = text@;
    // Find the character that starts at `start_byte`.
    let mut k: usize = 0;
    let mut index: usize = 0;
    let ghost kk = choose|kk: int|
        0 <= kk <= s.len() && #[trigger] spec_byte_offset(s, kk) == start_byte;
    assert(0 <= kk <= s.len() && spec_byte_offset(s, kk) == start_byte);
    while index < start_byte
        invariant
            chars@ == s,
            s == text@,
            n == s.len(),
            total as nat == vstd::utf8::encode_utf8(s).len(),
            spec_byte_len(s) == total,
            0 <= kk <= n,
            spec_byte_offset(s, kk) == start_byte,
            0 <= k <= kk,
            index == spec_byte_offset(s, k as int),
        decreases kk - k,
    {
        assert(k < kk);
        proof {
            lemma_offset_fits(s, k + 1, total);
        }
        let w = utf8_width(chars[k]);
        index = index + w;
        k = k + 1;
    }
    proof {
        if k < kk {
            lemma_offset_strict(s, k as int, kk);
        }
        assert(k == kk);
        lemma_chars_before_boundary(s, k as int);
        assert forall|i: int| 0 <= i < k implies spec_byte_offset(s, i) < end by {
            lemma_offset_strict(s, i, k as int);
        }
        lemma_scan_skip(s, end as int, k as int);
    }
    let start_k = k;
    let mut count: usize = 0;
    while k < n && index < end
        invariant
            chars@ == s,
            s == text@,
            n == s.len(),
            total as nat == vstd::utf8::encode_utf8(s).len(),
            start_k <= k <= n,
            count == k - start_k,
            index == spec_byte_offset(s, k as int),
            spec_scan_to(s, end as int, k as int) == spec_chars_before(s, end as int),
        decreases n - k,
    {
        proof {
            lemma_offset_fits(s, k + 1, total);
        }
        let w = utf8_width(chars[k]);
        index = index + w;
        k = k + 1;
        count = count + 1;
    }
    count
}

/// Column of the first position on line `line_number` at or after `byte_offset`; past the end of
/// the text, the column of the end when the text ends on that line, else 1.
pub fn line_column_from_line(text: &str, line_number: usize, byte_offset: usize) -> (r: usize)
    requires
        text@.len() < usize::MAX,
    ensures
        r as nat == spec_column_on_line(text@, line_number as int, byte_offset as int, 0),
{
    let chars = chars_of(text);
    let total = byte_len(text);
    let n = chars.len();
    let mut line: usize = 1;
    let mut column: usize = 1;
    let mut index: usize = 0;
    let mut k: usize = 0;
    while k < n
        invariant
            chars@ == text@,
            n == chars@.len(),
            n < usize::MAX,
            total as nat == vstd::utf8::encode_utf8(text@).len(),
            0 <= k <= n,
            index == spec_byte_offset(text@, k as int),
            (line as nat, column as nat) == spec_line_col(text@, k as int),
            1 <= line <= k + 1,
            1 <= column <= k + 1,
            spec_column_on_line(text@, line_number as int, byte_offset as int, k as int)
                == spec_column_on_line(text@, line_number as int, byte_offset as int, 0),
        decreases n - k,
    {
        if line == line_number && index >= byte_offset {
            return column;
        }
        let ch = chars[k];
        let w = utf8_width(ch);
        proof {
            lemma_offset_fits(text@, k + 1, total);
        }
        if ch == '\n' {
            line = line + 1;
            column = 1;
        } else {
            column = column + 1;
        }
        index = index + w;
        k = k + 1;
    }
    if line == line_number {
        column
    } else {
        1
    }
}

/// A scan from character `k` on stops at or after `k`, and within the text.
proof fn lemma_scan_bounds(s: Seq<char>, off: int, k: int)
    requires
        0 <= k <= s.len(),
    ensures
        k <= spec_scan_to(s, off, k) <= s.len(),
    decreases s.len() - k,
{
    if k < s.len() && spec_byte_offset(s, k) < off {
        lemma_scan_bounds(s, off, k + 1);
    }
}

/// Scanning to a larger byte offset stops no earlier.
proof fn lemma_scan_monotone(s: Seq<char>, a: int, b: int, k: int)
    requires
        a <= b,
        0 <= k <= s.len(),
    ensures
        spec_scan_to(s, a, k) <= spec_scan_to(s, b, k),
    decreases s.len() - k,
{
    if k < s.len() && spec_byte_offset(s, k) < b {
        lemma_scan_bounds(s, b, k + 1);
        if spec_byte_offset(s, k) < a {
            lemma_scan_monotone(s, a, b, k + 1);
        }
    }
}

/// The number of characters starting before byte offset `off` lies within the text and grows
/// with `off`.
pub proof fn lemma_chars_before(s: Seq<char>, a: int, b: int)
    requires
        a <= b,
    ensures
        0 <= spec_chars_before(s, a) <= spec_chars_before(s, b) <= s.len(),
{
    lemma_scan_bounds(s, a, 0);
    lemma_scan_bounds(s, b, 0);
    lemma_scan_monotone(s, a, b, 0);
}

/// The number of characters of `chars` that start before byte offset `off`, and the byte offset
/// where the first character not counted starts.
pub(crate) fn scan_chars(chars: &Vec<char>, total: usize, off: usize) -> (r: (usize, usize))
    requires
        total as nat == vstd::utf8::encode_utf8(chars@).len(),
    ensures
        r.0 as int == spec_chars_before(chars@, off as int),
        r.1 as nat == spec_byte_offset(chars@, r.0 as int),
{
    let ghost s = chars@;
    let n = chars.len();
    let mut k: usize = 0;
    let mut index: usize = 0;
    while k < n && index < off
        invariant
            s == chars@,
            n == s.len(),
            total as nat == vstd::utf8::encode_utf8(s).len(),
            0 <= k <= n,
            index as nat == spec_byte_offset(s, k as int),
            spec_scan_to(s, off as int, k as int) == spec_chars_before(s, off as int),
        decreases n - k,
    {
        proof {
            lemma_offset_fits(s, k + 1, total);
        }
        let w = utf8_width(chars[k]);
        index = index + w;
        k = k + 1;
    }
    (k, index)
}

/// The number of characters that start in the byte range `[start, end)` of `text`, with `end`
/// clamped to the text, for any offsets.
pub(crate) fn span_char_count(text: &str, start: usize, end: usize) -> (r: usize)
    ensures
        r as int == spec_char_count(text@, start as int, end as int),
{
    let chars = chars_of(text);
    let total = byte_len(text);
    proof {
        lemma_byte_len_is_encoding_len(text@);
    }
    let e = if end < total { end } else { total };
    if start >= e {
        return 0;
    }
    let (ks, _) = scan_chars(&chars, total, start);
    let (ke, _) = scan_chars(&chars, total, e);
    proof {
        lemma_chars_before(text@, start as int, e as int);
    }
    ke - ks
}

/// `s[start..end]` by byte offsets (`str::get`): the characters between the two offsets when both
/// are character boundaries in order, else nothing.
pub open spec fn spec_str_slice(s: Seq<char>, start: int, end: int) -> Option<Seq<char>> {
    let ks = spec_chars_before(s, start);
    let ke = spec_chars_before(s, end);
    if start <= end && spec_byte_offset(s, ks) == start && spec_byte_offset(s, ke) == end {
        Some(s.subrange(ks, ke))
    } else {
        None
    }
}

/// The characters of `text` between byte offsets `start` and `end` (see [`spec_str_slice`]).
pub(crate) fn str_slice(text: &str, start: usize, end: usize) -> (r: Option<Vec<char>>)
    ensures
        match r {
            Some(v) => spec_str_slice(text@, start as int, end as int) == Some(v@),
            None => spec_str_slice(text@, start as int, end as int) is None,
        },
{
    let chars = chars_of(text);
    let total = byte_len(text);
    if start > end {
        return None;
    }
    let (ks, os) = scan_chars(&chars, total, start);
    let (ke, oe) = scan_chars(&chars, total, end);
    if os != start || oe != end {
        return None;
    }
    proof {
        lemma_chars_before(text@, start as int, end as int);
    }
    Some(sub_chars(&chars, ks, ke))
}

/// Number of newlines in `t`.
pub open spec fn spec_newlines(t: Seq<char>) -> nat
    decreases t.len(),
{
    if t.len() == 0 {
        0
    } else {
        spec_newlines(t.drop_last()) + if t.last() == '\n' { 1nat } else { 0nat }
    }
}

/// Index just past the last newline of `t`, or `0` when it has none.
pub open spec fn spec_line_start(t: Seq<char>) -> int
    decreases t.len(),
{
    if t.len() == 0 {
        0
    } else if t.last() == '\n' {
        t.len() as int
    } else {
        spec_line_start(t.drop_last())
    }
}

/// The start of the last line lies within the text.
proof fn lemma_line_start_bounds(t: Seq<char>)
    ensures
        0 <= spec_line_start(t) <= t.len(),
    decreases t.len(),
{
    if t.len() > 0 {
        lemma_line_start_bounds(t.drop_last());
    }
}

/// After the first `k` characters the line is one more than the newlines among them, and the
/// column one more than the characters since the last of them.
pub proof fn law_line_col_counts(s: Seq<char>, k: int)
    requires
        0 <= k <= s.len(),
    ensures
        spec_line_col(s, k) == (
            (1 + spec_newlines(s.take(k))) as nat,
            (1 + k - spec_line_start(s.take(k))) as nat,
        ),
    decreases k,
{
    lemma_line_start_bounds(s.take(k));
    if k > 0 {
        law_line_col_counts(s, k - 1);
        assert(s.take(k).drop_last() =~= s.take(k - 1));
        assert(s.take(k).last() == s[k - 1]);
        lemma_line_start_bounds(s.take(k - 1));
    }
}

/// The line and column of a byte offset: for the offset where character `k` starts (or any offset
/// past the end, with `k` the length), the line is one more than the newlines before character
/// `k`, and the column one more than the characters between the last of them and `k`.
pub proof fn law_line_column_counts(s: Seq<char>, k: int, off: int)
    requires
        0 <= k <= s.len(),
        off == spec_byte_offset(s, k) || (k == s.len() && off >= spec_byte_len(s)),
    ensures
        spec_line_column(s, off) == (
            (1 + spec_newlines(s.take(k))) as nat,
            (1 + k - spec_line_start(s.take(k))) as nat,
        ),
{
    lemma_chars_before_boundary(s, k);
    if off != spec_byte_offset(s, k) {
        lemma_chars_before(s, spec_byte_len(s) as int, off);
    }
    assert(spec_chars_before(s, off) == k);
    law_line_col_counts(s, k);
}

/// The characters counted in a byte range are those of the slice between two character
/// boundaries: from where character `a` starts to where character `b` starts, or, for an end past
/// the text, to the end of the text. A range that ends at or before its start counts nothing.
pub proof fn law_char_count_slice(s: Seq<char>, a: int, b: int, end: int)
    requires
        0 <= a <= b <= s.len(),
        end == spec_byte_offset(s, b) || (b == s.len() && end >= spec_byte_len(s)),
    ensures
        spec_char_count(s, spec_byte_offset(s, a) as int, end) == s.subrange(a, b).len(),
        end <= spec_byte_offset(s, a) ==> spec_char_count(s, spec_byte_offset(s, a) as int, end) == 0,
{
    lemma_chars_before_boundary(s, a);
    lemma_chars_before_boundary(s, b);
    lemma_chars_before_boundary(s, s.len() as int);
    lemma_byte_offset_monotone(s, b, s.len() as int);
    lemma_byte_offset_monotone(s, a, s.len() as int);
    lemma_byte_offset_monotone(s, a, b);
    if a < b {
        lemma_offset_strict(s, a, b);
    }
}

} // verus!

