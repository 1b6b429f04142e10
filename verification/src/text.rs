//! Character classes, UTF-8 widths and small string builders shared by the parsers.

use vstd::prelude::*;

verus! {

/// `true` for the ASCII digits `0`–`9`.
pub open spec fn spec_is_digit(ch: char) -> bool {
    '0' <= ch && ch <= '9'
}

/// `true` for ASCII letters and digits.
pub open spec fn spec_is_alphanumeric(ch: char) -> bool {
    ('a' <= ch && ch <= 'z') || ('A' <= ch && ch <= 'Z') || spec_is_digit(ch)
}

/// Characters allowed in identifiers and unquoted tokens: ASCII letters, digits, `-`, `_`, `.`.
pub open spec fn spec_is_ident_char(ch: char) -> bool {
    spec_is_alphanumeric(ch) || ch == '-' || ch == '_' || ch == '.'
}

/// Characters that may start an identifier: identifier characters other than digits.
pub open spec fn spec_is_ident_start(ch: char) -> bool {
    spec_is_ident_char(ch) && !spec_is_digit(ch)
}

/// Exec form of [`spec_is_digit`].
pub fn is_digit(ch: char) -> (r: bool)
    ensures
        r == spec_is_digit(ch),
{
    '0' <= ch && ch <= '9'
}

/// Exec form of [`spec_is_ident_char`].
pub fn is_ident_char(ch: char) -> (r: bool)
    ensures
        r == spec_is_ident_char(ch),
{
    ('a' <= ch && ch <= 'z') || ('A' <= ch && ch <= 'Z') || ('0' <= ch && ch <= '9') || ch == '-'
        || ch == '_' || ch == '.'
}

/// Exec form of [`spec_is_ident_start`].
pub fn is_ident_start(ch: char) -> (r: bool)
    ensures
        r == spec_is_ident_start(ch),
{
    is_ident_char(ch) && !is_digit(ch)
}

/// ASCII lower-casing of one character; other characters are unchanged.
pub open spec fn spec_ascii_lower(ch: char) -> char {
    if 'A' <= ch && ch <= 'Z' {
        ((ch as u32) + 32) as char
    } else {
        ch
    }
}

/// Exec form of [`spec_ascii_lower`].
pub fn ascii_lower(ch: char) -> (r: char)
    ensures
        r == spec_ascii_lower(ch),
{
    if 'A' <= ch && ch <= 'Z' {
        let code: u32 = (ch as u32) + 32;
        char_from_ascii(code as u8)
    } else {
        ch
    }
}

/// `true` when `a` and `b` are equal up to ASCII case.
pub open spec fn spec_eq_ignore_ascii_case(a: Seq<char>, b: Seq<char>) -> bool {
    a.len() == b.len() && forall|i: int| 0 <= i < a.len() ==> spec_ascii_lower(a[i]) == spec_ascii_lower(b[i])
}

/// Exec form of [`spec_eq_ignore_ascii_case`].
pub fn eq_ignore_ascii_case(a: &[char], b: &[char]) -> (r: bool)
    ensures
        r == spec_eq_ignore_ascii_case(a@, b@),
{
    if a.len() != b.len() {
        return false;
    }
    let mut i: usize = 0;
    while i < a.len()
        invariant
            a@.len() == b@.len(),
            0 <= i <= a@.len(),
            forall|k: int| 0 <= k < i ==> spec_ascii_lower(a@[k]) == spec_ascii_lower(b@[k]),
        decreases a@.len() - i,
    {
        if ascii_lower(a[i]) != ascii_lower(b[i]) {
            return false;
        }
        i = i + 1;
    }
    true
}

/// [`eq_ignore_ascii_case`] on string slices.
pub fn str_eq_ignore_ascii_case(a: &str, b: &str) -> (r: bool)
    ensures
        r == spec_eq_ignore_ascii_case(a@, b@),
{
    let x = chars_of(a);
    let y = chars_of(b);
    eq_ignore_ascii_case(x.as_slice(), y.as_slice())
}

/// A one-byte character from an ASCII code.
fn char_from_ascii(b: u8) -> (r: char)
    ensures
        r == b as char,
{
    b as char
}


/// Number of bytes of the UTF-8 encoding of `ch`.
pub open spec fn spec_utf8_width(ch: char) -> nat {
    if (ch as u32) < 0x80 {
        1
    } else if (ch as u32) < 0x800 {
        2
    } else if (ch as u32) < 0x10000 {
        3
    } else {
        4
    }
}

/// Exec form of [`spec_utf8_width`].
pub fn utf8_width(ch: char) -> (r: usize)
    ensures
        r == spec_utf8_width(ch),
{
    let code = ch as u32;
    if code < 0x80 {
        1
    } else if code < 0x800 {
        2
    } else if code < 0x10000 {
        3
    } else {
        4
    }
}

/// UTF-8 byte offset of character index `i` in `s`: the byte length of `s[..i]`.
pub open spec fn spec_byte_offset(s: Seq<char>, i: int) -> nat
    decreases i,
{
    if i <= 0 || s.len() == 0 {
        0
    } else if i > s.len() {
        spec_byte_offset(s, s.len() as int)
    } else {
        spec_byte_offset(s, i - 1) + spec_utf8_width(s[i - 1])
    }
}

/// UTF-8 byte length of `s`.
pub open spec fn spec_byte_len(s: Seq<char>) -> nat {
    spec_byte_offset(s, s.len() as int)
}

/// The byte offset grows with the character index.
pub proof fn lemma_byte_offset_monotone(s: Seq<char>, i: int, j: int)
    requires
        0 <= i <= j <= s.len(),
    ensures
        spec_byte_offset(s, i) <= spec_byte_offset(s, j),
        j - i <= spec_byte_offset(s, j) - spec_byte_offset(s, i),
    decreases j - i,
{
    if i < j {
        lemma_byte_offset_monotone(s, i, j - 1);
    }
}

/// The byte offsets of a prefix agree with those of the whole sequence.
pub proof fn lemma_byte_offset_prefix(s: Seq<char>, t: Seq<char>, i: int)
    requires
        0 <= i <= s.len(),
        s.len() <= t.len(),
        s == t.subrange(0, s.len() as int),
    ensures
        spec_byte_offset(s, i) == spec_byte_offset(t, i),
    decreases i,
{
    if i > 0 {
        lemma_byte_offset_prefix(s, t, i - 1);
        assert(s[i - 1] == t[i - 1]);
    }
}

/// The UTF-8 byte length computed here is the length of vstd's UTF-8 encoding.
pub proof fn lemma_byte_len_is_encoding_len(s: Seq<char>)
    ensures
        spec_byte_len(s) == vstd::utf8::encode_utf8(s).len(),
    decreases s.len(),
{
    if s.len() > 0 {
        let t = s.drop_first();
        lemma_byte_len_is_encoding_len(t);
        lemma_byte_offset_drop_first(s, s.len() as int);
        let c = s[0] as u32;
        vstd::utf8::char_is_scalar(s[0]);
        assert(vstd::utf8::encode_scalar(c).len() == spec_utf8_width(s[0]));
    }
}

/// Decoding UTF-8 gives at most as many characters as there are bytes.
pub proof fn lemma_decode_len(b: Seq<u8>)
    requires
        vstd::utf8::valid_utf8(b),
    ensures
        vstd::utf8::decode_utf8(b).len() <= b.len(),
{
    let s = vstd::utf8::decode_utf8(b);
    vstd::utf8::decode_utf8_encode_utf8(b);
    lemma_byte_len_is_encoding_len(s);
    lemma_byte_offset_monotone(s, 0, s.len() as int);
}

proof fn lemma_byte_offset_drop_first(s: Seq<char>, i: int)
    requires
        1 <= i <= s.len(),
    ensures
        spec_byte_offset(s, i) == spec_utf8_width(s[0]) + spec_byte_offset(s.drop_first(), i - 1),
    decreases i,
{
    let t = s.drop_first();
    if i > 1 {
        lemma_byte_offset_drop_first(s, i - 1);
        assert(t[i - 2] == s[i - 1]);
        assert(spec_byte_offset(t, i - 1) == spec_byte_offset(t, i - 2) + spec_utf8_width(t[i - 2]));
    } else {
        assert(spec_byte_offset(s, 0) == 0);
        assert(spec_byte_offset(t, 0) == 0);
    }
}

/// String equality: equal exactly when the characters are equal, compared one by one.
pub(crate) fn str_equal(a: &str, b: &str) -> (r: bool)
    ensures
        r == (a@ == b@),
{
    let x = chars_of(a);
    let y = chars_of(b);
    if x.len() != y.len() {
        return false;
    }
    let mut i: usize = 0;
    while i < x.len()
        invariant
            x@ == a@,
            y@ == b@,
            x@.len() == y@.len(),
            0 <= i <= x@.len(),
            forall|k: int| 0 <= k < i ==> x@[k] == y@[k],
        decreases x@.len() - i,
    {
        if x[i] != y[i] {
            assert(a@[i as int] != b@[i as int]);
            return false;
        }
        i = i + 1;
    }
    assert(a@ =~= b@);
    true
}

/// Appends `ch` to `s` (`String::push`).
#[verifier::external_body]
pub(crate) fn push_char(s: &mut String, ch: char)
    ensures
        final(s)@ == old(s)@.push(ch),
{
    s.push(ch);
}

/// Builds a `String` holding exactly the characters of `chars`.
pub fn string_from_chars(chars: &[char]) -> (r: String)
    ensures
        r@ == chars@,
{
    let mut r = String::new();
    let mut i: usize = 0;
    while i < chars.len()
        invariant
            0 <= i <= chars@.len(),
            r@ == chars@.subrange(0, i as int),
        decreases chars@.len() - i,
    {
        push_char(&mut r, chars[i]);
        i = i + 1;
        assert(r@ == chars@.subrange(0, i as int));
    }
    r
}

/// Appends every character of `chars` to `s`.
pub fn push_chars(s: &mut String, chars: &[char])
    ensures
        final(s)@ == old(s)@ + chars@,
{
    let mut i: usize = 0;
    while i < chars.len()
        invariant
            0 <= i <= chars@.len(),
            s@ == old(s)@ + chars@.subrange(0, i as int),
        decreases chars@.len() - i,
    {
        push_char(s, chars[i]);
        i = i + 1;
        assert(s@ == old(s)@ + chars@.subrange(0, i as int));
    }
    assert(chars@.subrange(0, chars@.len() as int) == chars@);
}

/// Byte length of a string slice (`str::len`): the length of its UTF-8 encoding, which fits in a
/// `usize` for every string in memory.
#[verifier::external_body]
pub(crate) fn byte_len(s: &str) -> (n: usize)
    ensures
        n as nat == vstd::utf8::encode_utf8(s@).len(),
{
    s.len()
}

/// The characters of `s`, in order.
pub fn chars_of(s: &str) -> (v: Vec<char>)
    ensures
        v@ == s@,
{
    let mut v: Vec<char> = Vec::new();
    for c in iter: s.chars()
        invariant
            v@ == iter.seq().take(iter.index() as int),
    {
        v.push(c);
    }
    v
}

/// The ASCII digit for `d < 10`.
pub open spec fn spec_digit_char(d: nat) -> char {
    ((d + 48) as u32) as char
}

/// Decimal digits of `n`, most significant first, without leading zeros (`0` is `"0"`).
pub open spec fn spec_nat_text(n: nat) -> Seq<char>
    decreases n,
{
    if n < 10 {
        seq![spec_digit_char(n)]
    } else {
        spec_nat_text(n / 10).push(spec_digit_char(n % 10))
    }
}

/// Decimal text of an integer, with a leading `-` when negative.
pub open spec fn spec_int_text(i: int) -> Seq<char> {
    if i < 0 {
        seq!['-'] + spec_nat_text((-i) as nat)
    } else {
        spec_nat_text(i as nat)
    }
}

/// Decimal text of `n` (`u64`).
pub fn u64_text(n: u64) -> (r: Vec<char>)
    ensures
        r@ == spec_nat_text(n as nat),
    decreases n,
{
    if n < 10 {
        let d: u8 = n as u8;
        let mut v: Vec<char> = Vec::new();
        v.push(char_from_ascii(d + 48));
        v
    } else {
        let mut v = u64_text(n / 10);
        let d: u8 = (n % 10) as u8;
        v.push(char_from_ascii(d + 48));
        v
    }
}

/// Decimal text of `n` (`u128`).
pub fn u128_text(n: u128) -> (r: Vec<char>)
    ensures
        r@ == spec_nat_text(n as nat),
    decreases n,
{
    if n < 10 {
        let d: u8 = n as u8;
        let mut v: Vec<char> = Vec::new();
        v.push(char_from_ascii(d + 48));
        v
    } else {
        let mut v = u128_text(n / 10);
        let d: u8 = (n % 10) as u8;
        v.push(char_from_ascii(d + 48));
        v
    }
}

/// Decimal text of `i` (`i64`), as `Display` writes it.
pub fn i64_text(i: i64) -> (r: Vec<char>)
    ensures
        r@ == spec_int_text(i as int),
{
    if i < 0 {
        let wide: i128 = i as i128;
        let magnitude: u64 = (-wide) as u64;
        let digits = u64_text(magnitude);
        let mut v: Vec<char> = Vec::new();
        v.push('-');
        let mut k: usize = 0;
        while k < digits.len()
            invariant
                0 <= k <= digits@.len(),
                v@ == seq!['-'] + digits@.subrange(0, k as int),
            decreases digits@.len() - k,
        {
            v.push(digits[k]);
            k = k + 1;
            assert(v@ == seq!['-'] + digits@.subrange(0, k as int));
        }
        assert(digits@.subrange(0, digits@.len() as int) == digits@);
        v
    } else {
        u64_text(i as u64)
    }
}

/// The text `format!("{:?}", s)` gives for a string: Rust's quoted, escaped debug form.
pub uninterp spec fn debug_text(s: Seq<char>) -> Seq<char>;

/// Rust's debug form of a string (`<str as Debug>::fmt`, through `format!`): the string in double
/// quotes with Rust escapes. The contract only names the result; its exact text is std's.
#[verifier::external_body]
pub(crate) fn debug_string(s: &str) -> (r: String)
    ensures
        r@ == debug_text(s@),
{
    format!("{:?}", s)
}

/// The text `format!("{:?}", Path::new(s))` gives: a path's quoted debug form, which std writes
/// by its own rules rather than through `<str as Debug>`.
pub uninterp spec fn path_debug_text(s: Seq<char>) -> Seq<char>;

/// The debug form of the path `s` (`<std::path::Path as Debug>::fmt`, through `format!`). The
/// contract only names the result; its exact text is std's.
#[verifier::external_body]
pub(crate) fn path_debug_string(s: &str) -> (r: String)
    ensures
        r@ == path_debug_text(s@),
{
    format!("{:?}", std::path::Path::new(s))
}

/// Unicode white space (the `White_Space` property, as `char::is_whitespace` uses it).
pub open spec fn spec_is_whitespace(c: char) -> bool {
    ('\u{9}' <= c && c <= '\u{d}') || c == ' ' || c == '\u{85}' || c == '\u{a0}' || c == '\u{1680}'
        || ('\u{2000}' <= c && c <= '\u{200a}') || c == '\u{2028}' || c == '\u{2029}' || c
        == '\u{202f}' || c == '\u{205f}' || c == '\u{3000}'
}

/// Exec form of [`spec_is_whitespace`].
pub fn is_whitespace(c: char) -> (r: bool)
    ensures
        r == spec_is_whitespace(c),
{
    ('\u{9}' <= c && c <= '\u{d}') || c == ' ' || c == '\u{85}' || c == '\u{a0}' || c == '\u{1680}'
        || ('\u{2000}' <= c && c <= '\u{200a}') || c == '\u{2028}' || c == '\u{2029}' || c
        == '\u{202f}' || c == '\u{205f}' || c == '\u{3000}'
}

/// Number of white-space characters at the start of `s`.
pub open spec fn spec_lead_ws(s: Seq<char>) -> nat
    decreases s.len(),
{
    if s.len() > 0 && spec_is_whitespace(s[0]) {
        1 + spec_lead_ws(s.drop_first())
    } else {
        0
    }
}

/// Number of white-space characters at the end of `s`.
pub open spec fn spec_trail_ws(s: Seq<char>) -> nat
    decreases s.len(),
{
    if s.len() > 0 && spec_is_whitespace(s.last()) {
        1 + spec_trail_ws(s.drop_last())
    } else {
        0
    }
}

/// `s` without leading white space.
pub open spec fn spec_trim_start(s: Seq<char>) -> Seq<char> {
    s.skip(spec_lead_ws(s) as int)
}

/// `s` without trailing white space.
pub open spec fn spec_trim_end(s: Seq<char>) -> Seq<char> {
    s.take(s.len() - spec_trail_ws(s))
}

/// `s` without leading and trailing white space.
pub open spec fn spec_trim(s: Seq<char>) -> Seq<char> {
    spec_trim_end(spec_trim_start(s))
}

/// Index of the first `c` in `s`, or `-1`.
pub open spec fn spec_find_char(s: Seq<char>, c: char) -> int
    decreases s.len(),
{
    if s.len() == 0 {
        -1
    } else if s[0] == c {
        0
    } else if spec_find_char(s.drop_first(), c) < 0 {
        -1
    } else {
        spec_find_char(s.drop_first(), c) + 1
    }
}

/// `true` when `pat` occurs in `s` at index `i`.
pub open spec fn spec_occurs_at(s: Seq<char>, pat: Seq<char>, i: int) -> bool {
    0 <= i && i + pat.len() <= s.len() && s.subrange(i, i + pat.len()) == pat
}

/// Index of the first occurrence of `pat` in `s`, or `-1`.
#[verifier::opaque]
pub open spec fn spec_find_seq(s: Seq<char>, pat: Seq<char>) -> int {
    if exists|i: int| spec_occurs_at(s, pat, i) {
        choose|i: int| spec_occurs_at(s, pat, i) && forall|j: int| 0 <= j < i ==> !spec_occurs_at(s, pat, j)
    } else {
        -1
    }
}

/// `true` when `s` starts with `pat`.
pub open spec fn spec_starts_with(s: Seq<char>, pat: Seq<char>) -> bool {
    pat.len() <= s.len() && s.take(pat.len() as int) == pat
}

proof fn lemma_lead_ws(s: Seq<char>)
    ensures
        spec_lead_ws(s) <= s.len(),
        forall|i: int| 0 <= i < spec_lead_ws(s) ==> spec_is_whitespace(s[i]),
        spec_lead_ws(s) < s.len() ==> !spec_is_whitespace(s[spec_lead_ws(s) as int]),
    decreases s.len(),
{
    if s.len() > 0 && spec_is_whitespace(s[0]) {
        lemma_lead_ws(s.drop_first());
        assert forall|i: int| 0 <= i < spec_lead_ws(s) implies spec_is_whitespace(s[i]) by {
            if i > 0 {
                assert(s[i] == s.drop_first()[i - 1]);
            }
        }
    }
}

proof fn lemma_trail_ws(s: Seq<char>)
    ensures
        spec_trail_ws(s) <= s.len(),
        forall|i: int| s.len() - spec_trail_ws(s) <= i < s.len() ==> spec_is_whitespace(s[i]),
        spec_trail_ws(s) < s.len() ==> !spec_is_whitespace(s[s.len() - spec_trail_ws(s) - 1]),
    decreases s.len(),
{
    if s.len() > 0 && spec_is_whitespace(s.last()) {
        lemma_trail_ws(s.drop_last());
        assert forall|i: int| s.len() - spec_trail_ws(s) <= i < s.len() implies spec_is_whitespace(
            s[i],
        ) by {
            if i < s.len() - 1 {
                assert(s[i] == s.drop_last()[i]);
            }
        }
    }
}

/// The count of leading white space is the first index that is not white space.
proof fn lemma_lead_ws_at(s: Seq<char>, k: int)
    requires
        0 <= k <= s.len(),
        forall|i: int| 0 <= i < k ==> spec_is_whitespace(s[i]),
        k < s.len() ==> !spec_is_whitespace(s[k]),
    ensures
        spec_lead_ws(s) == k,
    decreases s.len(),
{
    if k > 0 {
        let d = s.drop_first();
        assert forall|i: int| 0 <= i < k - 1 implies spec_is_whitespace(d[i]) by {
            assert(d[i] == s[i + 1]);
        }
        if k - 1 < d.len() {
            assert(d[k - 1] == s[k]);
        }
        lemma_lead_ws_at(d, k - 1);
    }
}

/// The count of trailing white space is the distance from the last non-white-space character.
proof fn lemma_trail_ws_at(s: Seq<char>, k: int)
    requires
        0 <= k <= s.len(),
        forall|i: int| s.len() - k <= i < s.len() ==> spec_is_whitespace(s[i]),
        k < s.len() ==> !spec_is_whitespace(s[s.len() - k - 1]),
    ensures
        spec_trail_ws(s) == k,
    decreases s.len(),
{
    if k > 0 {
        let d = s.drop_last();
        assert forall|i: int| d.len() - (k - 1) <= i < d.len() implies spec_is_whitespace(d[i]) by {
            assert(d[i] == s[i]);
        }
        if k - 1 < d.len() {
            assert(d[d.len() - (k - 1) - 1] == s[s.len() - k - 1]);
        }
        lemma_trail_ws_at(d, k - 1);
    }
}

/// The characters of `s` from `a` to `b`.
pub fn sub_chars(s: &Vec<char>, a: usize, b: usize) -> (r: Vec<char>)
    requires
        a <= b <= s@.len(),
    ensures
        r@ == s@.subrange(a as int, b as int),
{
    let mut out: Vec<char> = Vec::new();
    let mut i: usize = a;
    while i < b
        invariant
            a <= i <= b,
            b <= s@.len(),
            out@ == s@.subrange(a as int, i as int),
        decreases b - i,
    {
        out.push(s[i]);
        i = i + 1;
        assert(out@ =~= s@.subrange(a as int, i as int));
    }
    out
}

/// `s` without leading white space.
pub fn trim_start_chars(s: &Vec<char>) -> (r: Vec<char>)
    ensures
        r@ == spec_trim_start(s@),
{
    let mut k: usize = 0;
    while k < s.len() && is_whitespace(s[k])
        invariant
            0 <= k <= s@.len(),
            forall|i: int| 0 <= i < k ==> spec_is_whitespace(s@[i]),
        decreases s@.len() - k,
    {
        k = k + 1;
    }
    proof {
        lemma_lead_ws_at(s@, k as int);
    }
    sub_chars(s, k, s.len())
}

/// `s` without trailing white space.
pub fn trim_end_chars(s: &Vec<char>) -> (r: Vec<char>)
    ensures
        r@ == spec_trim_end(s@),
{
    let n = s.len();
    let mut k: usize = 0;
    while k < n && is_whitespace(s[n - k - 1])
        invariant
            n == s@.len(),
            0 <= k <= n,
            forall|i: int| n - k <= i < n ==> spec_is_whitespace(s@[i]),
        decreases n - k,
    {
        k = k + 1;
    }
    proof {
        lemma_trail_ws_at(s@, k as int);
    }
    sub_chars(s, 0, n - k)
}

/// `s` without leading and trailing white space.
pub fn trim_chars(s: &Vec<char>) -> (r: Vec<char>)
    ensures
        r@ == spec_trim(s@),
{
    let t = trim_start_chars(s);
    trim_end_chars(&t)
}

/// Index of the first `c` in `s`.
pub fn find_char(s: &Vec<char>, c: char) -> (r: Option<usize>)
    ensures
        match r {
            Some(i) => spec_find_char(s@, c) == i && i < s@.len(),
            None => spec_find_char(s@, c) == -1,
        },
{
    let ghost t = s@;
    proof {
        lemma_find_char(t, c);
    }
    let mut i: usize = 0;
    while i < s.len()
        invariant
            t == s@,
            0 <= i <= t.len(),
            forall|j: int| 0 <= j < i ==> t[j] != c,
        decreases t.len() - i,
    {
        if s[i] == c {
            proof {
                lemma_find_char_at(t, c, i as int);
            }
            return Some(i);
        }
        i = i + 1;
    }
    proof {
        lemma_find_char_none(t, c);
    }
    None
}

proof fn lemma_find_char(s: Seq<char>, c: char)
    ensures
        -1 <= spec_find_char(s, c) < s.len(),
    decreases s.len(),
{
    if s.len() > 0 {
        lemma_find_char(s.drop_first(), c);
    }
}

/// The first `c` is at `i` when no earlier character is `c`.
pub proof fn lemma_find_char_at(s: Seq<char>, c: char, i: int)
    requires
        0 <= i < s.len(),
        s[i] == c,
        forall|j: int| 0 <= j < i ==> s[j] != c,
    ensures
        spec_find_char(s, c) == i,
    decreases i,
{
    if i > 0 {
        let d = s.drop_first();
        assert forall|j: int| 0 <= j < i - 1 implies d[j] != c by {
            assert(d[j] == s[j + 1]);
        }
        lemma_find_char_at(d, c, i - 1);
    }
}

/// No `c` in `s` gives `-1`.
pub proof fn lemma_find_char_none(s: Seq<char>, c: char)
    requires
        forall|j: int| 0 <= j < s.len() ==> s[j] != c,
    ensures
        spec_find_char(s, c) == -1,
    decreases s.len(),
{
    if s.len() > 0 {
        let d = s.drop_first();
        assert forall|j: int| 0 <= j < d.len() implies d[j] != c by {
            assert(d[j] == s[j + 1]);
        }
        lemma_find_char_none(d, c);
    }
}

/// `spec_find_char` names the first occurrence of `c`, if any.
pub proof fn lemma_find_char_spec(s: Seq<char>, c: char)
    ensures
        -1 <= spec_find_char(s, c) < s.len(),
        spec_find_char(s, c) >= 0 ==> s[spec_find_char(s, c)] == c,
        forall|j: int|
            0 <= j < s.len() && (spec_find_char(s, c) < 0 || j < spec_find_char(s, c)) ==> s[j] != c,
    decreases s.len(),
{
    if s.len() > 0 && s[0] != c {
        let d = s.drop_first();
        lemma_find_char_spec(d, c);
        assert forall|j: int|
            0 <= j < s.len() && (spec_find_char(s, c) < 0 || j < spec_find_char(s, c)) implies s[j]
            != c by {
            if j > 0 {
                assert(s[j] == d[j - 1]);
            }
        }
        if spec_find_char(s, c) >= 0 {
            assert(s[spec_find_char(s, c)] == d[spec_find_char(d, c)]);
        }
    }
}

/// Whether `pat` occurs in `s` at index `i`.
fn occurs_at(s: &Vec<char>, pat: &Vec<char>, i: usize) -> (r: bool)
    ensures
        r == spec_occurs_at(s@, pat@, i as int),
{
    if i > s.len() || pat.len() > s.len() - i {
        return false;
    }
    let mut k: usize = 0;
    while k < pat.len()
        invariant
            i <= s@.len(),
            s@.len() <= usize::MAX,
            pat@.len() <= s@.len() - i,
            0 <= k <= pat@.len(),
            forall|j: int| 0 <= j < k ==> s@[i + j] == pat@[j],
        decreases pat@.len() - k,
    {
        if s[i + k] != pat[k] {
            assert(s@.subrange(i as int, i + pat@.len())[k as int] != pat@[k as int]);
            return false;
        }
        k = k + 1;
    }
    assert(s@.subrange(i as int, i + pat@.len()) =~= pat@);
    true
}

/// Index of the first occurrence of `pat` in `s`.
pub fn find_seq(s: &Vec<char>, pat: &Vec<char>) -> (r: Option<usize>)
    ensures
        match r {
            Some(i) => spec_find_seq(s@, pat@) == i && spec_occurs_at(s@, pat@, i as int),
            None => spec_find_seq(s@, pat@) == -1,
        },
{
    let mut i: usize = 0;
    let mut found = false;
    while i < s.len() && !found
        invariant
            0 <= i <= s@.len(),
            found ==> spec_occurs_at(s@, pat@, i as int),
            forall|j: int| 0 <= j < i ==> !spec_occurs_at(s@, pat@, j),
        decreases s@.len() - i, if found { 0int } else { 1int },
    {
        if occurs_at(s, pat, i) {
            found = true;
        } else {
            i = i + 1;
        }
    }
    if !found && occurs_at(s, pat, i) {
        found = true;
    }
    reveal(spec_find_seq);
    if found {
        assert(spec_occurs_at(s@, pat@, i as int));
        let ghost w = choose|w: int|
            spec_occurs_at(s@, pat@, w) && forall|j: int| 0 <= j < w ==> !spec_occurs_at(s@, pat@, j);
        assert(spec_occurs_at(s@, pat@, w) && forall|j: int| 0 <= j < w ==> !spec_occurs_at(s@, pat@, j));
        assert(w == i) by {
            if w < i {
                assert(!spec_occurs_at(s@, pat@, w));
            }
            if w > i {
                assert(!spec_occurs_at(s@, pat@, i as int));
            }
        }
        return Some(i);
    }
    assert forall|j: int| !spec_occurs_at(s@, pat@, j) by {
        if 0 <= j <= s@.len() {
            assert(j < i || j == i);
        }
    }
    None
}

/// Whether `s` starts with `pat`.
pub fn starts_with_chars(s: &Vec<char>, pat: &Vec<char>) -> (r: bool)
    ensures
        r == spec_starts_with(s@, pat@),
{
    let r = occurs_at(s, pat, 0);
    proof {
        if pat@.len() <= s@.len() {
            assert(s@.subrange(0, pat@.len() as int) == s@.take(pat@.len() as int));
        }
    }
    r
}

/// Whether `s` starts with the character `c`.
pub fn starts_with_char(s: &Vec<char>, c: char) -> (r: bool)
    ensures
        r == (s@.len() > 0 && s@[0] == c),
{
    s.len() > 0 && s[0] == c
}

/// The Unicode lower-case form of a string, as `str::to_lowercase` computes it.
pub uninterp spec fn lowercase_text(s: Seq<char>) -> Seq<char>;

/// `str::to_lowercase`: the Unicode lower-case form of `s`. The contract names the result; the
/// case mapping itself is std's and is not restated here.
#[verifier::external_body]
pub(crate) fn to_lowercase(s: &str) -> (r: String)
    ensures
        r@ == lowercase_text(s@),
{
    s.to_lowercase()
}

/// `std::str::from_utf8`: the text of `bytes` exactly when they are valid UTF-8, and then the
/// characters they encode.
#[verifier::external_body]
pub(crate) fn utf8_text(bytes: &[u8]) -> (r: Option<&str>)
    ensures
        r is Some <==> vstd::utf8::valid_utf8(bytes@),
        r matches Some(s) ==> s@ == vstd::utf8::decode_utf8(bytes@),
{
    match std::str::from_utf8(bytes) {
        Ok(s) => Some(s),
        Err(_) => None,
    }
}

/// Index of the first `c` in `s` at or after `from`, or the length of `s`.
pub fn find_char_from(s: &Vec<char>, c: char, from: usize) -> (r: usize)
    requires
        from <= s@.len(),
    ensures
        from <= r <= s@.len(),
        spec_find_char(s@.skip(from as int), c) == if r < s@.len() { r - from } else { -1 },
{
    let mut i: usize = from;
    while i < s.len()
        invariant
            from <= i <= s@.len(),
            forall|j: int| from <= j < i ==> s@[j] != c,
        decreases s@.len() - i,
    {
        if s[i] == c {
            proof {
                let t = s@.skip(from as int);
                assert forall|j: int| 0 <= j < i - from implies t[j] != c by {
                    assert(t[j] == s@[from + j]);
                }
                lemma_find_char_at(t, c, i - from);
            }
            return i;
        }
        i = i + 1;
    }
    proof {
        let t = s@.skip(from as int);
        assert forall|j: int| 0 <= j < t.len() implies t[j] != c by {
            assert(t[j] == s@[from + j]);
        }
        lemma_find_char_none(t, c);
    }
    i
}

/// Text that starts and ends with a character other than white space is its own trim.
pub proof fn lemma_trim_unchanged(s: Seq<char>)
    requires
        s.len() > 0,
        !spec_is_whitespace(s[0]),
        !spec_is_whitespace(s.last()),
    ensures
        spec_trim_start(s) == s,
        spec_trim(s) == s,
{
    lemma_lead_ws_at(s, 0);
    assert(s.skip(0) =~= s);
    lemma_trail_ws_at(s, 0);
    assert(s.take(s.len() as int) =~= s);
}

/// A pattern whose first character does not occur in `s` is not found in it.
pub proof fn lemma_find_seq_none(s: Seq<char>, pat: Seq<char>)
    requires
        pat.len() > 0,
        forall|j: int| 0 <= j < s.len() ==> s[j] != pat[0],
    ensures
        spec_find_seq(s, pat) == -1,
{
    reveal(spec_find_seq);
    assert forall|i: int| !spec_occurs_at(s, pat, i) by {
        if spec_occurs_at(s, pat, i) {
            assert(s.subrange(i, i + pat.len())[0] == s[i]);
        }
    }
}

/// A pattern found at `i`, whose first character occurs nowhere before `i`, is first found there.
pub proof fn lemma_find_seq_at(s: Seq<char>, pat: Seq<char>, i: int)
    requires
        pat.len() > 0,
        spec_occurs_at(s, pat, i),
        forall|j: int| 0 <= j < i ==> s[j] != pat[0],
    ensures
        spec_find_seq(s, pat) == i,
{
    reveal(spec_find_seq);
    assert forall|j: int| 0 <= j < i implies !spec_occurs_at(s, pat, j) by {
        if spec_occurs_at(s, pat, j) {
            assert(s.subrange(j, j + pat.len())[0] == s[j]);
        }
    }
    let k = choose|k: int| spec_occurs_at(s, pat, k) && forall|j: int| 0 <= j < k ==> !spec_occurs_at(s, pat, j);
    assert(k == i) by {
        if k < i {
            assert(s.subrange(k, k + pat.len())[0] == s[k]);
        } else if k > i {
            assert(!spec_occurs_at(s, pat, i));
        }
    }
}

/// One leading space is trimmed off text that then starts with no white space.
pub proof fn lemma_trim_start_space(c: Seq<char>)
    requires
        c.len() > 0,
        !spec_is_whitespace(c[0]),
    ensures
        spec_trim_start(seq![' '] + c) == c,
{
    let s = seq![' '] + c;
    assert(s[1] == c[0]);
    lemma_lead_ws_at(s, 1);
    assert(s.skip(1) =~= c);
}

} // verus!



