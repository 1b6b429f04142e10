//! Parse and format configuration source strings.
//!
//! Format: `SOURCE [(OPTIONS)] [:RESOURCE]`.
//!
//! The grammar is stated by the spec functions of this module ([`spec_parse`] and its helpers);
//! [`parse`] is proved to compute exactly what they state, with error offsets in UTF-8 bytes.

use vstd::prelude::*;
use crate::text::{
    spec_is_digit, spec_is_ident_char, spec_is_ident_start, spec_eq_ignore_ascii_case,
    spec_byte_offset, spec_byte_len, spec_int_text, debug_text, chars_of, utf8_width,
    string_from_chars, str_equal, str_eq_ignore_ascii_case, eq_ignore_ascii_case,
    push_char, is_ident_char, is_ident_start, is_digit, lemma_byte_offset_monotone,
    lemma_byte_len_is_encoding_len, byte_len,
};
use crate::source::{
    OptionModel, OptionValue, Options, Source, EntriesModel, SourceModel, spec_get, spec_insert,
    spec_type_of, spec_type_display, list_model, entries_model,
};

verus! {

/// Model of a parse error; `at` is an offset into the input (a character index in the grammar
/// functions, a UTF-8 byte offset in a [`ParseError`]).
pub enum ParseErrorModel {
    MissingSource { at: int },
    UnexpectedEnd { at: int, expected: Seq<char> },
    UnexpectedChar { at: int, found: char, expected: Seq<char> },
    InvalidIdentifier { at: int, found: Seq<char> },
    EmptyKey { at: int },
    EmptyValue { at: int },
    InvalidEscape { at: int },
    UnclosedString { at: int },
    UnclosedList { at: int },
    UnclosedMap { at: int },
    TrailingComma { at: int },
    InvalidNumber { at: int, found: Seq<char> },
    TrailingInput { at: int, rest: Seq<char> },
    InvalidOnError { at: int, message: Seq<char> },
}

/// The same error with its offset `at` replaced by `f(at)`.
pub open spec fn spec_error_at(e: ParseErrorModel, at: int) -> ParseErrorModel {
    match e {
        ParseErrorModel::MissingSource { .. } => ParseErrorModel::MissingSource { at },
        ParseErrorModel::UnexpectedEnd { expected, .. } => ParseErrorModel::UnexpectedEnd { at, expected },
        ParseErrorModel::UnexpectedChar { found, expected, .. } => ParseErrorModel::UnexpectedChar { at, found, expected },
        ParseErrorModel::InvalidIdentifier { found, .. } => ParseErrorModel::InvalidIdentifier { at, found },
        ParseErrorModel::EmptyKey { .. } => ParseErrorModel::EmptyKey { at },
        ParseErrorModel::EmptyValue { .. } => ParseErrorModel::EmptyValue { at },
        ParseErrorModel::InvalidEscape { .. } => ParseErrorModel::InvalidEscape { at },
        ParseErrorModel::UnclosedString { .. } => ParseErrorModel::UnclosedString { at },
        ParseErrorModel::UnclosedList { .. } => ParseErrorModel::UnclosedList { at },
        ParseErrorModel::UnclosedMap { .. } => ParseErrorModel::UnclosedMap { at },
        ParseErrorModel::TrailingComma { .. } => ParseErrorModel::TrailingComma { at },
        ParseErrorModel::InvalidNumber { found, .. } => ParseErrorModel::InvalidNumber { at, found },
        ParseErrorModel::TrailingInput { rest, .. } => ParseErrorModel::TrailingInput { at, rest },
        ParseErrorModel::InvalidOnError { message, .. } => ParseErrorModel::InvalidOnError { at, message },
    }
}

/// The offset of an error.
pub open spec fn spec_error_offset(e: ParseErrorModel) -> int {
    match e {
        ParseErrorModel::MissingSource { at } => at,
        ParseErrorModel::UnexpectedEnd { at, .. } => at,
        ParseErrorModel::UnexpectedChar { at, .. } => at,
        ParseErrorModel::InvalidIdentifier { at, .. } => at,
        ParseErrorModel::EmptyKey { at } => at,
        ParseErrorModel::EmptyValue { at } => at,
        ParseErrorModel::InvalidEscape { at } => at,
        ParseErrorModel::UnclosedString { at } => at,
        ParseErrorModel::UnclosedList { at } => at,
        ParseErrorModel::UnclosedMap { at } => at,
        ParseErrorModel::TrailingComma { at } => at,
        ParseErrorModel::InvalidNumber { at, .. } => at,
        ParseErrorModel::TrailingInput { at, .. } => at,
        ParseErrorModel::InvalidOnError { at, .. } => at,
    }
}

/// A grammar error with its character offset into `s` turned into a UTF-8 byte offset.
pub open spec fn spec_error_in_bytes(s: Seq<char>, e: ParseErrorModel) -> ParseErrorModel {
    spec_error_at(e, spec_byte_offset(s, spec_error_offset(e)) as int)
}

/// The character at `i`, if any.
pub open spec fn spec_peek(s: Seq<char>, i: int) -> Option<char> {
    if 0 <= i < s.len() {
        Some(s[i])
    } else {
        None
    }
}

/// End of the run of identifier characters starting at `i`.
pub open spec fn spec_ident_end(s: Seq<char>, i: int) -> int
    decreases s.len() - i,
{
    if 0 <= i < s.len() && spec_is_ident_char(s[i]) {
        spec_ident_end(s, i + 1)
    } else {
        i
    }
}

/// What [`spec_ident_end`] returns: the first non-identifier position at or after `i`.
pub proof fn lemma_ident_end(s: Seq<char>, i: int)
    requires
        0 <= i <= s.len(),
    ensures
        i <= spec_ident_end(s, i) <= s.len(),
        forall|k: int| i <= k < spec_ident_end(s, i) ==> spec_is_ident_char(#[trigger] s[k]),
        spec_ident_end(s, i) < s.len() ==> !spec_is_ident_char(s[spec_ident_end(s, i)]),
    decreases s.len() - i,
{
    if i < s.len() && spec_is_ident_char(s[i]) {
        lemma_ident_end(s, i + 1);
    }
}

/// Consume the character `c` at `i`, else fail with `expected`.
pub open spec fn spec_expect(s: Seq<char>, i: int, c: char, expected: Seq<char>) -> Result<int, ParseErrorModel> {
    match spec_peek(s, i) {
        Some(found) => if found == c {
            Ok(i + 1)
        } else {
            Err(ParseErrorModel::UnexpectedChar { at: i, found, expected })
        },
        None => Err(ParseErrorModel::UnexpectedEnd { at: i, expected }),
    }
}

/// An option or map key: an identifier not starting with a digit.
pub open spec fn spec_key(s: Seq<char>, i: int) -> Result<(Seq<char>, int), ParseErrorModel> {
    match spec_peek(s, i) {
        Some(c) => if spec_is_ident_start(c) {
            Ok((s.subrange(i, spec_ident_end(s, i)), spec_ident_end(s, i)))
        } else if c == '=' {
            Err(ParseErrorModel::EmptyKey { at: i })
        } else {
            Err(ParseErrorModel::UnexpectedChar { at: i, found: c, expected: "option key"@ })
        },
        None => Err(ParseErrorModel::InvalidIdentifier { at: i, found: "end of input"@ }),
    }
}

/// The body of a quoted string from `k` on, `acc` holding what was decoded so far; `start` is
/// the position just after the opening quote.
pub open spec fn spec_quoted(s: Seq<char>, start: int, k: int, acc: Seq<char>) -> Result<(Seq<char>, int), ParseErrorModel>
    decreases s.len() - k,
{
    if k < 0 || k >= s.len() {
        Err(ParseErrorModel::UnclosedString { at: start })
    } else if s[k] == '"' {
        Ok((acc, k + 1))
    } else if s[k] == '\\' {
        if k + 1 >= s.len() {
            Err(ParseErrorModel::UnclosedString { at: start })
        } else {
            let e = s[k + 1];
            if e == '"' || e == '\\' || e == 'n' || e == 'r' || e == 't' {
                spec_quoted(s, start, k + 2, acc.push(spec_unescape(e)))
            } else {
                Err(ParseErrorModel::InvalidEscape { at: k })
            }
        }
    } else {
        spec_quoted(s, start, k + 1, acc.push(s[k]))
    }
}

/// The character an escape `\e` stands for.
pub open spec fn spec_unescape(e: char) -> char {
    if e == 'n' {
        '\n'
    } else if e == 'r' {
        '\r'
    } else if e == 't' {
        '\t'
    } else {
        e
    }
}

/// `true` when every character of `t` is an ASCII digit.
pub open spec fn spec_all_digits(t: Seq<char>) -> bool {
    forall|i: int| 0 <= i < t.len() ==> spec_is_digit(#[trigger] t[i])
}

/// `t` without one leading `-`.
pub open spec fn spec_strip_minus(t: Seq<char>) -> Seq<char> {
    if t.len() > 0 && t[0] == '-' {
        t.drop_first()
    } else {
        t
    }
}

/// An integer token: an optional `-` and one or more digits.
pub open spec fn spec_is_int_token(t: Seq<char>) -> bool {
    let body = spec_strip_minus(t);
    body.len() > 0 && spec_all_digits(body)
}

/// Index of the first `c` in `t`, or `t.len()` when absent.
pub open spec fn spec_first_index(t: Seq<char>, c: char) -> int
    decreases t.len(),
{
    if t.len() == 0 {
        0
    } else if t[0] == c {
        0
    } else {
        1 + spec_first_index(t.drop_first(), c)
    }
}

/// A float token: an optional `-`, digits, `.`, digits (both digit runs non-empty).
pub open spec fn spec_is_float_token(t: Seq<char>) -> bool {
    let body = spec_strip_minus(t);
    let dot = spec_first_index(body, '.');
    dot < body.len() && dot > 0 && dot + 1 < body.len() && spec_all_digits(body.subrange(0, dot))
        && spec_all_digits(body.subrange(dot + 1, body.len() as int))
}

/// `true` when `t` contains `c`.
pub open spec fn spec_contains(t: Seq<char>, c: char) -> bool {
    exists|i: int| 0 <= i < t.len() && t[i] == c
}

/// Value of a run of decimal digits.
pub open spec fn spec_digits_value(d: Seq<char>) -> nat
    decreases d.len(),
{
    if d.len() == 0 {
        0
    } else {
        spec_digits_value(d.drop_last()) * 10 + ((d.last() as u32) - 48) as nat
    }
}

/// Value of an integer token.
pub open spec fn spec_int_value(t: Seq<char>) -> int {
    if t.len() > 0 && t[0] == '-' {
        -(spec_digits_value(t.drop_first()) as int)
    } else {
        spec_digits_value(t) as int
    }
}

/// `d` without leading zeros, keeping at least one digit.
pub open spec fn spec_trim_leading_zeros(d: Seq<char>) -> Seq<char>
    decreases d.len(),
{
    if d.len() > 1 && d[0] == '0' {
        spec_trim_leading_zeros(d.drop_first())
    } else {
        d
    }
}

/// `d` without trailing zeros, keeping at least one digit.
pub open spec fn spec_trim_trailing_zeros(d: Seq<char>) -> Seq<char>
    decreases d.len(),
{
    if d.len() > 1 && d.last() == '0' {
        spec_trim_trailing_zeros(d.drop_last())
    } else {
        d
    }
}

/// Canonical text of a float token: what `Display` writes for the number (a whole number keeps
/// one decimal place, `2.0`; otherwise no trailing zeros, `2.5`).
pub open spec fn spec_canonical_float(t: Seq<char>) -> Seq<char> {
    let neg = t.len() > 0 && t[0] == '-';
    let body = spec_strip_minus(t);
    let dot = spec_first_index(body, '.');
    let whole = spec_trim_leading_zeros(body.subrange(0, dot));
    let fraction = spec_trim_trailing_zeros(body.subrange(dot + 1, body.len() as int));
    (if neg { seq!['-'] } else { Seq::empty() }) + whole + seq!['.'] + fraction
}

/// What an unquoted token means: a boolean, a number, or a plain string.
pub open spec fn spec_token_value(token: Seq<char>, at: int) -> Result<OptionModel, ParseErrorModel> {
    if spec_eq_ignore_ascii_case(token, "true"@) {
        Ok(OptionModel::Bool(true))
    } else if spec_eq_ignore_ascii_case(token, "false"@) {
        Ok(OptionModel::Bool(false))
    } else if spec_contains(token, '.') {
        if spec_is_float_token(token) {
            Ok(OptionModel::Float(spec_canonical_float(token)))
        } else {
            Err(ParseErrorModel::InvalidNumber { at, found: token })
        }
    } else if spec_is_int_token(token) {
        let v = spec_int_value(token);
        if i64::MIN <= v <= i64::MAX {
            Ok(OptionModel::Integer(v as i64))
        } else {
            Err(ParseErrorModel::InvalidNumber { at, found: token })
        }
    } else {
        Ok(OptionModel::Str(token))
    }
}

/// `true` for the characters that cannot start a value.
pub open spec fn spec_is_value_stop(c: char) -> bool {
    c == '=' || c == ',' || c == ')' || c == ']' || c == ':' || c == '?'
}

/// A value at `i`: a quoted string, a list, a map, or an unquoted token.
pub open spec fn spec_value(s: Seq<char>, i: int) -> Result<(OptionModel, int), ParseErrorModel>
    decreases s.len() - i, 3int,
{
    match spec_peek(s, i) {
        None => Err(ParseErrorModel::EmptyValue { at: i }),
        Some(c) => if c == '"' {
            match spec_quoted(s, i + 1, i + 1, Seq::empty()) {
                Ok((t, j)) => Ok((OptionModel::Str(t), j)),
                Err(e) => Err(e),
            }
        } else if c == '[' {
            spec_list(s, i)
        } else if c == '(' {
            match spec_table(s, i, false) {
                Ok((e, j)) => Ok((OptionModel::Table(e), j)),
                Err(e) => Err(e),
            }
        } else if spec_is_value_stop(c) {
            Err(ParseErrorModel::EmptyValue { at: i })
        } else {
            let j = spec_ident_end(s, i);
            if j <= i {
                Err(ParseErrorModel::UnexpectedChar { at: i, found: c, expected: "value"@ })
            } else {
                match spec_token_value(s.subrange(i, j), i) {
                    Ok(v) => Ok((v, j)),
                    Err(e) => Err(e),
                }
            }
        },
    }
}

/// A list `[v, …]` at `i`.
pub open spec fn spec_list(s: Seq<char>, i: int) -> Result<(OptionModel, int), ParseErrorModel>
    decreases s.len() - i, 2int,
{
    match spec_expect(s, i, '[', "opening `[` for list"@) {
        Err(e) => Err(e),
        Ok(k) => if k <= i {
            Err(ParseErrorModel::UnclosedList { at: k })
        } else if spec_peek(s, k) == Some(']') {
            Ok((OptionModel::List(Seq::empty()), k + 1))
        } else {
            spec_list_items(s, k, Seq::empty())
        },
    }
}

/// List items from `k` on, `acc` holding the items parsed so far.
pub open spec fn spec_list_items(s: Seq<char>, k: int, acc: Seq<OptionModel>) -> Result<(OptionModel, int), ParseErrorModel>
    decreases s.len() - k, 4int,
{
    match spec_value(s, k) {
        Err(e) => Err(e),
        Ok((v, j)) => if j <= k {
            Err(ParseErrorModel::UnclosedList { at: j })
        } else {
            match spec_peek(s, j) {
                Some(c) => if c == ',' {
                    if spec_peek(s, j + 1) == Some(']') || spec_peek(s, j + 1) == Some(',') {
                        Err(ParseErrorModel::TrailingComma { at: j + 1 })
                    } else {
                        spec_list_items(s, j + 1, acc.push(v))
                    }
                } else if c == ']' {
                    Ok((OptionModel::List(acc.push(v)), j + 1))
                } else {
                    Err(ParseErrorModel::UnexpectedChar { at: j, found: c, expected: "`,` or `]`"@ })
                },
                None => Err(ParseErrorModel::UnclosedList { at: j }),
            }
        },
    }
}

/// The message for a missing `(`: of the options block (`is_options`) or of a nested map.
pub open spec fn spec_open_message(is_options: bool) -> Seq<char> {
    if is_options {
        "opening `(` for options"@
    } else {
        "opening `(` for map"@
    }
}

/// The message for a missing `=` after a key.
pub open spec fn spec_equals_message(is_options: bool) -> Seq<char> {
    if is_options {
        "option value after `=`"@
    } else {
        "map value after `=`"@
    }
}

/// A parenthesised `key=value` block at `i`: the options block (`is_options`) or a nested map.
pub open spec fn spec_table(s: Seq<char>, i: int, is_options: bool) -> Result<(EntriesModel, int), ParseErrorModel>
    decreases s.len() - i, 2int,
{
    match spec_expect(s, i, '(', spec_open_message(is_options)) {
        Err(e) => Err(e),
        Ok(k) => if k <= i {
            Err(ParseErrorModel::UnclosedMap { at: k })
        } else if spec_peek(s, k) == Some(')') {
            Ok((Seq::empty(), k + 1))
        } else {
            spec_entries(s, k, Seq::empty(), is_options)
        },
    }
}

/// `key=value` entries from `k` on, `acc` holding the entries parsed so far.
pub open spec fn spec_entries(s: Seq<char>, k: int, acc: EntriesModel, is_options: bool) -> Result<(EntriesModel, int), ParseErrorModel>
    decreases s.len() - k, 4int,
{
    match spec_key(s, k) {
        Err(e) => Err(e),
        Ok((key, k1)) => match spec_expect(s, k1, '=', spec_equals_message(is_options)) {
            Err(e) => Err(e),
            Ok(k2) => if k2 <= k {
                Err(ParseErrorModel::UnclosedMap { at: k2 })
            } else {
                match spec_value(s, k2) {
                    Err(e) => Err(e),
                    Ok((v, j)) => if j <= k2 {
                        Err(ParseErrorModel::UnclosedMap { at: j })
                    } else {
                        let acc2 = spec_insert(acc, key, v);
                        match spec_peek(s, j) {
                            Some(c) => if c == ',' {
                                if spec_peek(s, j + 1) == Some(')') || spec_peek(s, j + 1) == Some(']')
                                    || spec_peek(s, j + 1) == Some(',') {
                                    Err(ParseErrorModel::TrailingComma { at: j + 1 })
                                } else {
                                    spec_entries(s, j + 1, acc2, is_options)
                                }
                            } else if c == ')' {
                                Ok((acc2, j + 1))
                            } else {
                                Err(ParseErrorModel::UnexpectedChar { at: j, found: c, expected: "`,` or `)`"@ })
                            },
                            None => Err(ParseErrorModel::UnclosedMap { at: j }),
                        }
                    },
                }
            },
        },
    }
}


/// Display text of a boolean.
pub open spec fn spec_bool_text(b: bool) -> Seq<char> {
    if b {
        "true"@
    } else {
        "false"@
    }
}

/// The `Display` text of an option value: scalars as written, strings in Rust's debug form,
/// lists as `[a, b]`, maps as `{"k": v}`.
pub open spec fn spec_value_display(v: OptionModel) -> Seq<char>
    decreases v, 0int,
{
    match v {
        OptionModel::Bool(b) => spec_bool_text(b),
        OptionModel::Integer(i) => spec_int_text(i as int),
        OptionModel::Float(t) => t,
        OptionModel::Str(t) => debug_text(t),
        OptionModel::List(l) => "["@ + spec_items_display(l, l.len() as int) + "]"@,
        OptionModel::Table(e) => "{"@ + spec_pairs_display(e, e.len() as int) + "}"@,
    }
}

/// The first `n` list items, each displayed, joined by `, `.
pub open spec fn spec_items_display(l: Seq<OptionModel>, n: int) -> Seq<char>
    decreases l, n,
{
    if n <= 0 || n > l.len() {
        Seq::empty()
    } else if n == 1 {
        spec_value_display(l[0])
    } else {
        spec_items_display(l, n - 1) + ", "@ + spec_value_display(l[n - 1])
    }
}

/// The first `n` map entries, each displayed as `"key": value`, joined by `, `.
pub open spec fn spec_pairs_display(e: EntriesModel, n: int) -> Seq<char>
    decreases e, n,
{
    if n <= 0 || n > e.len() {
        Seq::empty()
    } else if n == 1 {
        debug_text(e[0].0) + ": "@ + spec_value_display(e[0].1)
    } else {
        spec_pairs_display(e, n - 1) + ", "@ + debug_text(e[n - 1].0) + ": "@ + spec_value_display(e[n - 1].1)
    }
}

/// The message for an `on_error` option that is not a map.
pub open spec fn spec_on_error_shape_message(v: OptionModel) -> Seq<char> {
    "`on_error` must be a map like `(load=skip)`, found "@ + spec_type_display(spec_type_of(v))
}

/// The message for an unknown `on_error` stage.
pub open spec fn spec_on_error_stage_message(stage: Seq<char>) -> Seq<char> {
    "unknown `on_error` stage `"@ + stage + "`; expected load, parse, or validate"@
}

/// The message for an `on_error` policy other than `skip`/`fail`.
pub open spec fn spec_on_error_policy_message(stage: Seq<char>, policy: OptionModel) -> Seq<char> {
    "`on_error` policy for `"@ + stage + "` must be `skip` or `fail`, found `"@ + spec_value_display(policy) + "`"@
}

/// `true` for the stage names `load`, `parse`, `validate`.
pub open spec fn spec_is_stage_name(t: Seq<char>) -> bool {
    t == "load"@ || t == "parse"@ || t == "validate"@
}

/// `true` for the policies `skip` and `fail`, in any ASCII case.
pub open spec fn spec_is_policy(v: OptionModel) -> bool {
    match v {
        OptionModel::Str(t) => spec_eq_ignore_ascii_case(t, "skip"@) || spec_eq_ignore_ascii_case(t, "fail"@),
        _ => false,
    }
}

/// The first problem among the `on_error` entries from `i` on, if any.
pub open spec fn spec_check_stages(m: EntriesModel, i: int) -> Option<Seq<char>>
    decreases m.len() - i,
{
    if i < 0 || i >= m.len() {
        None
    } else if !spec_is_stage_name(m[i].0) {
        Some(spec_on_error_stage_message(m[i].0))
    } else if !spec_is_policy(m[i].1) {
        Some(spec_on_error_policy_message(m[i].0, m[i].1))
    } else {
        spec_check_stages(m, i + 1)
    }
}

/// The problem with the reserved `on_error` option, or `None` when it is absent or well formed:
/// it must be a map from stage (`load`/`parse`/`validate`) to `skip`/`fail`.
pub open spec fn spec_validate_on_error(options: EntriesModel) -> Option<Seq<char>> {
    match spec_get(options, "on_error"@) {
        None => None,
        Some(v) => match v {
            OptionModel::Table(m) => spec_check_stages(m, 0),
            _ => Some(spec_on_error_shape_message(v)),
        },
    }
}

/// The options block after the source name at `j`, if there is one.
pub open spec fn spec_options_part(s: Seq<char>, j: int) -> Result<(EntriesModel, int), ParseErrorModel> {
    if spec_peek(s, j) == Some('(') {
        spec_table(s, j, true)
    } else {
        Ok((Seq::empty(), j))
    }
}

/// The whole grammar: `SOURCE [(OPTIONS)] [:RESOURCE]`, with the `on_error` option checked.
/// Error offsets are character indexes into `s`.
pub open spec fn spec_parse(s: Seq<char>) -> Result<SourceModel, ParseErrorModel> {
    if !(s.len() > 0 && spec_is_ident_start(s[0])) {
        if s.len() == 0 {
            Err(ParseErrorModel::MissingSource { at: 0 })
        } else {
            Err(ParseErrorModel::UnexpectedChar { at: 0, found: s[0], expected: "source identifier"@ })
        }
    } else {
        let j = spec_ident_end(s, 0);
        match spec_options_part(s, j) {
            Err(e) => Err(e),
            Ok((options, k)) => {
                let colon = spec_peek(s, k) == Some(':');
                let end = if colon { s.len() as int } else { k };
                let resource = if colon { s.subrange(k + 1, s.len() as int) } else { Seq::empty() };
                if end < s.len() {
                    Err(ParseErrorModel::TrailingInput { at: end, rest: s.subrange(end, s.len() as int) })
                } else {
                    match spec_validate_on_error(options) {
                        Some(message) => Err(ParseErrorModel::InvalidOnError { at: j, message }),
                        None => Ok(SourceModel { source: s.subrange(0, j), options, resource, resource_colon: colon }),
                    }
                }
            },
        }
    }
}

/// The result of parsing `s` as [`parse`] reports it: errors carry UTF-8 byte offsets.
pub open spec fn spec_parse_result(s: Seq<char>) -> Result<SourceModel, ParseErrorModel> {
    match spec_parse(s) {
        Ok(m) => Ok(m),
        Err(e) => Err(spec_error_in_bytes(s, e)),
    }
}


/// A successful grammar step never goes backwards: values, lists, maps, entries and quoted
/// strings each consume at least one character.
pub proof fn lemma_quoted_advances(s: Seq<char>, start: int, k: int, acc: Seq<char>)
    requires
        0 <= k,
    ensures
        spec_quoted(s, start, k, acc) matches Ok((_, j)) ==> k < j <= s.len(),
    decreases s.len() - k,
{
    if 0 <= k < s.len() && s[k] != '"' {
        if s[k] == '\\' {
            if k + 1 < s.len() {
                lemma_quoted_advances(s, start, k + 2, acc.push(spec_unescape(s[k + 1])));
            }
        } else {
            lemma_quoted_advances(s, start, k + 1, acc.push(s[k]));
        }
    }
}

/// See [`lemma_quoted_advances`].
pub proof fn lemma_value_advances(s: Seq<char>, i: int)
    requires
        0 <= i,
    ensures
        spec_value(s, i) matches Ok((_, j)) ==> i < j <= s.len(),
    decreases s.len() - i, 3int,
{
    if 0 <= i < s.len() {
        let c = s[i];
        if c == '"' {
            lemma_quoted_advances(s, i + 1, i + 1, Seq::empty());
        } else if c == '[' {
            lemma_list_advances(s, i);
        } else if c == '(' {
            lemma_table_advances(s, i, false);
        } else if !spec_is_value_stop(c) {
            lemma_ident_end(s, i);
        }
    }
}

/// See [`lemma_quoted_advances`].
pub proof fn lemma_list_advances(s: Seq<char>, i: int)
    requires
        0 <= i,
    ensures
        spec_list(s, i) matches Ok((_, j)) ==> i < j <= s.len(),
    decreases s.len() - i, 2int,
{
    if let Ok(k) = spec_expect(s, i, '[', "opening `[` for list"@) {
        if k > i && spec_peek(s, k) != Some(']') {
            lemma_list_items_advances(s, k, Seq::empty());
        }
    }
}

/// See [`lemma_quoted_advances`].
pub proof fn lemma_list_items_advances(s: Seq<char>, k: int, acc: Seq<OptionModel>)
    requires
        0 <= k,
    ensures
        spec_list_items(s, k, acc) matches Ok((_, j)) ==> k < j <= s.len(),
    decreases s.len() - k, 4int,
{
    lemma_value_advances(s, k);
    if let Ok((v, j)) = spec_value(s, k) {
        if j > k && spec_peek(s, j) == Some(',') && !(spec_peek(s, j + 1) == Some(']')
            || spec_peek(s, j + 1) == Some(',')) {
            lemma_list_items_advances(s, j + 1, acc.push(v));
        }
    }
}

/// See [`lemma_quoted_advances`].
pub proof fn lemma_table_advances(s: Seq<char>, i: int, is_options: bool)
    requires
        0 <= i,
    ensures
        spec_table(s, i, is_options) matches Ok((_, j)) ==> i < j <= s.len(),
    decreases s.len() - i, 2int,
{
    if let Ok(k) = spec_expect(s, i, '(', spec_open_message(is_options)) {
        if k > i && spec_peek(s, k) != Some(')') {
            lemma_entries_advances(s, k, Seq::empty(), is_options);
        }
    }
}

/// See [`lemma_quoted_advances`].
pub proof fn lemma_entries_advances(s: Seq<char>, k: int, acc: EntriesModel, is_options: bool)
    requires
        0 <= k,
    ensures
        spec_entries(s, k, acc, is_options) matches Ok((_, j)) ==> k < j <= s.len(),
    decreases s.len() - k, 4int,
{
    if let Ok((key, k1)) = spec_key(s, k) {
        if let Ok(k2) = spec_expect(s, k1, '=', spec_equals_message(is_options)) {
            if k2 > k {
                lemma_value_advances(s, k2);
                if let Ok((v, j)) = spec_value(s, k2) {
                    if j > k2 && spec_peek(s, j) == Some(',') && !(spec_peek(s, j + 1) == Some(')')
                        || spec_peek(s, j + 1) == Some(']') || spec_peek(s, j + 1) == Some(',')) {
                        lemma_entries_advances(s, j + 1, spec_insert(acc, key, v), is_options);
                    }
                }
            }
        }
    }
}


/// Error while parsing a configuration source string.
///
/// Every variant carries the full `input` and the UTF-8 byte offset `at` of the problem.
#[derive(Debug, Clone, PartialEq, Eq)]
pub enum ParseError {
    /// No source identifier (empty input or invalid start).
    MissingSource { input: String, at: usize },
    /// Input ended before a required token.
    UnexpectedEnd { input: String, at: usize, expected: &'static str },
    /// Unexpected character at the current position.
    UnexpectedChar { input: String, at: usize, found: char, expected: &'static str },
    /// Option or map key is not a valid identifier.
    InvalidIdentifier { input: String, at: usize, found: String },
    /// Option or map key is empty.
    EmptyKey { input: String, at: usize },
    /// Option value is empty; use `""` for an empty string.
    EmptyValue { input: String, at: usize },
    /// Invalid escape sequence inside a quoted string.
    InvalidEscape { input: String, at: usize },
    /// Quoted string has no closing `"`.
    UnclosedString { input: String, at: usize },
    /// List has no closing `]`.
    UnclosedList { input: String, at: usize },
    /// Map or options block has no closing `)`.
    UnclosedMap { input: String, at: usize },
    /// Comma with no following entry.
    TrailingComma { input: String, at: usize },
    /// Token looks like a number but is not valid.
    InvalidNumber { input: String, at: usize, found: String },
    /// Non-empty input after a complete configuration source.
    TrailingInput { input: String, at: usize, rest: String },
    /// The reserved `on_error` option is malformed (bad shape, unknown stage, or bad value).
    InvalidOnError { input: String, at: usize, message: String },
}

impl View for ParseError {
    /// The input string and the error itself.
    type V = (Seq<char>, ParseErrorModel);

    open spec fn view(&self) -> (Seq<char>, ParseErrorModel) {
        match self {
            ParseError::MissingSource { input, at } => (input@, ParseErrorModel::MissingSource { at: *at as int }),
            ParseError::UnexpectedEnd { input, at, expected } => (input@, ParseErrorModel::UnexpectedEnd { at: *at as int, expected: expected@ }),
            ParseError::UnexpectedChar { input, at, found, expected } => (input@, ParseErrorModel::UnexpectedChar { at: *at as int, found: *found, expected: expected@ }),
            ParseError::InvalidIdentifier { input, at, found } => (input@, ParseErrorModel::InvalidIdentifier { at: *at as int, found: found@ }),
            ParseError::EmptyKey { input, at } => (input@, ParseErrorModel::EmptyKey { at: *at as int }),
            ParseError::EmptyValue { input, at } => (input@, ParseErrorModel::EmptyValue { at: *at as int }),
            ParseError::InvalidEscape { input, at } => (input@, ParseErrorModel::InvalidEscape { at: *at as int }),
            ParseError::UnclosedString { input, at } => (input@, ParseErrorModel::UnclosedString { at: *at as int }),
            ParseError::UnclosedList { input, at } => (input@, ParseErrorModel::UnclosedList { at: *at as int }),
            ParseError::UnclosedMap { input, at } => (input@, ParseErrorModel::UnclosedMap { at: *at as int }),
            ParseError::TrailingComma { input, at } => (input@, ParseErrorModel::TrailingComma { at: *at as int }),
            ParseError::InvalidNumber { input, at, found } => (input@, ParseErrorModel::InvalidNumber { at: *at as int, found: found@ }),
            ParseError::TrailingInput { input, at, rest } => (input@, ParseErrorModel::TrailingInput { at: *at as int, rest: rest@ }),
            ParseError::InvalidOnError { input, at, message } => (input@, ParseErrorModel::InvalidOnError { at: *at as int, message: message@ }),
        }
    }
}

impl ParseError {
    /// The full input string being parsed.
    pub fn input(&self) -> (r: &str)
        ensures
            r@ == self@.0,
    {
        match self {
            ParseError::MissingSource { input, .. } => input.as_str(),
            ParseError::UnexpectedEnd { input, .. } => input.as_str(),
            ParseError::UnexpectedChar { input, .. } => input.as_str(),
            ParseError::InvalidIdentifier { input, .. } => input.as_str(),
            ParseError::EmptyKey { input, .. } => input.as_str(),
            ParseError::EmptyValue { input, .. } => input.as_str(),
            ParseError::InvalidEscape { input, .. } => input.as_str(),
            ParseError::UnclosedString { input, .. } => input.as_str(),
            ParseError::UnclosedList { input, .. } => input.as_str(),
            ParseError::UnclosedMap { input, .. } => input.as_str(),
            ParseError::TrailingComma { input, .. } => input.as_str(),
            ParseError::InvalidNumber { input, .. } => input.as_str(),
            ParseError::TrailingInput { input, .. } => input.as_str(),
            ParseError::InvalidOnError { input, .. } => input.as_str(),
        }
    }

    /// Byte offset into the input where the error occurred.
    pub fn at(&self) -> (r: usize)
        ensures
            r == spec_error_offset(self@.1),
    {
        match self {
            ParseError::MissingSource { at, .. } => *at,
            ParseError::UnexpectedEnd { at, .. } => *at,
            ParseError::UnexpectedChar { at, .. } => *at,
            ParseError::InvalidIdentifier { at, .. } => *at,
            ParseError::EmptyKey { at, .. } => *at,
            ParseError::EmptyValue { at, .. } => *at,
            ParseError::InvalidEscape { at, .. } => *at,
            ParseError::UnclosedString { at, .. } => *at,
            ParseError::UnclosedList { at, .. } => *at,
            ParseError::UnclosedMap { at, .. } => *at,
            ParseError::TrailingComma { at, .. } => *at,
            ParseError::InvalidNumber { at, .. } => *at,
            ParseError::TrailingInput { at, .. } => *at,
            ParseError::InvalidOnError { at, .. } => *at,
        }
    }
}

/// `e` reports the grammar error `m` of input `s`, with the offset in bytes.
pub open spec fn spec_reports(e: ParseError, s: Seq<char>, m: ParseErrorModel) -> bool {
    e@ == (s, spec_error_in_bytes(s, m))
}


/// Recursive-descent parser over the characters of the input, tracking the character index
/// `pos` and its UTF-8 byte offset `byte`.
struct Parser<'a> {
    input: &'a str,
    chars: Vec<char>,
    pos: usize,
    byte: usize,
}

impl<'a> Parser<'a> {
    spec fn inv(&self) -> bool {
        &&& self.chars@ == self.input@
        &&& self.pos <= self.chars@.len()
        &&& self.byte == spec_byte_offset(self.chars@, self.pos as int)
        &&& spec_byte_len(self.chars@) <= usize::MAX
    }

    spec fn same(&self, other: &Parser<'a>) -> bool {
        self.input == other.input && self.chars@ == other.chars@
    }

    fn new(input: &'a str) -> (p: Parser<'a>)
        ensures
            p.inv(),
            p.pos == 0,
            p.input == input,
    {
        let chars = chars_of(input);
        let n = byte_len(input);
        proof {
            lemma_byte_len_is_encoding_len(input@);
        }
        Parser { input, chars, pos: 0, byte: 0 }
    }

    fn owned_input(&self) -> (r: String)
        ensures
            r@ == self.input@,
    {
        self.input.to_owned()
    }

    fn peek(&self) -> (r: Option<char>)
        requires
            self.inv(),
        ensures
            r == spec_peek(self.chars@, self.pos as int),
    {
        if self.pos < self.chars.len() {
            Some(self.chars[self.pos])
        } else {
            None
        }
    }

    fn bump(&mut self)
        requires
            old(self).inv(),
            old(self).pos < old(self).chars@.len(),
        ensures
            final(self).inv(),
            final(self).same(old(self)),
            final(self).pos == old(self).pos + 1,
    {
        let c = self.chars[self.pos];
        let w = utf8_width(c);
        proof {
            lemma_byte_offset_monotone(self.chars@, self.pos + 1, self.chars@.len() as int);
            lemma_byte_offset_monotone(self.chars@, 0, self.chars@.len() as int);
        }
        self.byte = self.byte + w;
        self.pos = self.pos + 1;
    }

    /// The characters between `start` and the current position, as a string.
    fn text_from(&self, start: usize) -> (r: String)
        requires
            self.inv(),
            start <= self.pos,
        ensures
            r@ == self.chars@.subrange(start as int, self.pos as int),
    {
        let mut r = String::new();
        let mut i = start;
        while i < self.pos
            invariant
                self.inv(),
                start <= i <= self.pos,
                r@ == self.chars@.subrange(start as int, i as int),
            decreases self.pos - i,
        {
            push_char(&mut r, self.chars[i]);
            i = i + 1;
            assert(r@ == self.chars@.subrange(start as int, i as int));
        }
        r
    }

    /// Advance over the run of identifier characters.
    fn skip_ident(&mut self)
        requires
            old(self).inv(),
        ensures
            final(self).inv(),
            final(self).same(old(self)),
            final(self).pos == spec_ident_end(old(self).chars@, old(self).pos as int),
    {
        let ghost start = self.pos as int;
        while self.pos < self.chars.len() && is_ident_char(self.chars[self.pos])
            invariant
                self.inv(),
                self.same(old(self)),
                spec_ident_end(self.chars@, self.pos as int) == spec_ident_end(self.chars@, start),
            decreases self.chars@.len() - self.pos,
        {
            self.bump();
        }
    }

    fn expect_char(&mut self, expected: char, message: &'static str) -> (r: Result<(), ParseError>)
        requires
            old(self).inv(),
        ensures
            final(self).inv(),
            final(self).same(old(self)),
            match r {
                Ok(()) => spec_expect(old(self).chars@, old(self).pos as int, expected, message@) == Ok::<int, ParseErrorModel>(final(self).pos as int),
                Err(e) => spec_expect(old(self).chars@, old(self).pos as int, expected, message@) matches Err(m) && spec_reports(e, old(self).chars@, m),
            },
    {
        match self.peek() {
            Some(found) => {
                if found == expected {
                    self.bump();
                    Ok(())
                } else {
                    Err(ParseError::UnexpectedChar { input: self.owned_input(), at: self.byte, found, expected: message })
                }
            },
            None => Err(ParseError::UnexpectedEnd { input: self.owned_input(), at: self.byte, expected: message }),
        }
    }

    fn parse_key(&mut self) -> (r: Result<String, ParseError>)
        requires
            old(self).inv(),
        ensures
            final(self).inv(),
            final(self).same(old(self)),
            match r {
                Ok(k) => spec_key(old(self).chars@, old(self).pos as int) == Ok::<(Seq<char>, int), ParseErrorModel>((k@, final(self).pos as int)),
                Err(e) => spec_key(old(self).chars@, old(self).pos as int) matches Err(m) && spec_reports(e, old(self).chars@, m),
            },
    {
        let start = self.pos;
        match self.peek() {
            Some(c) => {
                if is_ident_start(c) {
                    proof {
                        lemma_ident_end(self.chars@, self.pos as int);
                    }
                    self.skip_ident();
                    Ok(self.text_from(start))
                } else if c == '=' {
                    Err(ParseError::EmptyKey { input: self.owned_input(), at: self.byte })
                } else {
                    Err(ParseError::UnexpectedChar { input: self.owned_input(), at: self.byte, found: c, expected: "option key" })
                }
            },
            None => Err(ParseError::InvalidIdentifier { input: self.owned_input(), at: self.byte, found: "end of input".to_owned() }),
        }
    }

    fn parse_quoted_string(&mut self) -> (r: Result<String, ParseError>)
        requires
            old(self).inv(),
            spec_peek(old(self).chars@, old(self).pos as int) == Some('"'),
        ensures
            final(self).inv(),
            final(self).same(old(self)),
            match r {
                Ok(t) => spec_quoted(old(self).chars@, old(self).pos + 1, old(self).pos + 1, Seq::empty()) == Ok::<(Seq<char>, int), ParseErrorModel>((t@, final(self).pos as int)),
                Err(e) => spec_quoted(old(self).chars@, old(self).pos + 1, old(self).pos + 1, Seq::empty()) matches Err(m) && spec_reports(e, old(self).chars@, m),
            },
    {
        self.bump();
        let start = self.pos;
        let start_byte = self.byte;
        let ghost target = spec_quoted(self.chars@, start as int, start as int, Seq::empty());
        let mut value = String::new();
        loop
            invariant
                self.inv(),
                self.same(old(self)),
                start <= self.pos,
                start == old(self).pos + 1,
                start_byte == spec_byte_offset(self.chars@, start as int),
                target == spec_quoted(self.chars@, start as int, start as int, Seq::empty()),
                spec_quoted(self.chars@, start as int, self.pos as int, value@) == target,
            decreases self.chars@.len() - self.pos,
        {
            match self.peek() {
                None => {
                    return Err(ParseError::UnclosedString { input: self.owned_input(), at: start_byte });
                },
                Some(ch) => {
                    if ch == '"' {
                        self.bump();
                        return Ok(value);
                    }
                    if ch == '\\' {
                        let escape_byte = self.byte;
                        self.bump();
                        match self.peek() {
                            None => {
                                return Err(ParseError::UnclosedString { input: self.owned_input(), at: start_byte });
                            },
                            Some(escaped) => {
                                let decoded = if escaped == '"' {
                                    '"'
                                } else if escaped == '\\' {
                                    '\\'
                                } else if escaped == 'n' {
                                    '\n'
                                } else if escaped == 'r' {
                                    '\r'
                                } else if escaped == 't' {
                                    '\t'
                                } else {
                                    return Err(ParseError::InvalidEscape { input: self.owned_input(), at: escape_byte });
                                };
                                push_char(&mut value, decoded);
                                self.bump();
                            },
                        }
                    } else {
                        self.bump();
                        push_char(&mut value, ch);
                    }
                },
            }
        }
    }
}

/// Where the first `c` in `t` is: every earlier character differs from `c`.
pub proof fn lemma_first_index(t: Seq<char>, c: char)
    ensures
        0 <= spec_first_index(t, c) <= t.len(),
        forall|k: int| 0 <= k < spec_first_index(t, c) ==> t[k] != c,
        spec_first_index(t, c) < t.len() ==> t[spec_first_index(t, c)] == c,
    decreases t.len(),
{
    if t.len() > 0 && t[0] != c {
        lemma_first_index(t.drop_first(), c);
        assert forall|k: int| 0 <= k < spec_first_index(t, c) implies t[k] != c by {
            if k > 0 {
                assert(t[k] == t.drop_first()[k - 1]);
            }
        }
    }
}

/// A longer prefix of a digit run has at least the value of a shorter one.
pub proof fn lemma_digits_value_monotone(d: Seq<char>, i: int, j: int)
    requires
        0 <= i <= j <= d.len(),
        spec_all_digits(d),
    ensures
        spec_digits_value(d.subrange(0, i)) <= spec_digits_value(d.subrange(0, j)),
    decreases j - i,
{
    if i < j {
        lemma_digits_value_monotone(d, i, j - 1);
        assert(d.subrange(0, j).drop_last() =~= d.subrange(0, j - 1));
        assert(spec_is_digit(d[j - 1]));
    }
}

/// `true` when `t` contains `c`.
pub(crate) fn contains_char(t: &[char], c: char) -> (r: bool)
    ensures
        r == spec_contains(t@, c),
{
    let mut i: usize = 0;
    while i < t.len()
        invariant
            0 <= i <= t@.len(),
            forall|k: int| 0 <= k < i ==> t@[k] != c,
        decreases t@.len() - i,
    {
        if t[i] == c {
            return true;
        }
        i = i + 1;
    }
    false
}

/// `true` when `t[from..to]` is all ASCII digits.
fn digits_between(t: &[char], from: usize, to: usize) -> (r: bool)
    requires
        from <= to <= t@.len(),
    ensures
        r == spec_all_digits(t@.subrange(from as int, to as int)),
{
    let mut i = from;
    while i < to
        invariant
            from <= i <= to <= t@.len(),
            forall|k: int| from <= k < i ==> spec_is_digit(t@[k]),
        decreases to - i,
    {
        if !is_digit(t[i]) {
            assert(!spec_is_digit(t@.subrange(from as int, to as int)[i - from]));
            return false;
        }
        i = i + 1;
    }
    assert forall|k: int| 0 <= k < to - from implies spec_is_digit(#[trigger] t@.subrange(from as int, to as int)[k]) by {
        assert(t@.subrange(from as int, to as int)[k] == t@[from + k]);
    }
    true
}

/// Length of the leading `-` of a token (0 or 1).
fn minus_len(t: &[char]) -> (r: usize)
    ensures
        r <= t@.len(),
        t@.subrange(r as int, t@.len() as int) == spec_strip_minus(t@),
        (r == 1) == (t@.len() > 0 && t@[0] == '-'),
{
    if t.len() > 0 && t[0] == '-' {
        assert(t@.subrange(1, t@.len() as int) =~= t@.drop_first());
        1
    } else {
        assert(t@.subrange(0, t@.len() as int) =~= t@);
        0
    }
}

/// Exec form of [`spec_is_int_token`].
pub(crate) fn is_int_token(t: &[char]) -> (r: bool)
    ensures
        r == spec_is_int_token(t@),
{
    let b = minus_len(t);
    b < t.len() && digits_between(t, b, t.len())
}

/// Index of the first `c` in `t[from..]`, or `t.len()`.
fn first_index_from(t: &[char], from: usize, c: char) -> (r: usize)
    requires
        from <= t@.len(),
    ensures
        r == from + spec_first_index(t@.subrange(from as int, t@.len() as int), c),
{
    let ghost body = t@.subrange(from as int, t@.len() as int);
    proof {
        lemma_first_index(body, c);
    }
    let mut i = from;
    while i < t.len()
        invariant
            from <= i <= t@.len(),
            body == t@.subrange(from as int, t@.len() as int),
            forall|k: int| from <= k < i ==> t@[k] != c,
            0 <= spec_first_index(body, c) <= body.len(),
            forall|k: int| 0 <= k < spec_first_index(body, c) ==> body[k] != c,
            spec_first_index(body, c) < body.len() ==> body[spec_first_index(body, c)] == c,
        decreases t@.len() - i,
    {
        if t[i] == c {
            assert(body[i - from] == c);
            return i;
        }
        i = i + 1;
    }
    i
}

/// Exec form of [`spec_is_float_token`].
pub(crate) fn is_float_token(t: &[char]) -> (r: bool)
    ensures
        r == spec_is_float_token(t@),
{
    let b = minus_len(t);
    let dot = first_index_from(t, b, '.');
    let ghost body = spec_strip_minus(t@);
    if dot < t.len() && dot > b && dot + 1 < t.len() {
        assert(body.subrange(0, dot - b) =~= t@.subrange(b as int, dot as int));
        assert(body.subrange(dot - b + 1, body.len() as int) =~= t@.subrange(dot + 1, t@.len() as int));
        digits_between(t, b, dot) && digits_between(t, dot + 1, t.len())
    } else {
        false
    }
}

/// The value of an integer token, or `None` when it does not fit in an `i64`.
fn int_token_value(t: &[char]) -> (r: Option<i64>)
    requires
        spec_is_int_token(t@),
    ensures
        match r {
            Some(v) => v as int == spec_int_value(t@),
            None => !(i64::MIN <= spec_int_value(t@) <= i64::MAX),
        },
{
    let b = minus_len(t);
    let ghost body = t@.subrange(b as int, t@.len() as int);
    let mut acc: u128 = 0;
    let mut i = b;
    assert(body.subrange(0, 0) =~= Seq::<char>::empty());
    while i < t.len()
        invariant
            b <= i <= t@.len(),
            body == t@.subrange(b as int, t@.len() as int),
            body == spec_strip_minus(t@),
            spec_all_digits(body),
            acc == spec_digits_value(body.subrange(0, i - b)),
            acc <= 9223372036854775808,
        decreases t@.len() - i,
    {
        assert(spec_is_digit(body[i - b]));
        assert(body[i - b] == t@[i as int]);
        let d: u128 = ((t[i] as u32) - 48) as u128;
        acc = acc * 10 + d;
        i = i + 1;
        assert(body.subrange(0, i - b).drop_last() =~= body.subrange(0, i - b - 1));
        if acc > 9223372036854775808 {
            proof {
                lemma_digits_value_monotone(body, i - b, body.len() as int);
                assert(body.subrange(0, body.len() as int) =~= body);
            }
            return None;
        }
    }
    assert(body.subrange(0, body.len() as int) =~= body);
    if b == 1 {
        assert(t@.drop_first() =~= body);
        let wide: i128 = acc as i128;
        Some((-wide) as i64)
    } else {
        assert(t@ =~= body);
        if acc > 9223372036854775807 {
            None
        } else {
            Some(acc as i64)
        }
    }
}

/// Appends `src[from..to]` to `v`.
fn push_range(v: &mut Vec<char>, src: &[char], from: usize, to: usize)
    requires
        from <= to <= src@.len(),
    ensures
        final(v)@ == old(v)@ + src@.subrange(from as int, to as int),
{
    let mut i = from;
    while i < to
        invariant
            from <= i <= to <= src@.len(),
            v@ == old(v)@ + src@.subrange(from as int, i as int),
        decreases to - i,
    {
        v.push(src[i]);
        i = i + 1;
        assert(v@ == old(v)@ + src@.subrange(from as int, i as int));
    }
}

/// Exec form of [`spec_canonical_float`].
fn canonical_float(t: &[char]) -> (r: Vec<char>)
    requires
        spec_is_float_token(t@),
    ensures
        r@ == spec_canonical_float(t@),
{
    let b = minus_len(t);
    let dot = first_index_from(t, b, '.');
    let ghost body = spec_strip_minus(t@);
    let ghost whole = body.subrange(0, dot - b);
    let ghost fraction = body.subrange(dot - b + 1, body.len() as int);
    let mut ws = b;
    assert(whole =~= t@.subrange(b as int, dot as int));
    while ws + 1 < dot && t[ws] == '0'
        invariant
            b <= ws < dot < t@.len(),
            spec_trim_leading_zeros(whole) == spec_trim_leading_zeros(t@.subrange(ws as int, dot as int)),
        decreases dot - ws,
    {
        assert(t@.subrange(ws as int, dot as int).drop_first() =~= t@.subrange(ws + 1, dot as int));
        ws = ws + 1;
    }
    let mut fe = t.len();
    assert(fraction =~= t@.subrange(dot + 1, t@.len() as int));
    while fe > dot + 2 && t[fe - 1] == '0'
        invariant
            dot + 2 <= fe <= t@.len() || fe == dot + 2,
            dot + 1 < fe <= t@.len(),
            spec_trim_trailing_zeros(fraction) == spec_trim_trailing_zeros(t@.subrange(dot + 1, fe as int)),
        decreases fe,
    {
        assert(t@.subrange(dot + 1, fe as int).drop_last() =~= t@.subrange(dot + 1, fe - 1));
        fe = fe - 1;
    }
    let mut r: Vec<char> = Vec::new();
    if b == 1 {
        r.push('-');
    }
    push_range(&mut r, t, ws, dot);
    r.push('.');
    push_range(&mut r, t, dot + 1, fe);
    assert(r@ =~= spec_canonical_float(t@));
    r
}

/// A copy of `src[from..to]`.
fn copy_range(src: &[char], from: usize, to: usize) -> (r: Vec<char>)
    requires
        from <= to <= src@.len(),
    ensures
        r@ == src@.subrange(from as int, to as int),
{
    let mut r: Vec<char> = Vec::new();
    push_range(&mut r, src, from, to);
    assert(r@ =~= src@.subrange(from as int, to as int));
    r
}



/// The problem with the reserved `on_error` option, or `None` when it is absent or well formed.
fn validate_on_error(options: &Options) -> (r: Option<String>)
    ensures
        match r {
            Some(m) => spec_validate_on_error(options@) == Some(m@),
            None => spec_validate_on_error(options@) is None,
        },
{
    match options.get("on_error") {
        None => None,
        Some(value) => match value {
            OptionValue::Table(map) => {
                let entries = map.entries();
                let ghost m = map@;
                assert(spec_validate_on_error(options@) == spec_check_stages(m, 0));
                let mut i: usize = 0;
                while i < entries.len()
                    invariant
                        entries_model(entries@) == m,
                        0 <= i <= entries@.len(),
                        spec_check_stages(m, 0) == spec_check_stages(m, i as int),
                        spec_validate_on_error(options@) == spec_check_stages(m, 0),
                    decreases entries@.len() - i,
                {
                    let stage = entries[i].0.as_str();
                    let policy = &entries[i].1;
                    assert(m[i as int] == (stage@, policy@));
                    if !(str_equal(stage, "load") || str_equal(stage, "parse") || str_equal(stage, "validate")) {
                        let mut message = "unknown `on_error` stage `".to_owned();
                        message.append(stage);
                        message.append("`; expected load, parse, or validate");
                        return Some(message);
                    }
                    let ok = match policy {
                        OptionValue::String(text) => str_eq_ignore_ascii_case(text.as_str(), "skip")
                            || str_eq_ignore_ascii_case(text.as_str(), "fail"),
                        _ => false,
                    };
                    if !ok {
                        let mut message = "`on_error` policy for `".to_owned();
                        message.append(stage);
                        message.append("` must be `skip` or `fail`, found `");
                        let shown = policy.to_display_string();
                        message.append(shown.as_str());
                        message.append("`");
                        return Some(message);
                    }
                    i = i + 1;
                }
                None
            },
            _ => {
                let mut message = "`on_error` must be a map like `(load=skip)`, found ".to_owned();
                message.append(value.value_type().as_str());
                Some(message)
            },
        },
    }
}

impl<'a> Parser<'a> {
    /// The characters from the current position to the end, as a string.
    fn rest_text(&self) -> (r: String)
        requires
            self.inv(),
        ensures
            r@ == self.chars@.subrange(self.pos as int, self.chars@.len() as int),
    {
        let mut r = String::new();
        let mut i = self.pos;
        while i < self.chars.len()
            invariant
                self.inv(),
                self.pos <= i <= self.chars@.len(),
                r@ == self.chars@.subrange(self.pos as int, i as int),
            decreases self.chars@.len() - i,
        {
            push_char(&mut r, self.chars[i]);
            i = i + 1;
            assert(r@ == self.chars@.subrange(self.pos as int, i as int));
        }
        r
    }

    fn parse_value(&mut self) -> (r: Result<OptionValue, ParseError>)
        requires
            old(self).inv(),
        ensures
            final(self).inv(),
            final(self).same(old(self)),
            match r {
                Ok(v) => spec_value(old(self).chars@, old(self).pos as int) == Ok::<(OptionModel, int), ParseErrorModel>((v@, final(self).pos as int)),
                Err(e) => spec_value(old(self).chars@, old(self).pos as int) matches Err(m) && spec_reports(e, old(self).chars@, m),
            },
        decreases old(self).chars@.len() - old(self).pos, 3int,
    {
        match self.peek() {
            None => Err(ParseError::EmptyValue { input: self.owned_input(), at: self.byte }),
            Some(c) => {
                if c == '"' {
                    match self.parse_quoted_string() {
                        Ok(t) => Ok(OptionValue::String(t)),
                        Err(e) => Err(e),
                    }
                } else if c == '[' {
                    self.parse_list_value()
                } else if c == '(' {
                    match self.parse_table(false) {
                        Ok(o) => Ok(OptionValue::Table(o)),
                        Err(e) => Err(e),
                    }
                } else if c == '=' || c == ',' || c == ')' || c == ']' || c == ':' || c == '?' {
                    Err(ParseError::EmptyValue { input: self.owned_input(), at: self.byte })
                } else {
                    let start = self.pos;
                    let start_byte = self.byte;
                    proof {
                        lemma_ident_end(self.chars@, self.pos as int);
                    }
                    self.skip_ident();
                    if self.pos == start {
                        return Err(ParseError::UnexpectedChar { input: self.owned_input(), at: start_byte, found: c, expected: "value" });
                    }
                    let token = copy_range(self.chars.as_slice(), start, self.pos);
                    let t = token.as_slice();
                    let truth = chars_of("true");
                    let falsity = chars_of("false");
                    if eq_ignore_ascii_case(t, truth.as_slice()) {
                        Ok(OptionValue::Bool(true))
                    } else if eq_ignore_ascii_case(t, falsity.as_slice()) {
                        Ok(OptionValue::Bool(false))
                    } else if contains_char(t, '.') {
                        if is_float_token(t) {
                            let text = canonical_float(t);
                            Ok(OptionValue::Float(string_from_chars(text.as_slice())))
                        } else {
                            Err(ParseError::InvalidNumber { input: self.owned_input(), at: start_byte, found: string_from_chars(t) })
                        }
                    } else if is_int_token(t) {
                        match int_token_value(t) {
                            Some(v) => Ok(OptionValue::Integer(v)),
                            None => Err(ParseError::InvalidNumber { input: self.owned_input(), at: start_byte, found: string_from_chars(t) }),
                        }
                    } else {
                        Ok(OptionValue::String(string_from_chars(t)))
                    }
                }
            },
        }
    }

    fn parse_list_value(&mut self) -> (r: Result<OptionValue, ParseError>)
        requires
            old(self).inv(),
        ensures
            final(self).inv(),
            final(self).same(old(self)),
            match r {
                Ok(v) => spec_list(old(self).chars@, old(self).pos as int) == Ok::<(OptionModel, int), ParseErrorModel>((v@, final(self).pos as int)),
                Err(e) => spec_list(old(self).chars@, old(self).pos as int) matches Err(m) && spec_reports(e, old(self).chars@, m),
            },
        decreases old(self).chars@.len() - old(self).pos, 2int,
    {
        let ghost s = self.chars@;
        let ghost i0 = self.pos as int;
        match self.expect_char('[', "opening `[` for list") {
            Ok(()) => {},
            Err(e) => return Err(e),
        }
        if self.peek() == Some(']') {
            self.bump();
            let r = OptionValue::List(Vec::new());
            assert(r@->List_0 =~= Seq::<OptionModel>::empty());
            return Ok(r);
        }
        let ghost target = spec_list(s, i0);
        let mut values: Vec<OptionValue> = Vec::new();
        assert(list_model(values@) =~= Seq::<OptionModel>::empty());
        loop
            invariant
                self.inv(),
                self.same(old(self)),
                s == self.chars@,
                i0 == old(self).pos,
                self.pos > i0,
                target == spec_list(s, i0),
                spec_list_items(s, self.pos as int, list_model(values@)) == target,
            decreases self.chars@.len() - self.pos,
        {
            let ghost k = self.pos as int;
            proof {
                lemma_value_advances(s, k);
            }
            let value = match self.parse_value() {
                Ok(v) => v,
                Err(e) => return Err(e),
            };
            let ghost vm = value@;
            match self.peek() {
                Some(c) => {
                    if c == ',' {
                        self.bump();
                        let next = self.peek();
                        if next == Some(']') || next == Some(',') {
                            return Err(ParseError::TrailingComma { input: self.owned_input(), at: self.byte });
                        }
                        let ghost before = list_model(values@);
                        values.push(value);
                        assert(list_model(values@) =~= before.push(vm));
                    } else if c == ']' {
                        self.bump();
                        let ghost before = list_model(values@);
                        values.push(value);
                        let r = OptionValue::List(values);
                        assert(r@->List_0 =~= before.push(vm));
                        return Ok(r);
                    } else {
                        return Err(ParseError::UnexpectedChar { input: self.owned_input(), at: self.byte, found: c, expected: "`,` or `]`" });
                    }
                },
                None => return Err(ParseError::UnclosedList { input: self.owned_input(), at: self.byte }),
            }
        }
    }

    fn parse_table(&mut self, is_options: bool) -> (r: Result<Options, ParseError>)
        requires
            old(self).inv(),
        ensures
            final(self).inv(),
            final(self).same(old(self)),
            match r {
                Ok(o) => spec_table(old(self).chars@, old(self).pos as int, is_options) == Ok::<(EntriesModel, int), ParseErrorModel>((o@, final(self).pos as int)),
                Err(e) => spec_table(old(self).chars@, old(self).pos as int, is_options) matches Err(m) && spec_reports(e, old(self).chars@, m),
            },
        decreases old(self).chars@.len() - old(self).pos, 2int,
    {
        let ghost s = self.chars@;
        let ghost i0 = self.pos as int;
        let open_message = if is_options { "opening `(` for options" } else { "opening `(` for map" };
        let equals_message = if is_options { "option value after `=`" } else { "map value after `=`" };
        assert(open_message@ == spec_open_message(is_options));
        assert(equals_message@ == spec_equals_message(is_options));
        match self.expect_char('(', open_message) {
            Ok(()) => {},
            Err(e) => return Err(e),
        }
        let mut options = Options::new();
        if self.peek() == Some(')') {
            self.bump();
            return Ok(options);
        }
        let ghost target = spec_table(s, i0, is_options);
        loop
            invariant
                self.inv(),
                self.same(old(self)),
                s == self.chars@,
                i0 == old(self).pos,
                self.pos > i0,
                equals_message@ == spec_equals_message(is_options),
                target == spec_table(s, i0, is_options),
                spec_entries(s, self.pos as int, options@, is_options) == target,
            decreases self.chars@.len() - self.pos,
        {
            let ghost k = self.pos as int;
            proof {
                lemma_ident_end(s, k);
            }
            let key = match self.parse_key() {
                Ok(key) => key,
                Err(e) => return Err(e),
            };
            match self.expect_char('=', equals_message) {
                Ok(()) => {},
                Err(e) => return Err(e),
            }
            let ghost k2 = self.pos as int;
            proof {
                lemma_value_advances(s, k2);
            }
            let value = match self.parse_value() {
                Ok(v) => v,
                Err(e) => return Err(e),
            };
            options.insert(key, value);
            match self.peek() {
                Some(c) => {
                    if c == ',' {
                        self.bump();
                        let next = self.peek();
                        if next == Some(')') || next == Some(']') || next == Some(',') {
                            return Err(ParseError::TrailingComma { input: self.owned_input(), at: self.byte });
                        }
                    } else if c == ')' {
                        self.bump();
                        return Ok(options);
                    } else {
                        return Err(ParseError::UnexpectedChar { input: self.owned_input(), at: self.byte, found: c, expected: "`,` or `)`" });
                    }
                },
                None => return Err(ParseError::UnclosedMap { input: self.owned_input(), at: self.byte }),
            }
        }
    }
}

/// Parse a `SOURCE[(OPTIONS)][:RESOURCE]` configuration source string: exactly what
/// [`spec_parse`] states, with error offsets turned into UTF-8 byte offsets.
pub fn parse(input: &str) -> (r: Result<Source, ParseError>)
    ensures
        match r {
            Ok(src) => spec_parse_result(input@) == Ok::<SourceModel, ParseErrorModel>(src@),
            Err(e) => spec_parse_result(input@) == Err::<SourceModel, ParseErrorModel>(e@.1) && e@.0 == input@,
        },
{
    let mut p = Parser::new(input);
    let ghost s = p.chars@;
    match p.peek() {
        Some(c) => {
            if !is_ident_start(c) {
                return Err(ParseError::UnexpectedChar { input: p.owned_input(), at: 0, found: c, expected: "source identifier" });
            }
        },
        None => return Err(ParseError::MissingSource { input: p.owned_input(), at: 0 }),
    }
    proof {
        lemma_ident_end(s, 0);
    }
    p.skip_ident();
    let source = p.text_from(0);
    let options_at = p.byte;
    let ghost j = p.pos as int;
    let options = if p.peek() == Some('(') {
        match p.parse_table(true) {
            Ok(o) => o,
            Err(e) => return Err(e),
        }
    } else {
        let o = Options::new();
        o
    };
    let ghost k = p.pos as int;
    let colon = p.peek() == Some(':');
    let resource = if colon {
        p.bump();
        let r = p.rest_text();
        r
    } else {
        String::new()
    };
    if !colon && p.pos < p.chars.len() {
        return Err(ParseError::TrailingInput { input: p.owned_input(), at: p.byte, rest: p.rest_text() });
    }
    match validate_on_error(&options) {
        Some(message) => Err(ParseError::InvalidOnError { input: p.owned_input(), at: options_at, message }),
        None => Ok(Source::from_parts(source, options, resource, colon)),
    }
}


/// The message of a parse error, without its position.
pub open spec fn spec_error_message(e: ParseErrorModel) -> Seq<char> {
    match e {
        ParseErrorModel::MissingSource { .. } => "configuration source is required"@,
        ParseErrorModel::UnexpectedEnd { expected, .. } => "configuration source: expected "@ + expected + ", found end of input"@,
        ParseErrorModel::UnexpectedChar { found, expected, .. } => "configuration source: expected "@ + expected + ", found `"@ + seq![found] + "`"@,
        ParseErrorModel::InvalidIdentifier { found, .. } => "configuration source: invalid identifier `"@ + found + "`"@,
        ParseErrorModel::EmptyKey { .. } => "configuration source option key cannot be empty"@,
        ParseErrorModel::EmptyValue { .. } => "configuration source option value cannot be empty; use \"\""@,
        ParseErrorModel::InvalidEscape { .. } => "configuration source: invalid escape sequence in string"@,
        ParseErrorModel::UnclosedString { .. } => "configuration source: unclosed string"@,
        ParseErrorModel::UnclosedList { .. } => "configuration source: unclosed list"@,
        ParseErrorModel::UnclosedMap { .. } => "configuration source: unclosed map"@,
        ParseErrorModel::TrailingComma { .. } => "configuration source: trailing comma"@,
        ParseErrorModel::InvalidNumber { found, .. } => "configuration source: invalid number `"@ + found + "`"@,
        ParseErrorModel::TrailingInput { rest, .. } => "configuration source: unexpected trailing input `"@ + rest + "`"@,
        ParseErrorModel::InvalidOnError { message, .. } => "configuration source: "@ + message,
    }
}

/// `n` spaces.
pub open spec fn spec_spaces(n: nat) -> Seq<char> {
    Seq::new(n, |i: int| ' ')
}

/// The `Display` text of a parse error of `input`: one line with the 1-based byte column and the
/// message; the alternate form adds the input and a caret under the offending byte.
pub open spec fn spec_error_display(input: Seq<char>, e: ParseErrorModel, alternate: bool) -> Seq<char> {
    let at = spec_error_offset(e);
    "invalid configuration source at column "@ + crate::text::spec_nat_text((at + 1) as nat) + ": "@
        + spec_error_message(e) + if alternate {
        "\n  "@ + input + "\n  "@ + spec_spaces(at as nat) + "^"@
    } else {
        Seq::empty()
    }
}

impl ParseError {
    /// The message of this error, without its position.
    fn message(&self) -> (r: String)
        ensures
            r@ == spec_error_message(self@.1),
    {
        match self {
            ParseError::MissingSource { .. } => "configuration source is required".to_owned(),
            ParseError::UnexpectedEnd { expected, .. } => {
                let mut m = "configuration source: expected ".to_owned();
                m.append(expected);
                m.append(", found end of input");
                m
            },
            ParseError::UnexpectedChar { found, expected, .. } => {
                let mut m = "configuration source: expected ".to_owned();
                m.append(expected);
                m.append(", found `");
                push_char(&mut m, *found);
                m.append("`");
                m
            },
            ParseError::InvalidIdentifier { found, .. } => {
                let mut m = "configuration source: invalid identifier `".to_owned();
                m.append(found.as_str());
                m.append("`");
                m
            },
            ParseError::EmptyKey { .. } => "configuration source option key cannot be empty".to_owned(),
            ParseError::EmptyValue { .. } => "configuration source option value cannot be empty; use \"\"".to_owned(),
            ParseError::InvalidEscape { .. } => "configuration source: invalid escape sequence in string".to_owned(),
            ParseError::UnclosedString { .. } => "configuration source: unclosed string".to_owned(),
            ParseError::UnclosedList { .. } => "configuration source: unclosed list".to_owned(),
            ParseError::UnclosedMap { .. } => "configuration source: unclosed map".to_owned(),
            ParseError::TrailingComma { .. } => "configuration source: trailing comma".to_owned(),
            ParseError::InvalidNumber { found, .. } => {
                let mut m = "configuration source: invalid number `".to_owned();
                m.append(found.as_str());
                m.append("`");
                m
            },
            ParseError::TrailingInput { rest, .. } => {
                let mut m = "configuration source: unexpected trailing input `".to_owned();
                m.append(rest.as_str());
                m.append("`");
                m
            },
            ParseError::InvalidOnError { message, .. } => {
                let mut m = "configuration source: ".to_owned();
                m.append(message.as_str());
                m
            },
        }
    }

    /// The `Display` text of this error (see [`spec_error_display`]); `alternate` selects the
    /// multi-line form with the input and a caret.
    pub fn to_display_string(&self, alternate: bool) -> (r: String)
        ensures
            r@ == spec_error_display(self@.0, self@.1, alternate),
    {
        let at = self.at();
        let mut out = "invalid configuration source at column ".to_owned();
        let column = crate::text::u128_text((at as u128) + 1);
        crate::text::push_chars(&mut out, column.as_slice());
        out.append(": ");
        let message = self.message();
        out.append(message.as_str());
        if alternate {
            out.append("\n  ");
            out.append(self.input());
            out.append("\n  ");
            let ghost base = out@;
            let mut i: usize = 0;
            while i < at
                invariant
                    0 <= i <= at,
                    out@ == base + spec_spaces(i as nat),
                decreases at - i,
            {
                push_char(&mut out, ' ');
                i = i + 1;
                assert(out@ =~= base + spec_spaces(i as nat));
            }
            out.append("^");
        }
        assert(out@ =~= spec_error_display(self@.0, self@.1, alternate));
        out
    }
}

} // verus!
