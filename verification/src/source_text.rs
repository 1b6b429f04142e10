//! The canonical text of a [`Source`](crate::source::Source): what its `Display` writes.

use vstd::prelude::*;
use crate::text::{spec_is_ident_char, spec_eq_ignore_ascii_case, spec_int_text};
use crate::source::{OptionModel, EntriesModel, SourceModel};
use crate::source_parse::{spec_is_int_token, spec_is_float_token, spec_bool_text, spec_contains};

verus! {

/// `true` when every character of `t` may appear in an unquoted token.
pub open spec fn spec_all_ident(t: Seq<char>) -> bool {
    forall|i: int| 0 <= i < t.len() ==> spec_is_ident_char(#[trigger] t[i])
}

/// A string option is written in quotes when it is empty, holds a character outside unquoted
/// tokens, would read back as a boolean or an integer, or holds a `.` (an unquoted token with a
/// dot reads back as a number, or is refused as a malformed one).
pub open spec fn spec_needs_quotes(t: Seq<char>) -> bool {
    t.len() == 0 || !spec_all_ident(t) || spec_eq_ignore_ascii_case(t, "true"@)
        || spec_eq_ignore_ascii_case(t, "false"@) || spec_is_int_token(t) || spec_contains(t, '.')
}

/// The escaped form of one character inside a quoted string.
pub open spec fn spec_escape_char(c: char) -> Seq<char> {
    if c == '"' {
        seq!['\\', '"']
    } else if c == '\\' {
        seq!['\\', '\\']
    } else if c == '\n' {
        seq!['\\', 'n']
    } else if c == '\r' {
        seq!['\\', 'r']
    } else if c == '\t' {
        seq!['\\', 't']
    } else {
        seq![c]
    }
}

/// `t` with every character escaped.
pub open spec fn spec_escape(t: Seq<char>) -> Seq<char>
    decreases t.len(),
{
    if t.len() == 0 {
        Seq::empty()
    } else {
        spec_escape(t.drop_last()) + spec_escape_char(t.last())
    }
}

/// How a string option is written: bare, or quoted and escaped (see [`spec_needs_quotes`]).
pub open spec fn spec_string_form(t: Seq<char>) -> Seq<char> {
    if spec_needs_quotes(t) {
        seq!['"'] + spec_escape(t) + seq!['"']
    } else {
        t
    }
}

/// How an option value is written in a source string.
pub open spec fn spec_option_text(v: OptionModel) -> Seq<char>
    decreases v, 0int,
{
    match v {
        OptionModel::Bool(b) => spec_bool_text(b),
        OptionModel::Integer(i) => spec_int_text(i as int),
        OptionModel::Float(t) => t,
        OptionModel::Str(t) => spec_string_form(t),
        OptionModel::List(l) => seq!['['] + spec_items_text(l, l.len() as int) + seq![']'],
        OptionModel::Table(e) => seq!['('] + spec_entries_text(e, e.len() as int) + seq![')'],
    }
}

/// The first `n` list items, written and joined by `,`.
pub open spec fn spec_items_text(l: Seq<OptionModel>, n: int) -> Seq<char>
    decreases l, n,
{
    if n <= 0 || n > l.len() {
        Seq::empty()
    } else if n == 1 {
        spec_option_text(l[0])
    } else {
        spec_items_text(l, n - 1) + seq![','] + spec_option_text(l[n - 1])
    }
}

/// One `key=value` entry.
pub open spec fn spec_entry_text(key: Seq<char>, v: OptionModel) -> Seq<char>
    decreases v, 1int,
{
    key + seq!['='] + spec_option_text(v)
}

/// The first `n` entries, written as `key=value` and joined by `,`.
pub open spec fn spec_entries_text(e: EntriesModel, n: int) -> Seq<char>
    decreases e, n,
{
    if n <= 0 || n > e.len() {
        Seq::empty()
    } else if n == 1 {
        e[0].0 + seq!['='] + spec_option_text(e[0].1)
    } else {
        spec_entries_text(e, n - 1) + seq![','] + e[n - 1].0 + seq!['='] + spec_option_text(e[n - 1].1)
    }
}

/// The canonical text of a source: `SOURCE`, then `(OPTIONS)` when there are options, then
/// `:RESOURCE` when the separator was given or the resource is not empty.
pub open spec fn spec_source_text(m: SourceModel) -> Seq<char> {
    m.source + (if m.options.len() > 0 {
        seq!['('] + spec_entries_text(m.options, m.options.len() as int) + seq![')']
    } else {
        Seq::empty()
    }) + (if m.resource_colon || m.resource.len() > 0 {
        seq![':'] + m.resource
    } else {
        Seq::empty()
    })
}

} // verus!
