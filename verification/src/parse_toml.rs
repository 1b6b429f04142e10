//! TOML parser: the document `toml_edit` reads, turned into located values with their comments.
//!
//! - Tables and inline tables become maps, arrays and arrays of tables become lists, strings,
//!   integers, floating-point numbers (as their `Debug` text) and booleans the matching values.
//!   A date-time has no configuration representation and is rejected.
//! - Every node carries the line and column where its span starts and, when its span is not
//!   empty, its length in characters; single-line input carries no positions.
//! - `#` comments on the lines before a key (or a table header) become its "before" comments, the
//!   first comment after a value on its line its "after" comment. Inside an array, a lone comment
//!   after an element's comma, or a first comment line written as ` #`, belongs to the element
//!   before it.

use vstd::prelude::*;
use crate::source::{Source, SourceModel};
use crate::value::{
    Value, ValueModel, LocatedValue, LocatedModel, Location, LocationModel, Table, TableModel,
    Comment, CommentModel, Error, spec_table_insert, spec_no_comment, spec_texts, spec_opt_text,
    located_models, lemma_list_model,
};
use crate::span::{
    is_single_line, spec_is_single_line, line_column, spec_line_column, span_char_count,
    spec_char_count, str_slice, spec_str_slice,
};
use crate::text::{
    utf8_text, chars_of, string_from_chars, sub_chars, trim_chars, trim_start_chars,
    starts_with_chars, find_char_from, spec_trim, spec_trim_start, spec_find_char,
    spec_starts_with, lemma_decode_len,
};
use toml_edit::{ImDocument, Item as EditItem, RawString, Table as EditTable, Value as EditValue};

verus! {

/// The decoration text around a TOML node (white space and comments), as the document holds it.
pub enum TomlRaw {
    /// Text held by the document itself.
    Text(String),
    /// The byte range of the parsed text it was read from.
    Span(usize, usize),
}

/// The data of a TOML value.
pub enum TomlValue {
    String(String),
    Integer(i64),
    /// A floating-point number, as the `Debug` text of the `f64`.
    Float(String),
    Boolean(bool),
    Datetime,
    /// The items and the decoration after the last item.
    Array(Vec<TomlNode>, TomlRaw),
    /// Members in document order.
    InlineTable(Vec<(String, TomlNode)>),
}

/// A TOML value with its span (byte range) and the decoration before and after it.
pub struct TomlNode {
    pub value: TomlValue,
    pub span: Option<(usize, usize)>,
    pub prefix: Option<TomlRaw>,
    pub suffix: Option<TomlRaw>,
}

/// What a key of a table holds.
pub enum TomlItem {
    /// An empty item.
    Empty,
    Value(TomlNode),
    Table(TomlTable),
    /// The tables and the span of the whole array.
    ArrayOfTables(Vec<TomlTable>, Option<(usize, usize)>),
}

/// A key of a table: its name, the decoration before the key, and what it holds.
pub struct TomlEntry {
    pub key: String,
    pub key_prefix: Option<TomlRaw>,
    pub item: TomlItem,
}

/// A TOML table with its span, the decoration around its header, and its entries in order.
pub struct TomlTable {
    pub span: Option<(usize, usize)>,
    pub prefix: Option<TomlRaw>,
    pub suffix: Option<TomlRaw>,
    pub entries: Vec<TomlEntry>,
}

/// A TOML syntax error: its span, when known, and its message.
pub struct TomlError {
    pub span: Option<(usize, usize)>,
    pub message: String,
}

/// The document `toml_edit::ImDocument::parse` reads from a text (its root table), or the error it
/// reports.
pub uninterp spec fn toml_document(text: Seq<char>) -> Result<TomlTable, TomlError>;

/// `toml_edit`'s table, carried through unchanged.
#[verifier::external_type_specification]
#[verifier::external_body]
pub struct ExEditTable(EditTable);

/// `toml_edit`'s item, carried through unchanged.
#[verifier::external_type_specification]
#[verifier::external_body]
pub struct ExEditItem(EditItem);

/// `toml_edit`'s value, carried through unchanged.
#[verifier::external_type_specification]
#[verifier::external_body]
pub struct ExEditValue(EditValue);

/// `toml_edit`'s raw decoration string, carried through unchanged.
#[verifier::external_type_specification]
#[verifier::external_body]
pub struct ExRawString(RawString);

/// A byte range converted into a pair.
#[verifier::external_body]
fn toml_span(span: Option<std::ops::Range<usize>>) -> Option<(usize, usize)> {
    match span {
        Some(range) => Some((range.start, range.end)),
        None => None,
    }
}

/// A raw decoration string converted into [`TomlRaw`]: its span when it has one, else its text.
#[verifier::external_body]
fn toml_raw_text(raw: &RawString) -> TomlRaw {
    match raw.span() {
        Some(range) => TomlRaw::Span(range.start, range.end),
        None => TomlRaw::Text(raw.as_str().unwrap_or("").to_owned()),
    }
}

/// An optional raw decoration string converted into [`TomlRaw`].
#[verifier::external_body]
fn toml_raw(raw: Option<&RawString>) -> Option<TomlRaw> {
    match raw {
        Some(r) => Some(toml_raw_text(r)),
        None => None,
    }
}

/// The data of a value converted into [`TomlValue`].
#[verifier::external_body]
fn toml_value(v: &EditValue) -> TomlValue {
    match v {
        EditValue::String(s) => TomlValue::String(s.value().clone()),
        EditValue::Integer(i) => TomlValue::Integer(*i.value()),
        EditValue::Float(f) => TomlValue::Float(format!("{:?}", f.value())),
        EditValue::Boolean(b) => TomlValue::Boolean(*b.value()),
        EditValue::Datetime(_) => TomlValue::Datetime,
        EditValue::Array(a) => TomlValue::Array(a.iter().map(toml_node).collect(), toml_raw_text(a.trailing())),
        EditValue::InlineTable(t) => TomlValue::InlineTable(t.iter().map(|(k, x)| (k.to_owned(), toml_node(x))).collect()),
    }
}

/// A value with its span and decoration converted into [`TomlNode`].
#[verifier::external_body]
fn toml_node(v: &EditValue) -> TomlNode {
    let decor = v.decor();
    TomlNode {
        value: toml_value(v),
        span: toml_span(v.span()),
        prefix: toml_raw(decor.prefix()),
        suffix: toml_raw(decor.suffix()),
    }
}

/// An item converted into [`TomlItem`].
#[verifier::external_body]
fn toml_item(item: &EditItem) -> TomlItem {
    match item {
        EditItem::None => TomlItem::Empty,
        EditItem::Value(v) => TomlItem::Value(toml_node(v)),
        EditItem::Table(t) => TomlItem::Table(toml_table(t)),
        EditItem::ArrayOfTables(a) => TomlItem::ArrayOfTables(a.iter().map(toml_table).collect(), toml_span(a.span())),
    }
}

/// The entry of `key` in `table` converted into [`TomlEntry`], with the decoration before the key.
#[verifier::external_body]
fn toml_entry(table: &EditTable, key: &str, item: &EditItem) -> TomlEntry {
    let key_prefix = match table.key(key) {
        Some(k) => toml_raw(k.leaf_decor().prefix()),
        None => None,
    };
    TomlEntry { key: key.to_owned(), key_prefix, item: toml_item(item) }
}

/// A table with its span, header decoration and entries converted into [`TomlTable`].
#[verifier::external_body]
fn toml_table(t: &EditTable) -> TomlTable {
    let decor = t.decor();
    TomlTable {
        span: toml_span(t.span()),
        prefix: toml_raw(decor.prefix()),
        suffix: toml_raw(decor.suffix()),
        entries: t.iter().map(|(k, item)| toml_entry(t, k, item)).collect(),
    }
}

/// `toml_edit::ImDocument::parse`: the root table of `text`, or the syntax error with its span and
/// message. Its result is named by [`toml_document`].
#[verifier::external_body]
fn parse_toml_text(text: &str) -> (r: Result<TomlTable, TomlError>)
    ensures
        r == toml_document(text@),
{
    match ImDocument::parse(text.to_owned()) {
        Ok(document) => Ok(toml_table(document.as_table())),
        Err(error) => Err(TomlError { span: toml_span(error.span()), message: error.message().to_owned() }),
    }
}

// ---------------------------------------------------------------------------------------------
// Comments in decoration text
// ---------------------------------------------------------------------------------------------

/// The text of a decoration: its own text, or the characters of its byte range of `text`; empty
/// or unreadable text counts as none.
pub open spec fn spec_raw_text(raw: TomlRaw, text: Seq<char>) -> Option<Seq<char>> {
    let t = match raw {
        TomlRaw::Text(s) => Some(s@),
        TomlRaw::Span(a, b) => spec_str_slice(text, a as int, b as int),
    };
    match t {
        Some(x) => if x.len() > 0 {
            Some(x)
        } else {
            None
        },
        None => None,
    }
}

/// The body of a `#` comment line: the trimmed line without its `#` and the white space after it.
pub open spec fn spec_hash_body(line: Seq<char>) -> Option<Seq<char>> {
    let t = spec_trim(line);
    if t.len() > 0 && t[0] == '#' {
        Some(spec_trim_start(t.skip(1)))
    } else {
        None
    }
}

/// The comment lines of `t` (split at `\n`), each with its body, in order.
pub open spec fn spec_comment_lines(t: Seq<char>) -> Seq<(Seq<char>, Seq<char>)>
    decreases t.len(),
{
    if t.len() == 0 {
        Seq::empty()
    } else {
        let i = spec_find_char(t, '\n');
        if 0 <= i < t.len() {
            let line = t.take(i);
            let rest = spec_comment_lines(t.skip(i + 1));
            match spec_hash_body(line) {
                Some(b) => seq![(line, b)] + rest,
                None => rest,
            }
        } else {
            match spec_hash_body(t) {
                Some(b) => seq![(t, b)],
                None => Seq::empty(),
            }
        }
    }
}

/// The comment lines of an optional decoration.
pub open spec fn spec_decor_lines(raw: Option<TomlRaw>, text: Seq<char>) -> Seq<(Seq<char>, Seq<char>)> {
    match raw {
        Some(r) => match spec_raw_text(r, text) {
            Some(p) => spec_comment_lines(p),
            None => Seq::empty(),
        },
        None => Seq::empty(),
    }
}

/// The bodies of comment lines.
pub open spec fn spec_bodies(l: Seq<(Seq<char>, Seq<char>)>) -> Seq<Seq<char>> {
    Seq::new(l.len(), |i: int| l[i].1)
}

/// The comments a decoration puts before a value: every comment line's body.
pub open spec fn spec_comments_before(raw: Option<TomlRaw>, text: Seq<char>) -> Seq<Seq<char>> {
    spec_bodies(spec_decor_lines(raw, text))
}

/// The comment a decoration puts after a value: the body of its first comment line.
pub open spec fn spec_comment_after(raw: Option<TomlRaw>, text: Seq<char>) -> Option<Seq<char>> {
    let l = spec_decor_lines(raw, text);
    if l.len() > 0 {
        Some(l[0].1)
    } else {
        None
    }
}

/// How the prefix of the array element at `index` splits: the comment that belongs after the
/// previous element, and the comments before this one. A lone comment line, or a first line
/// written as ` #`, belongs to the previous element (when there is one).
pub open spec fn spec_element_comments(prefix: Option<TomlRaw>, text: Seq<char>, index: int) -> (Option<Seq<char>>, Seq<Seq<char>>) {
    let l = spec_decor_lines(prefix, text);
    if index > 0 && l.len() == 1 {
        (Some(l[0].1), Seq::empty())
    } else if index > 0 && l.len() > 0 && spec_starts_with(l[0].0, seq![' ', '#']) {
        (Some(l[0].1), spec_bodies(l.skip(1)))
    } else {
        (None, spec_bodies(l))
    }
}

/// The texts of optional characters.
pub open spec fn spec_opt_chars(o: Option<Vec<char>>) -> Option<Seq<char>> {
    match o {
        Some(v) => Some(v@),
        None => None,
    }
}

/// The texts of pairs of character vectors.
pub open spec fn spec_pairs(v: Seq<(Vec<char>, Vec<char>)>) -> Seq<(Seq<char>, Seq<char>)> {
    Seq::new(v.len(), |i: int| (v[i].0@, v[i].1@))
}

/// The text of a decoration (see [`spec_raw_text`]).
fn raw_text(raw: &TomlRaw, text: &str) -> (r: Option<Vec<char>>)
    ensures
        spec_opt_chars(r) == spec_raw_text(*raw, text@),
{
    let t = match raw {
        TomlRaw::Text(s) => Some(chars_of(s.as_str())),
        TomlRaw::Span(a, b) => str_slice(text, *a, *b),
    };
    match t {
        Some(x) => if x.len() > 0 {
            Some(x)
        } else {
            None
        },
        None => None,
    }
}

/// The body of a comment line (see [`spec_hash_body`]).
fn hash_body(line: &Vec<char>) -> (r: Option<Vec<char>>)
    ensures
        spec_opt_chars(r) == spec_hash_body(line@),
{
    let t = trim_chars(line);
    if t.len() > 0 && t[0] == '#' {
        let n = t.len();
        let rest = sub_chars(&t, 1, n);
        assert(rest@ =~= t@.skip(1));
        Some(trim_start_chars(&rest))
    } else {
        None
    }
}

/// The comment lines of `t` (see [`spec_comment_lines`]).
fn comment_lines(t: &Vec<char>) -> (r: Vec<(Vec<char>, Vec<char>)>)
    ensures
        spec_pairs(r@) == spec_comment_lines(t@),
{
    let n = t.len();
    let mut out: Vec<(Vec<char>, Vec<char>)> = Vec::new();
    let mut offset: usize = 0;
    assert(t@.skip(0) =~= t@);
    assert(spec_pairs(out@) =~= Seq::<(Seq<char>, Seq<char>)>::empty());
    while offset < n
        invariant
            n == t@.len(),
            0 <= offset <= n,
            spec_comment_lines(t@) == spec_pairs(out@) + spec_comment_lines(t@.skip(offset as int)),
        decreases n - offset,
    {
        let end = find_char_from(t, '\n', offset);
        let line = sub_chars(t, offset, end);
        let ghost s = t@.skip(offset as int);
        let ghost i = spec_find_char(s, '\n');
        let ghost before = spec_pairs(out@);
        assert(end < n ==> s.take(end - offset) =~= line@);
        assert(end == n ==> s =~= line@);
        match hash_body(&line) {
            Some(b) => {
                out.push((line, b));
            },
            None => {},
        }
        if end >= n {
            assert(spec_comment_lines(s) == spec_pairs(out@).skip(before.len() as int));
            assert(spec_pairs(out@) =~= before + spec_comment_lines(s));
            assert(t@.skip(n as int).len() == 0);
            assert(spec_comment_lines(t@.skip(n as int)) =~= Seq::<(Seq<char>, Seq<char>)>::empty());
            offset = n;
        } else {
            assert(s.skip(end - offset + 1) =~= t@.skip(end + 1));
            assert(spec_pairs(out@) + spec_comment_lines(t@.skip(end + 1)) =~= before + spec_comment_lines(s));
            offset = end + 1;
        }
    }
    assert(t@.skip(n as int) =~= Seq::<char>::empty());
    assert(spec_pairs(out@) + Seq::<(Seq<char>, Seq<char>)>::empty() =~= spec_pairs(out@));
    out
}

/// The comment lines of an optional decoration (see [`spec_decor_lines`]).
fn decor_lines(raw: &Option<TomlRaw>, text: &str) -> (r: Vec<(Vec<char>, Vec<char>)>)
    ensures
        spec_pairs(r@) == spec_decor_lines(*raw, text@),
{
    match raw {
        Some(rw) => match raw_text(rw, text) {
            Some(p) => comment_lines(&p),
            None => {
                let v: Vec<(Vec<char>, Vec<char>)> = Vec::new();
                assert(spec_pairs(v@) =~= Seq::<(Seq<char>, Seq<char>)>::empty());
                v
            },
        },
        None => {
            let v: Vec<(Vec<char>, Vec<char>)> = Vec::new();
            assert(spec_pairs(v@) =~= Seq::<(Seq<char>, Seq<char>)>::empty());
            v
        },
    }
}

/// The bodies of the comment lines from position `from` on.
fn bodies_from(l: &Vec<(Vec<char>, Vec<char>)>, from: usize) -> (r: Vec<String>)
    requires
        from <= l@.len(),
    ensures
        spec_texts(r@) == spec_bodies(spec_pairs(l@).skip(from as int)),
{
    let mut out: Vec<String> = Vec::new();
    let mut i: usize = from;
    while i < l.len()
        invariant
            from <= i <= l@.len(),
            out@.len() == i - from,
            forall|k: int| 0 <= k < out@.len() ==> (#[trigger] out@[k])@ == l@[from + k].1@,
        decreases l@.len() - i,
    {
        out.push(string_from_chars(l[i].1.as_slice()));
        i = i + 1;
    }
    assert(spec_texts(out@) =~= spec_bodies(spec_pairs(l@).skip(from as int)));
    out
}

/// The comments a decoration puts before a value (see [`spec_comments_before`]).
fn comments_before(raw: &Option<TomlRaw>, text: &str) -> (r: Vec<String>)
    ensures
        spec_texts(r@) == spec_comments_before(*raw, text@),
{
    let l = decor_lines(raw, text);
    assert(spec_pairs(l@).skip(0) =~= spec_pairs(l@));
    bodies_from(&l, 0)
}

/// The comment a decoration puts after a value (see [`spec_comment_after`]).
fn comment_after(raw: &Option<TomlRaw>, text: &str) -> (r: Option<String>)
    ensures
        spec_opt_text(r) == spec_comment_after(*raw, text@),
{
    let l = decor_lines(raw, text);
    if l.len() > 0 {
        Some(string_from_chars(l[0].1.as_slice()))
    } else {
        None
    }
}

/// How an array element's prefix splits (see [`spec_element_comments`]).
fn element_comments(prefix: &Option<TomlRaw>, text: &str, index: usize) -> (r: (Option<String>, Vec<String>))
    ensures
        (spec_opt_text(r.0), spec_texts(r.1@)) == spec_element_comments(*prefix, text@, index as int),
{
    let l = decor_lines(prefix, text);
    let marker: Vec<char> = vec![' ', '#'];
    assert(marker@ =~= seq![' ', '#']);
    if index > 0 && l.len() == 1 {
        let none: Vec<String> = Vec::new();
        assert(spec_texts(none@) =~= Seq::<Seq<char>>::empty());
        (Some(string_from_chars(l[0].1.as_slice())), none)
    } else if index > 0 && l.len() > 0 && starts_with_chars(&l[0].0, &marker) {
        (Some(string_from_chars(l[0].1.as_slice())), bodies_from(&l, 1))
    } else {
        assert(spec_pairs(l@).skip(0) =~= spec_pairs(l@));
        (None, bodies_from(&l, 0))
    }
}

// ---------------------------------------------------------------------------------------------
// Locations
// ---------------------------------------------------------------------------------------------

/// What a conversion reads besides the tree: the source, the text and whether it is one line.
pub struct TomlCtx {
    pub source: SourceModel,
    pub text: Seq<char>,
    pub single_line: bool,
}

/// The start of a span, or `fallback` when there is none.
pub open spec fn spec_span_start(span: Option<(usize, usize)>, fallback: usize) -> usize {
    match span {
        Some(s) => s.0,
        None => fallback,
    }
}

/// The location of a node: none in single-line text; else the line and column where its span
/// starts (at `fallback` without a span) and, when the span holds characters, their number.
pub open spec fn spec_toml_location(c: TomlCtx, span: Option<(usize, usize)>, fallback: usize) -> LocationModel {
    if c.single_line {
        LocationModel { source: c.source, line: None, column: None, length: None }
    } else {
        let length = match span {
            Some(s) => spec_char_count(c.text, s.0 as int, s.1 as int),
            None => 0,
        };
        let lc = spec_line_column(c.text, spec_span_start(span, fallback) as int);
        LocationModel {
            source: c.source,
            line: Some(lc.0 as usize),
            column: Some(lc.1 as usize),
            length: if length > 0 {
                Some(length as usize)
            } else {
                None
            },
        }
    }
}

/// The location of a syntax error with a span: its line and column, and its length in characters
/// (at least one).
pub open spec fn spec_toml_error_location(source: SourceModel, text: Seq<char>, span: Option<(usize, usize)>) -> Option<LocationModel> {
    match span {
        Some(s) => {
            let lc = spec_line_column(text, s.0 as int);
            let n = spec_char_count(text, s.0 as int, s.1 as int);
            Some(
                LocationModel {
                    source,
                    line: Some(lc.0 as usize),
                    column: Some(lc.1 as usize),
                    length: Some(
                        if n > 1 {
                            n as usize
                        } else {
                            1usize
                        },
                    ),
                },
            )
        },
        None => None,
    }
}

/// The start of a span, or `fallback`.
fn span_start(span: Option<(usize, usize)>, fallback: usize) -> (r: usize)
    ensures
        r == spec_span_start(span, fallback),
{
    match span {
        Some(s) => s.0,
        None => fallback,
    }
}

/// The location of a node (see [`spec_toml_location`]).
fn toml_location(source: &Source, text: &str, single_line: bool, span: Option<(usize, usize)>, fallback: usize) -> (r: Location)
    requires
        text@.len() < usize::MAX,
    ensures
        r@ == spec_toml_location(TomlCtx { source: source@, text: text@, single_line }, span, fallback),
{
    if single_line {
        return Location::in_source(source.clone(), None, None, None);
    }
    let length: usize = match span {
        Some(s) => span_char_count(text, s.0, s.1),
        None => 0,
    };
    let (line, column) = line_column(text, span_start(span, fallback));
    let length = if length > 0 {
        Some(length)
    } else {
        None
    };
    Location::in_source(source.clone(), Some(line), Some(column), length)
}

/// The location of a syntax error (see [`spec_toml_error_location`]).
fn toml_error_location(source: &Source, text: &str, span: Option<(usize, usize)>) -> (r: Option<Location>)
    requires
        text@.len() < usize::MAX,
    ensures
        match r {
            Some(l) => spec_toml_error_location(source@, text@, span) == Some(l@),
            None => spec_toml_error_location(source@, text@, span) is None,
        },
{
    match span {
        Some(s) => {
            let (line, column) = line_column(text, s.0);
            let n = span_char_count(text, s.0, s.1);
            let length: usize = if n > 1 {
                n
            } else {
                1
            };
            Some(Location::in_source(source.clone(), Some(line), Some(column), Some(length)))
        },
        None => None,
    }
}

// ---------------------------------------------------------------------------------------------
// Conversion
// ---------------------------------------------------------------------------------------------

/// Why a document cannot be converted, with where.
pub enum TomlFault {
    /// A key holds an empty item.
    Empty(LocationModel),
    /// A date-time value.
    Datetime(LocationModel),
}

/// A value at a location, with no comment.
pub open spec fn spec_bare(value: ValueModel, location: LocationModel) -> LocatedModel {
    LocatedModel { value, location, comment: spec_no_comment() }
}

/// `lv` with the comments `before` and `after` when there is any, else unchanged.
pub open spec fn spec_decorate(lv: LocatedModel, before: Seq<Seq<char>>, after: Option<Seq<char>>) -> LocatedModel {
    if before.len() > 0 || after is Some {
        LocatedModel { comment: CommentModel { before, after }, ..lv }
    } else {
        lv
    }
}

/// `lv` with `after` as its comment after.
pub open spec fn spec_with_after(lv: LocatedModel, after: Seq<char>) -> LocatedModel {
    LocatedModel { comment: CommentModel { after: Some(after), ..lv.comment }, ..lv }
}

/// The located value of a TOML value at `location`.
pub open spec fn spec_toml_value(c: TomlCtx, node: TomlNode, location: LocationModel) -> Result<LocatedModel, TomlFault>
    decreases node, 1int,
{
    match node.value {
        TomlValue::String(s) => Ok(spec_bare(ValueModel::Str(s@), location)),
        TomlValue::Integer(i) => Ok(spec_bare(ValueModel::Int(#[verifier::truncate] (i as isize)), location)),
        TomlValue::Float(t) => Ok(spec_bare(ValueModel::Float(t@), location)),
        TomlValue::Boolean(b) => Ok(spec_bare(ValueModel::Bool(b), location)),
        TomlValue::Datetime => Err(TomlFault::Datetime(location)),
        TomlValue::Array(items, trailing) => match spec_toml_array(
            c,
            items@,
            trailing,
            spec_span_start(node.span, 0),
            items@.len() as int,
        ) {
            Ok(list) => Ok(spec_bare(ValueModel::List(list), location)),
            Err(f) => Err(f),
        },
        TomlValue::InlineTable(members) => match spec_toml_inline(
            c,
            members@,
            spec_span_start(node.span, 0),
            members@.len() as int,
        ) {
            Ok(m) => Ok(spec_bare(ValueModel::Table(m), location)),
            Err(f) => Err(f),
        },
    }
}

/// The items of an array after the first `n` elements: each element with the comments its
/// prefix and suffix give it (the last one also those after it), and the previous element with
/// the comment the prefix hands back to it.
pub open spec fn spec_toml_array(c: TomlCtx, items: Seq<TomlNode>, trailing: TomlRaw, fallback: usize, n: int) -> Result<Seq<LocatedModel>, TomlFault>
    decreases items, n,
{
    if n <= 0 || n > items.len() {
        Ok(Seq::empty())
    } else {
        match spec_toml_array(c, items, trailing, fallback, n - 1) {
            Err(f) => Err(f),
            Ok(acc) => {
                let v = items[n - 1];
                let ec = spec_element_comments(v.prefix, c.text, n - 1);
                let acc2 = match ec.0 {
                    Some(a) => if acc.len() > 0 {
                        acc.update(acc.len() - 1, spec_with_after(acc.last(), a))
                    } else {
                        acc
                    },
                    None => acc,
                };
                let after0 = spec_comment_after(v.suffix, c.text);
                let after = if n == items.len() && after0 is None {
                    spec_comment_after(Some(trailing), c.text)
                } else {
                    after0
                };
                match spec_toml_value(c, v, spec_toml_location(c, v.span, fallback)) {
                    Err(f) => Err(f),
                    Ok(item) => Ok(acc2.push(spec_decorate(item, ec.1, after))),
                }
            },
        }
    }
}

/// The map of the first `n` members of an inline table.
pub open spec fn spec_toml_inline(c: TomlCtx, members: Seq<(String, TomlNode)>, fallback: usize, n: int) -> Result<TableModel, TomlFault>
    decreases members, n,
{
    if n <= 0 || n > members.len() {
        Ok(Seq::empty())
    } else {
        match spec_toml_inline(c, members, fallback, n - 1) {
            Err(f) => Err(f),
            Ok(m) => {
                let v = members[n - 1].1;
                match spec_toml_value(c, v, spec_toml_location(c, v.span, fallback)) {
                    Err(f) => Err(f),
                    Ok(lv) => Ok(spec_table_insert(m, members[n - 1].0@, lv)),
                }
            },
        }
    }
}

/// The span of an item.
pub open spec fn spec_item_span(item: TomlItem) -> Option<(usize, usize)> {
    match item {
        TomlItem::Empty => None,
        TomlItem::Value(v) => v.span,
        TomlItem::Table(t) => t.span,
        TomlItem::ArrayOfTables(_, span) => span,
    }
}

/// The located value of a table: the map of its entries at the table's location.
pub open spec fn spec_toml_table(c: TomlCtx, t: TomlTable, fallback: usize) -> Result<LocatedModel, TomlFault>
    decreases t, 1int,
{
    match spec_toml_entries(c, t.entries@, fallback, t.entries@.len() as int) {
        Err(f) => Err(f),
        Ok(m) => Ok(spec_bare(ValueModel::Table(m), spec_toml_location(c, t.span, fallback))),
    }
}

/// The map of the first `n` entries of a table.
pub open spec fn spec_toml_entries(c: TomlCtx, es: Seq<TomlEntry>, fallback: usize, n: int) -> Result<TableModel, TomlFault>
    decreases es, n,
{
    if n <= 0 || n > es.len() {
        Ok(Seq::empty())
    } else {
        match spec_toml_entries(c, es, fallback, n - 1) {
            Err(f) => Err(f),
            Ok(m) => match spec_toml_entry(c, es[n - 1], fallback) {
                Err(f) => Err(f),
                Ok(lv) => Ok(spec_table_insert(m, es[n - 1].key@, lv)),
            },
        }
    }
}

/// The located value of an entry, with the comments before its key (and its table header) and
/// after its value (or its table header).
pub open spec fn spec_toml_entry(c: TomlCtx, e: TomlEntry, fallback: usize) -> Result<LocatedModel, TomlFault>
    decreases e, 1int,
{
    let f = spec_span_start(spec_item_span(e.item), fallback);
    let before = spec_comments_before(e.key_prefix, c.text);
    match e.item {
        TomlItem::Value(v) => match spec_toml_value(c, v, spec_toml_location(c, v.span, f)) {
            Err(x) => Err(x),
            Ok(lv) => Ok(spec_decorate(lv, before, spec_comment_after(v.suffix, c.text))),
        },
        TomlItem::Table(t) => match spec_toml_table(c, t, f) {
            Err(x) => Err(x),
            Ok(lv) => Ok(
                spec_decorate(
                    lv,
                    before + spec_comments_before(t.prefix, c.text),
                    spec_comment_after(t.suffix, c.text),
                ),
            ),
        },
        TomlItem::ArrayOfTables(ts, span) => match spec_toml_tables(c, ts@, f, ts@.len() as int) {
            Err(x) => Err(x),
            Ok(list) => Ok(
                spec_decorate(spec_bare(ValueModel::List(list), spec_toml_location(c, span, f)), before, None),
            ),
        },
        TomlItem::Empty => Err(TomlFault::Empty(spec_toml_location(c, None, f))),
    }
}

/// The located values of the first `n` tables of an array of tables.
pub open spec fn spec_toml_tables(c: TomlCtx, ts: Seq<TomlTable>, fallback: usize, n: int) -> Result<Seq<LocatedModel>, TomlFault>
    decreases ts, n,
{
    if n <= 0 || n > ts.len() {
        Ok(Seq::empty())
    } else {
        match spec_toml_tables(c, ts, fallback, n - 1) {
            Err(f) => Err(f),
            Ok(acc) => match spec_toml_table(c, ts[n - 1], spec_span_start(ts[n - 1].span, fallback)) {
                Err(f) => Err(f),
                Ok(lv) => Ok(acc.push(lv)),
            },
        }
    }
}

/// `true` when `e` is the parser error that reports `f`.
pub open spec fn spec_fault_is(e: Error, f: TomlFault) -> bool {
    match f {
        TomlFault::Empty(l) => e matches Error::Parse { location: Some(x), message } && x@ == l
            && message@ == "unexpected empty toml item"@,
        TomlFault::Datetime(l) => e matches Error::UnsupportedType { location, found } && location@ == l
            && found@ == "datetime"@,
    }
}

/// `true` when `r` is what the conversion `s` describes.
pub open spec fn spec_toml_result(r: Result<LocatedValue, Error>, s: Result<LocatedModel, TomlFault>) -> bool {
    match s {
        Ok(m) => r matches Ok(v) && v@ == m,
        Err(f) => r matches Err(e) && spec_fault_is(e, f),
    }
}

/// Once the array fold fails it keeps the first failure.
proof fn lemma_array_err(c: TomlCtx, items: Seq<TomlNode>, trailing: TomlRaw, fallback: usize, k: int, n: int)
    requires
        0 < k <= n <= items.len(),
        spec_toml_array(c, items, trailing, fallback, k) is Err,
    ensures
        spec_toml_array(c, items, trailing, fallback, n) == spec_toml_array(c, items, trailing, fallback, k),
    decreases n - k,
{
    if n > k {
        lemma_array_err(c, items, trailing, fallback, k, n - 1);
    }
}

/// Once the inline-table fold fails it keeps the first failure.
proof fn lemma_inline_err(c: TomlCtx, members: Seq<(String, TomlNode)>, fallback: usize, k: int, n: int)
    requires
        0 < k <= n <= members.len(),
        spec_toml_inline(c, members, fallback, k) is Err,
    ensures
        spec_toml_inline(c, members, fallback, n) == spec_toml_inline(c, members, fallback, k),
    decreases n - k,
{
    if n > k {
        lemma_inline_err(c, members, fallback, k, n - 1);
    }
}

/// Once the entry fold fails it keeps the first failure.
proof fn lemma_entries_err(c: TomlCtx, es: Seq<TomlEntry>, fallback: usize, k: int, n: int)
    requires
        0 < k <= n <= es.len(),
        spec_toml_entries(c, es, fallback, k) is Err,
    ensures
        spec_toml_entries(c, es, fallback, n) == spec_toml_entries(c, es, fallback, k),
    decreases n - k,
{
    if n > k {
        lemma_entries_err(c, es, fallback, k, n - 1);
    }
}

/// Once the array-of-tables fold fails it keeps the first failure.
proof fn lemma_tables_err(c: TomlCtx, ts: Seq<TomlTable>, fallback: usize, k: int, n: int)
    requires
        0 < k <= n <= ts.len(),
        spec_toml_tables(c, ts, fallback, k) is Err,
    ensures
        spec_toml_tables(c, ts, fallback, n) == spec_toml_tables(c, ts, fallback, k),
    decreases n - k,
{
    if n > k {
        lemma_tables_err(c, ts, fallback, k, n - 1);
    }
}

/// `lv` with the comments `before` and `after` when there is any (see [`spec_decorate`]).
fn decorate(lv: LocatedValue, before: Vec<String>, after: Option<String>) -> (r: LocatedValue)
    ensures
        r@ == spec_decorate(lv@, spec_texts(before@), spec_opt_text(after)),
{
    if before.len() > 0 || after.is_some() {
        lv.with_comment(Comment::new().with_before(before).with_after(after))
    } else {
        lv
    }
}

/// The comment after the last element of an array, from the decoration after it.
fn trailing_after(raw: &TomlRaw, text: &str) -> (r: Option<String>)
    ensures
        spec_opt_text(r) == spec_comment_after(Some(*raw), text@),
{
    match raw_text(raw, text) {
        Some(p) => {
            let l = comment_lines(&p);
            if l.len() > 0 {
                Some(string_from_chars(l[0].1.as_slice()))
            } else {
                None
            }
        },
        None => None,
    }
}

/// The span of an item.
fn item_span(item: &TomlItem) -> (r: Option<(usize, usize)>)
    ensures
        r == spec_item_span(*item),
{
    match item {
        TomlItem::Empty => None,
        TomlItem::Value(v) => v.span,
        TomlItem::Table(t) => t.span,
        TomlItem::ArrayOfTables(_, span) => *span,
    }
}

/// The located value of a TOML value at `location` (see [`spec_toml_value`]).
pub fn convert_value(source: &Source, text: &str, single_line: bool, node: &TomlNode, location: Location) -> (r: Result<LocatedValue, Error>)
    requires
        text@.len() < usize::MAX,
    ensures
        spec_toml_result(r, spec_toml_value(TomlCtx { source: source@, text: text@, single_line }, *node, location@)),
    decreases *node, 1int,
{
    match &node.value {
        TomlValue::String(s) => Ok(LocatedValue::new(Value::String(s.clone()), location)),
        TomlValue::Integer(i) => Ok(LocatedValue::new(Value::Int(#[verifier::truncate] (*i as isize)), location)),
        TomlValue::Float(t) => Ok(LocatedValue::new(Value::Float(t.clone()), location)),
        TomlValue::Boolean(b) => Ok(LocatedValue::new(Value::Bool(*b), location)),
        TomlValue::Datetime => Err(Error::UnsupportedType { location, found: "datetime".to_owned() }),
        TomlValue::Array(items, trailing) => match convert_array(source, text, single_line, node, items, trailing) {
            Err(e) => Err(e),
            Ok(list) => {
                proof {
                    lemma_list_model(list);
                }
                Ok(LocatedValue::new(Value::List(list), location))
            },
        },
        TomlValue::InlineTable(members) => match convert_inline(source, text, single_line, node, members) {
            Err(e) => Err(e),
            Ok(map) => Ok(LocatedValue::new(Value::Table(map), location)),
        },
    }
}

/// The items of an array value (see [`spec_toml_array`]).
fn convert_array(
    source: &Source,
    text: &str,
    single_line: bool,
    node: &TomlNode,
    items: &Vec<TomlNode>,
    trailing: &TomlRaw,
) -> (r: Result<Vec<LocatedValue>, Error>)
    requires
        text@.len() < usize::MAX,
        node.value == TomlValue::Array(*items, *trailing),
    ensures
        match spec_toml_array(
            TomlCtx { source: source@, text: text@, single_line },
            items@,
            *trailing,
            spec_span_start(node.span, 0),
            items@.len() as int,
        ) {
            Ok(l) => r matches Ok(v) && located_models(v@) == l,
            Err(f) => r matches Err(e) && spec_fault_is(e, f),
        },
    decreases *node, 0int,
{
    let ghost c = TomlCtx { source: source@, text: text@, single_line };
    let fallback = span_start(node.span, 0);
    let n = items.len();
    let mut list: Vec<LocatedValue> = Vec::new();
    let mut i: usize = 0;
    assert(located_models(list@) =~= Seq::<LocatedModel>::empty());
    while i < n
        invariant
            c == (TomlCtx { source: source@, text: text@, single_line }),
            text@.len() < usize::MAX,
            node.value == TomlValue::Array(*items, *trailing),
            n == items@.len(),
            0 <= i <= n,
            fallback == spec_span_start(node.span, 0),
            list@.len() == i,
            spec_toml_array(c, items@, *trailing, fallback, i as int) == Ok::<Seq<LocatedModel>, TomlFault>(
                located_models(list@),
            ),
        decreases n - i,
    {
        let v = &items[i];
        let ghost acc = located_models(list@);
        let (pa, before) = element_comments(&v.prefix, text, i);
        match pa {
            Some(a) => {
                if list.len() > 0 {
                    let mut prev = list.pop().unwrap();
                    let mut cm = prev.comment().clone();
                    cm.set_after(Some(a));
                    prev = prev.with_comment(cm);
                    list.push(prev);
                    assert(located_models(list@) =~= acc.update(acc.len() - 1, spec_with_after(acc.last(), a@)));
                }
            },
            None => {},
        }
        let after0 = comment_after(&v.suffix, text);
        let after = if i + 1 == n && after0.is_none() {
            trailing_after(trailing, text)
        } else {
            after0
        };
        let location = toml_location(source, text, single_line, v.span, fallback);
        proof {
            assert(decreases_to!(*node => node.value));
            assert(decreases_to!(node.value => node.value->Array_0));
            assert(decreases_to!(node.value->Array_0 => items@));
            assert(decreases_to!(items@ => items@[i as int]));
        }
        match convert_value(source, text, single_line, v, location) {
            Err(e) => {
                proof {
                    lemma_array_err(c, items@, *trailing, fallback, i + 1, n as int);
                }
                return Err(e);
            },
            Ok(item) => {
                let ghost before_push = located_models(list@);
                list.push(decorate(item, before, after));
                assert(located_models(list@) =~= before_push.push(list@[i as int]@));
            },
        }
        i = i + 1;
    }
    Ok(list)
}

/// The map of an inline table (see [`spec_toml_inline`]).
fn convert_inline(
    source: &Source,
    text: &str,
    single_line: bool,
    node: &TomlNode,
    members: &Vec<(String, TomlNode)>,
) -> (r: Result<Table, Error>)
    requires
        text@.len() < usize::MAX,
        node.value == TomlValue::InlineTable(*members),
    ensures
        match spec_toml_inline(
            TomlCtx { source: source@, text: text@, single_line },
            members@,
            spec_span_start(node.span, 0),
            members@.len() as int,
        ) {
            Ok(m) => r matches Ok(t) && t@ == m,
            Err(f) => r matches Err(e) && spec_fault_is(e, f),
        },
    decreases *node, 0int,
{
    let ghost c = TomlCtx { source: source@, text: text@, single_line };
    let fallback = span_start(node.span, 0);
    let n = members.len();
    let mut map = Table::new();
    let mut i: usize = 0;
    while i < n
        invariant
            c == (TomlCtx { source: source@, text: text@, single_line }),
            text@.len() < usize::MAX,
            node.value == TomlValue::InlineTable(*members),
            n == members@.len(),
            0 <= i <= n,
            fallback == spec_span_start(node.span, 0),
            spec_toml_inline(c, members@, fallback, i as int) == Ok::<TableModel, TomlFault>(map@),
        decreases n - i,
    {
        let v = &members[i].1;
        let location = toml_location(source, text, single_line, v.span, fallback);
        proof {
            assert(decreases_to!(*node => node.value));
            assert(decreases_to!(node.value => node.value->InlineTable_0));
            assert(decreases_to!(node.value->InlineTable_0 => members@));
            assert(decreases_to!(members@ => members@[i as int]));
            assert(decreases_to!(members@[i as int] => members@[i as int].1));
        }
        match convert_value(source, text, single_line, v, location) {
            Err(e) => {
                proof {
                    lemma_inline_err(c, members@, fallback, i + 1, n as int);
                }
                return Err(e);
            },
            Ok(lv) => {
                map.insert(members[i].0.clone(), lv);
            },
        }
        i = i + 1;
    }
    Ok(map)
}

/// The located value of a table (see [`spec_toml_table`]).
pub fn convert_table(source: &Source, text: &str, single_line: bool, t: &TomlTable, fallback: usize) -> (r: Result<LocatedValue, Error>)
    requires
        text@.len() < usize::MAX,
    ensures
        spec_toml_result(r, spec_toml_table(TomlCtx { source: source@, text: text@, single_line }, *t, fallback)),
    decreases *t, 1int,
{
    let ghost c = TomlCtx { source: source@, text: text@, single_line };
    let location = toml_location(source, text, single_line, t.span, fallback);
    let n = t.entries.len();
    let mut map = Table::new();
    let mut i: usize = 0;
    while i < n
        invariant
            c == (TomlCtx { source: source@, text: text@, single_line }),
            text@.len() < usize::MAX,
            n == t.entries@.len(),
            0 <= i <= n,
            spec_toml_entries(c, t.entries@, fallback, i as int) == Ok::<TableModel, TomlFault>(map@),
        decreases n - i,
    {
        proof {
            assert(decreases_to!(*t => t.entries));
            assert(decreases_to!(t.entries => t.entries@));
            assert(decreases_to!(t.entries@ => t.entries@[i as int]));
        }
        match convert_entry(source, text, single_line, &t.entries[i], fallback) {
            Err(e) => {
                proof {
                    lemma_entries_err(c, t.entries@, fallback, i + 1, n as int);
                }
                return Err(e);
            },
            Ok(lv) => {
                map.insert(t.entries[i].key.clone(), lv);
            },
        }
        i = i + 1;
    }
    Ok(LocatedValue::new(Value::Table(map), location))
}

/// The located value of an entry (see [`spec_toml_entry`]).
fn convert_entry(source: &Source, text: &str, single_line: bool, e: &TomlEntry, fallback: usize) -> (r: Result<LocatedValue, Error>)
    requires
        text@.len() < usize::MAX,
    ensures
        spec_toml_result(r, spec_toml_entry(TomlCtx { source: source@, text: text@, single_line }, *e, fallback)),
    decreases *e, 1int,
{
    let f = span_start(item_span(&e.item), fallback);
    let before = comments_before(&e.key_prefix, text);
    match &e.item {
        TomlItem::Value(v) => {
            let location = toml_location(source, text, single_line, v.span, f);
            match convert_value(source, text, single_line, v, location) {
                Err(x) => Err(x),
                Ok(lv) => Ok(decorate(lv, before, comment_after(&v.suffix, text))),
            }
        },
        TomlItem::Table(t) => {
            proof {
                assert(decreases_to!(*e => e.item));
                assert(decreases_to!(e.item => e.item->Table_0));
            }
            match convert_table(source, text, single_line, t, f) {
                Err(x) => Err(x),
                Ok(lv) => {
                    let mut all = before;
                    let ghost first = spec_texts(all@);
                    let mut header = comments_before(&t.prefix, text);
                    let ghost second = spec_texts(header@);
                    all.append(&mut header);
                    assert(spec_texts(all@) =~= first + second);
                    Ok(decorate(lv, all, comment_after(&t.suffix, text)))
                },
            }
        },
        TomlItem::ArrayOfTables(ts, span) => match convert_tables(source, text, single_line, e, ts, f) {
            Err(x) => Err(x),
            Ok(list) => {
                proof {
                    lemma_list_model(list);
                }
                let location = toml_location(source, text, single_line, *span, f);
                Ok(decorate(LocatedValue::new(Value::List(list), location), before, None))
            },
        },
        TomlItem::Empty => Err(
            Error::Parse {
                location: Some(toml_location(source, text, single_line, None, f)),
                message: "unexpected empty toml item".to_owned(),
            },
        ),
    }
}

/// The located values of an array of tables (see [`spec_toml_tables`]).
fn convert_tables(
    source: &Source,
    text: &str,
    single_line: bool,
    e: &TomlEntry,
    ts: &Vec<TomlTable>,
    fallback: usize,
) -> (r: Result<Vec<LocatedValue>, Error>)
    requires
        text@.len() < usize::MAX,
        e.item matches TomlItem::ArrayOfTables(x, _) && x == *ts,
    ensures
        match spec_toml_tables(TomlCtx { source: source@, text: text@, single_line }, ts@, fallback, ts@.len() as int) {
            Ok(l) => r matches Ok(v) && located_models(v@) == l,
            Err(f) => r matches Err(x) && spec_fault_is(x, f),
        },
    decreases *e, 0int,
{
    let ghost c = TomlCtx { source: source@, text: text@, single_line };
    let n = ts.len();
    let mut list: Vec<LocatedValue> = Vec::new();
    let mut i: usize = 0;
    assert(located_models(list@) =~= Seq::<LocatedModel>::empty());
    while i < n
        invariant
            c == (TomlCtx { source: source@, text: text@, single_line }),
            text@.len() < usize::MAX,
            e.item matches TomlItem::ArrayOfTables(x, _) && x == *ts,
            n == ts@.len(),
            0 <= i <= n,
            list@.len() == i,
            spec_toml_tables(c, ts@, fallback, i as int) == Ok::<Seq<LocatedModel>, TomlFault>(located_models(list@)),
        decreases n - i,
    {
        proof {
            assert(decreases_to!(*e => e.item));
            assert(decreases_to!(e.item => e.item->ArrayOfTables_0));
            assert(decreases_to!(e.item->ArrayOfTables_0 => ts@));
            assert(decreases_to!(ts@ => ts@[i as int]));
        }
        let start = span_start(ts[i].span, fallback);
        match convert_table(source, text, single_line, &ts[i], start) {
            Err(x) => {
                proof {
                    lemma_tables_err(c, ts@, fallback, i + 1, n as int);
                }
                return Err(x);
            },
            Ok(lv) => {
                let ghost before_push = located_models(list@);
                list.push(lv);
                assert(located_models(list@) =~= before_push.push(list@[i as int]@));
            },
        }
        i = i + 1;
    }
    Ok(list)
}

/// The context a parse of `bytes` of `source` converts in.
pub open spec fn spec_toml_ctx(source: SourceModel, bytes: Seq<u8>) -> TomlCtx {
    TomlCtx { source, text: vstd::utf8::decode_utf8(bytes), single_line: spec_is_single_line(bytes) }
}

/// The model of an optional location.
pub open spec fn spec_opt_location(l: Option<Location>) -> Option<LocationModel> {
    match l {
        Some(x) => Some(x@),
        None => None,
    }
}

/// The TOML parser. Stateless.
pub struct Toml;

impl Toml {
    /// A TOML parser.
    pub fn new() -> (r: Toml) {
        Toml
    }

    /// Human-readable name used in error messages.
    pub fn name(&self) -> (r: &'static str)
        ensures
            r@ == "TOML"@,
    {
        "TOML"
    }

    /// The format extensions this parser handles: `toml`.
    pub fn supported_format_list(&self) -> (r: Vec<String>)
        ensures
            r@.len() == 1 && r@[0]@ == "toml"@,
    {
        vec!["toml".to_owned()]
    }

    /// `Some(true)` when the bytes are UTF-8 text the TOML parser accepts, else `Some(false)`.
    pub fn is_format_supported(&self, bytes: &[u8]) -> (r: Option<bool>)
        ensures
            r == Some(vstd::utf8::valid_utf8(bytes@) && toml_document(vstd::utf8::decode_utf8(bytes@)) is Ok),
    {
        match utf8_text(bytes) {
            Some(text) => Some(parse_toml_text(text).is_ok()),
            None => Some(false),
        }
    }

    /// Parse the TOML `bytes` of `source`.
    ///
    /// Bytes that are not UTF-8 give `InvalidUtf8`; a syntax error gives `Parse` with the error's
    /// message, located at its span when it has one; otherwise the document `toml_edit` reads,
    /// converted by [`convert_table`] (which rejects date-times).
    pub fn parse(&self, source: &Source, bytes: &[u8], other_source_list: &[Source]) -> (r: Result<LocatedValue, Error>)
        requires
            bytes@.len() < usize::MAX,
        ensures
            !vstd::utf8::valid_utf8(bytes@) ==> (r matches Err(Error::InvalidUtf8 { location })
                && location@ == (LocationModel { source: source@, line: None, column: None, length: None })),
            vstd::utf8::valid_utf8(bytes@) ==> match toml_document(vstd::utf8::decode_utf8(bytes@)) {
                Err(e) => r matches Err(Error::Parse { location, message }) && message@ == e.message@
                    && spec_opt_location(location) == spec_toml_error_location(
                    source@,
                    vstd::utf8::decode_utf8(bytes@),
                    e.span,
                ),
                Ok(t) => spec_toml_result(r, spec_toml_table(spec_toml_ctx(source@, bytes@), t, 0)),
            },
    {
        let text = match utf8_text(bytes) {
            Some(t) => t,
            None => {
                return Err(Error::InvalidUtf8 {
                    location: Location::in_source(source.clone(), None, None, None),
                });
            },
        };
        proof {
            lemma_decode_len(bytes@);
        }
        let single_line = is_single_line(bytes);
        match parse_toml_text(text) {
            Ok(table) => convert_table(source, text, single_line, &table, 0),
            Err(e) => Err(Error::Parse { location: toml_error_location(source, text, e.span), message: e.message }),
        }
    }
}

} // verus!
