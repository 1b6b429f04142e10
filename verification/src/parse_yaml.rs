//! YAML parser: the first document `saphyr` reads, turned into located values.
//!
//! - Mappings become maps (their keys must be strings), sequences lists, and scalars the matching
//!   values; a tag is looked through; `~`, `null` and `Null` written as plain text are null. An
//!   alias or a value the parser could not read is rejected.
//! - Every node carries the line and column where it starts and, when its span is not empty, its
//!   length in characters; single-line input carries no positions.
//! - Text with no document at all gives an empty map.

use vstd::prelude::*;
use crate::source::{Source, SourceModel};
use crate::value::{
    Value, ValueModel, LocatedValue, LocatedModel, Location, LocationModel, Table, TableModel,
    Error, spec_table_insert, spec_no_comment, located_models, lemma_list_model,
};
use crate::span::{is_single_line, spec_is_single_line};
use crate::text::{utf8_text, str_equal};
use saphyr::{LoadableYamlNode, Marker, MarkedYaml, Scalar, YamlData as Node};

verus! {

/// A position in the text as `saphyr` counts it: character index, 1-based line, 0-based column.
#[derive(Clone, Copy)]
pub struct YamlMark {
    pub index: usize,
    pub line: usize,
    pub col: usize,
}

/// The data of a YAML node.
pub enum YamlData {
    /// A scalar kept as written (its text).
    Representation(String),
    Null,
    Boolean(bool),
    Integer(i64),
    /// A floating-point number, as the `Debug` text of the `f64`.
    Float(String),
    Str(String),
    Sequence(Vec<YamlNode>),
    /// Key and value nodes in document order.
    Mapping(Vec<(YamlNode, YamlNode)>),
    /// A tagged node: the node under the tag.
    Tagged(Box<YamlNode>),
    Alias,
    BadValue,
}

/// A YAML node with the span it was read from.
pub struct YamlNode {
    pub start: YamlMark,
    pub end: YamlMark,
    pub data: YamlData,
}

/// A YAML scan error: where it happened and what it says.
pub struct YamlError {
    pub mark: YamlMark,
    pub info: String,
}

/// The documents `saphyr::MarkedYaml::load_from_str` reads from a text, or the error it reports.
pub uninterp spec fn yaml_documents(text: Seq<char>) -> Result<Vec<YamlNode>, YamlError>;

/// `saphyr`'s marked node, carried through unchanged.
#[verifier::external_type_specification]
#[verifier::external_body]
pub struct ExMarkedYaml<'a>(MarkedYaml<'a>);

/// `saphyr`'s marker, carried through unchanged.
#[verifier::external_type_specification]
#[verifier::external_body]
pub struct ExMarker(Marker);

/// A marker converted into [`YamlMark`].
#[verifier::external_body]
fn yaml_mark(m: &Marker) -> YamlMark {
    YamlMark { index: m.index(), line: m.line(), col: m.col() }
}

/// `saphyr`'s resolved scalar, carried through unchanged.
#[verifier::external_type_specification]
#[verifier::external_body]
pub struct ExScalar<'a>(Scalar<'a>);

/// A resolved scalar converted into [`YamlData`]; a float is kept as its `Debug` text.
#[verifier::external_body]
fn yaml_scalar(s: &Scalar) -> YamlData {
    match s {
        Scalar::Null => YamlData::Null,
        Scalar::Boolean(b) => YamlData::Boolean(*b),
        Scalar::Integer(i) => YamlData::Integer(*i),
        Scalar::FloatingPoint(f) => YamlData::Float(format!("{:?}", f.into_inner())),
        Scalar::String(text) => YamlData::Str(text.to_string()),
    }
}

/// The data of a node converted into [`YamlData`].
#[verifier::external_body]
fn yaml_data(node: &MarkedYaml) -> YamlData {
    match &node.data {
        Node::Representation(text, _, _) => YamlData::Representation(text.to_string()),
        Node::Value(s) => yaml_scalar(s),
        Node::Sequence(items) => YamlData::Sequence(items.iter().map(yaml_node).collect()),
        Node::Mapping(m) => YamlData::Mapping(m.iter().map(|(k, v)| (yaml_node(k), yaml_node(v))).collect()),
        Node::Tagged(_, inner) => YamlData::Tagged(Box::new(yaml_node(inner))),
        Node::Alias(_) => YamlData::Alias,
        Node::BadValue => YamlData::BadValue,
    }
}

/// A node with its span converted into [`YamlNode`].
#[verifier::external_body]
fn yaml_node(node: &MarkedYaml) -> YamlNode {
    YamlNode { start: yaml_mark(&node.span.start), end: yaml_mark(&node.span.end), data: yaml_data(node) }
}

/// `saphyr::MarkedYaml::load_from_str`: the documents of `text`, or the scan error with its marker
/// and message. Its result is named by [`yaml_documents`].
#[verifier::external_body]
fn parse_yaml_text(text: &str) -> (r: Result<Vec<YamlNode>, YamlError>)
    ensures
        r == yaml_documents(text@),
{
    match MarkedYaml::load_from_str(text) {
        Ok(documents) => Ok(documents.iter().map(yaml_node).collect()),
        Err(error) => Err(YamlError { mark: yaml_mark(error.marker()), info: error.info().to_owned() }),
    }
}

/// Why a node cannot be converted.
pub enum YamlFault {
    /// A map key that is not a string.
    KeyNotString,
    /// An alias or an unreadable value, at its location.
    Unsupported(LocationModel),
}

/// The location of a node: none in single-line text; else its start line, its start column plus
/// one, and, when its span is not empty, the span's length (as `saphyr`'s `Span::len` computes
/// it).
pub open spec fn spec_yaml_location(source: SourceModel, single_line: bool, node: YamlNode) -> LocationModel {
    if single_line {
        LocationModel { source, line: None, column: None, length: None }
    } else {
        LocationModel {
            source,
            line: Some(node.start.line),
            column: Some(node.start.col.wrapping_add(1)),
            length: if node.end.index != node.start.index {
                Some(node.end.index.wrapping_sub(node.start.index))
            } else {
                None
            },
        }
    }
}

/// A value at a location, with no comment.
pub open spec fn spec_yaml_bare(value: ValueModel, location: LocationModel) -> LocatedModel {
    LocatedModel { value, location, comment: spec_no_comment() }
}

/// The text of a map key: a string scalar or a scalar kept as written.
pub open spec fn spec_yaml_key(k: YamlNode) -> Option<Seq<char>> {
    match k.data {
        YamlData::Str(s) => Some(s@),
        YamlData::Representation(r) => Some(r@),
        _ => None,
    }
}

/// The located value of a node.
pub open spec fn spec_yaml_value(source: SourceModel, single_line: bool, node: YamlNode) -> Result<LocatedModel, YamlFault>
    decreases node, 1int,
{
    let location = spec_yaml_location(source, single_line, node);
    match node.data {
        YamlData::Null => Ok(spec_yaml_bare(ValueModel::Null, location)),
        YamlData::Boolean(b) => Ok(spec_yaml_bare(ValueModel::Bool(b), location)),
        YamlData::Integer(i) => Ok(spec_yaml_bare(ValueModel::Int(#[verifier::truncate] (i as isize)), location)),
        YamlData::Float(t) => Ok(spec_yaml_bare(ValueModel::Float(t@), location)),
        YamlData::Str(s) => Ok(spec_yaml_bare(ValueModel::Str(s@), location)),
        YamlData::Sequence(items) => match spec_yaml_seq(source, single_line, items@, items@.len() as int) {
            Ok(l) => Ok(spec_yaml_bare(ValueModel::List(l), location)),
            Err(f) => Err(f),
        },
        YamlData::Mapping(pairs) => match spec_yaml_map(source, single_line, pairs@, pairs@.len() as int) {
            Ok(m) => Ok(spec_yaml_bare(ValueModel::Table(m), location)),
            Err(f) => Err(f),
        },
        YamlData::Tagged(inner) => spec_yaml_value(source, single_line, *inner),
        YamlData::Representation(r) => if r@ == "~"@ || r@ == "null"@ || r@ == "Null"@ {
            Ok(spec_yaml_bare(ValueModel::Null, location))
        } else {
            Ok(spec_yaml_bare(ValueModel::Str(r@), location))
        },
        YamlData::Alias => Err(YamlFault::Unsupported(location)),
        YamlData::BadValue => Err(YamlFault::Unsupported(location)),
    }
}

/// The located values of the first `n` items of a sequence.
pub open spec fn spec_yaml_seq(source: SourceModel, single_line: bool, items: Seq<YamlNode>, n: int) -> Result<Seq<LocatedModel>, YamlFault>
    decreases items, n,
{
    if n <= 0 || n > items.len() {
        Ok(Seq::empty())
    } else {
        match spec_yaml_seq(source, single_line, items, n - 1) {
            Err(f) => Err(f),
            Ok(acc) => match spec_yaml_value(source, single_line, items[n - 1]) {
                Err(f) => Err(f),
                Ok(lv) => Ok(acc.push(lv)),
            },
        }
    }
}

/// The map of the first `n` pairs of a mapping; a key that is not a string stops it.
pub open spec fn spec_yaml_map(source: SourceModel, single_line: bool, pairs: Seq<(YamlNode, YamlNode)>, n: int) -> Result<TableModel, YamlFault>
    decreases pairs, n,
{
    if n <= 0 || n > pairs.len() {
        Ok(Seq::empty())
    } else {
        match spec_yaml_map(source, single_line, pairs, n - 1) {
            Err(f) => Err(f),
            Ok(m) => match spec_yaml_key(pairs[n - 1].0) {
                None => Err(YamlFault::KeyNotString),
                Some(k) => match spec_yaml_value(source, single_line, pairs[n - 1].1) {
                    Err(f) => Err(f),
                    Ok(lv) => Ok(spec_table_insert(m, k, lv)),
                },
            },
        }
    }
}

/// `true` when `e` is the parser error that reports `f`.
pub open spec fn spec_yaml_fault_is(e: Error, f: YamlFault) -> bool {
    match f {
        YamlFault::KeyNotString => e matches Error::Parse { location: None, message } && message@
            == "yaml map key must be a string"@,
        YamlFault::Unsupported(l) => e matches Error::Parse { location: Some(x), message } && x@ == l
            && message@ == "unsupported yaml node"@,
    }
}

/// `true` when `r` is what the conversion `s` describes.
pub open spec fn spec_yaml_result(r: Result<LocatedValue, Error>, s: Result<LocatedModel, YamlFault>) -> bool {
    match s {
        Ok(m) => r matches Ok(v) && v@ == m,
        Err(f) => r matches Err(e) && spec_yaml_fault_is(e, f),
    }
}

/// Once the sequence fold fails it keeps the first failure.
proof fn lemma_seq_err(source: SourceModel, single_line: bool, items: Seq<YamlNode>, k: int, n: int)
    requires
        0 < k <= n <= items.len(),
        spec_yaml_seq(source, single_line, items, k) is Err,
    ensures
        spec_yaml_seq(source, single_line, items, n) == spec_yaml_seq(source, single_line, items, k),
    decreases n - k,
{
    if n > k {
        lemma_seq_err(source, single_line, items, k, n - 1);
    }
}

/// Once the mapping fold fails it keeps the first failure.
proof fn lemma_map_err(source: SourceModel, single_line: bool, pairs: Seq<(YamlNode, YamlNode)>, k: int, n: int)
    requires
        0 < k <= n <= pairs.len(),
        spec_yaml_map(source, single_line, pairs, k) is Err,
    ensures
        spec_yaml_map(source, single_line, pairs, n) == spec_yaml_map(source, single_line, pairs, k),
    decreases n - k,
{
    if n > k {
        lemma_map_err(source, single_line, pairs, k, n - 1);
    }
}

/// The location of a node (see [`spec_yaml_location`]).
fn yaml_location(source: &Source, single_line: bool, node: &YamlNode) -> (r: Location)
    ensures
        r@ == spec_yaml_location(source@, single_line, *node),
{
    if single_line {
        return Location::in_source(source.clone(), None, None, None);
    }
    let length = if node.end.index != node.start.index {
        Some(node.end.index.wrapping_sub(node.start.index))
    } else {
        None
    };
    Location::in_source(source.clone(), Some(node.start.line), Some(node.start.col.wrapping_add(1)), length)
}

/// The text of a map key (see [`spec_yaml_key`]).
fn yaml_key(k: &YamlNode) -> (r: Option<String>)
    ensures
        match r {
            Some(s) => spec_yaml_key(*k) == Some(s@),
            None => spec_yaml_key(*k) is None,
        },
{
    match &k.data {
        YamlData::Str(s) => Some(s.clone()),
        YamlData::Representation(r) => Some(r.clone()),
        _ => None,
    }
}

/// The located value of a YAML node (see [`spec_yaml_value`]).
pub fn convert_yaml(source: &Source, single_line: bool, node: &YamlNode) -> (r: Result<LocatedValue, Error>)
    ensures
        spec_yaml_result(r, spec_yaml_value(source@, single_line, *node)),
    decreases *node, 1int,
{
    let location = yaml_location(source, single_line, node);
    match &node.data {
        YamlData::Null => Ok(LocatedValue::new(Value::Null, location)),
        YamlData::Boolean(b) => Ok(LocatedValue::new(Value::Bool(*b), location)),
        YamlData::Integer(i) => Ok(LocatedValue::new(Value::Int(#[verifier::truncate] (*i as isize)), location)),
        YamlData::Float(t) => Ok(LocatedValue::new(Value::Float(t.clone()), location)),
        YamlData::Str(s) => Ok(LocatedValue::new(Value::String(s.clone()), location)),
        YamlData::Sequence(items) => match convert_sequence(source, single_line, node, items) {
            Err(e) => Err(e),
            Ok(list) => {
                proof {
                    lemma_list_model(list);
                }
                Ok(LocatedValue::new(Value::List(list), location))
            },
        },
        YamlData::Mapping(pairs) => match convert_mapping(source, single_line, node, pairs) {
            Err(e) => Err(e),
            Ok(map) => Ok(LocatedValue::new(Value::Table(map), location)),
        },
        YamlData::Tagged(inner) => {
            proof {
                assert(decreases_to!(*node => node.data));
                assert(decreases_to!(node.data => node.data->Tagged_0));
            }
            convert_yaml(source, single_line, inner)
        },
        YamlData::Representation(r) => {
            if str_equal(r.as_str(), "~") || str_equal(r.as_str(), "null") || str_equal(r.as_str(), "Null") {
                Ok(LocatedValue::new(Value::Null, location))
            } else {
                Ok(LocatedValue::new(Value::String(r.clone()), location))
            }
        },
        YamlData::Alias => Err(Error::Parse { location: Some(location), message: "unsupported yaml node".to_owned() }),
        YamlData::BadValue => Err(Error::Parse { location: Some(location), message: "unsupported yaml node".to_owned() }),
    }
}

/// The located values of a sequence's items (see [`spec_yaml_seq`]).
fn convert_sequence(source: &Source, single_line: bool, node: &YamlNode, items: &Vec<YamlNode>) -> (r: Result<Vec<LocatedValue>, Error>)
    requires
        node.data == YamlData::Sequence(*items),
    ensures
        match spec_yaml_seq(source@, single_line, items@, items@.len() as int) {
            Ok(l) => r matches Ok(v) && located_models(v@) == l,
            Err(f) => r matches Err(e) && spec_yaml_fault_is(e, f),
        },
    decreases *node, 0int,
{
    let n = items.len();
    let mut list: Vec<LocatedValue> = Vec::new();
    let mut i: usize = 0;
    assert(located_models(list@) =~= Seq::<LocatedModel>::empty());
    while i < n
        invariant
            node.data == YamlData::Sequence(*items),
            n == items@.len(),
            0 <= i <= n,
            list@.len() == i,
            spec_yaml_seq(source@, single_line, items@, i as int) == Ok::<Seq<LocatedModel>, YamlFault>(
                located_models(list@),
            ),
        decreases n - i,
    {
        proof {
            assert(decreases_to!(*node => node.data));
            assert(decreases_to!(node.data => node.data->Sequence_0));
            assert(decreases_to!(node.data->Sequence_0 => items@));
            assert(decreases_to!(items@ => items@[i as int]));
        }
        match convert_yaml(source, single_line, &items[i]) {
            Err(e) => {
                proof {
                    lemma_seq_err(source@, single_line, items@, i + 1, n as int);
                }
                return Err(e);
            },
            Ok(lv) => {
                let ghost before_push = located_models(list@);
                list.push(lv);
                assert(located_models(list@) =~= before_push.push(list@[i as int]@));
            },
        }
        i = i + 1;
    }
    Ok(list)
}

/// The map of a mapping's pairs (see [`spec_yaml_map`]).
fn convert_mapping(source: &Source, single_line: bool, node: &YamlNode, pairs: &Vec<(YamlNode, YamlNode)>) -> (r: Result<Table, Error>)
    requires
        node.data == YamlData::Mapping(*pairs),
    ensures
        match spec_yaml_map(source@, single_line, pairs@, pairs@.len() as int) {
            Ok(m) => r matches Ok(t) && t@ == m,
            Err(f) => r matches Err(e) && spec_yaml_fault_is(e, f),
        },
    decreases *node, 0int,
{
    let n = pairs.len();
    let mut map = Table::new();
    let mut i: usize = 0;
    while i < n
        invariant
            node.data == YamlData::Mapping(*pairs),
            n == pairs@.len(),
            0 <= i <= n,
            spec_yaml_map(source@, single_line, pairs@, i as int) == Ok::<TableModel, YamlFault>(map@),
        decreases n - i,
    {
        let key = match yaml_key(&pairs[i].0) {
            Some(k) => k,
            None => {
                proof {
                    lemma_map_err(source@, single_line, pairs@, i + 1, n as int);
                }
                return Err(Error::Parse { location: None, message: "yaml map key must be a string".to_owned() });
            },
        };
        proof {
            assert(decreases_to!(*node => node.data));
            assert(decreases_to!(node.data => node.data->Mapping_0));
            assert(decreases_to!(node.data->Mapping_0 => pairs@));
            assert(decreases_to!(pairs@ => pairs@[i as int]));
            assert(decreases_to!(pairs@[i as int] => pairs@[i as int].1));
        }
        match convert_yaml(source, single_line, &pairs[i].1) {
            Err(e) => {
                proof {
                    lemma_map_err(source@, single_line, pairs@, i + 1, n as int);
                }
                return Err(e);
            },
            Ok(lv) => {
                map.insert(key, lv);
            },
        }
        i = i + 1;
    }
    Ok(map)
}

/// The location of a scan error: its line and its column plus one.
pub open spec fn spec_yaml_error_location(source: SourceModel, mark: YamlMark) -> LocationModel {
    LocationModel { source, line: Some(mark.line), column: Some(mark.col.wrapping_add(1)), length: None }
}

/// The YAML parser. Stateless.
pub struct Yaml;

impl Yaml {
    /// A YAML parser.
    pub fn new() -> (r: Yaml) {
        Yaml
    }

    /// Human-readable name used in error messages.
    pub fn name(&self) -> (r: &'static str)
        ensures
            r@ == "YAML"@,
    {
        "YAML"
    }

    /// The format extensions this parser handles: `yml` and `yaml`.
    pub fn supported_format_list(&self) -> (r: Vec<String>)
        ensures
            r@.len() == 2 && r@[0]@ == "yml"@ && r@[1]@ == "yaml"@,
    {
        vec!["yml".to_owned(), "yaml".to_owned()]
    }

    /// `Some(true)` when the bytes are UTF-8 text the YAML parser accepts, else `Some(false)`.
    pub fn is_format_supported(&self, bytes: &[u8]) -> (r: Option<bool>)
        ensures
            r == Some(vstd::utf8::valid_utf8(bytes@) && yaml_documents(vstd::utf8::decode_utf8(bytes@)) is Ok),
    {
        match utf8_text(bytes) {
            Some(text) => Some(parse_yaml_text(text).is_ok()),
            None => Some(false),
        }
    }

    /// Parse the YAML `bytes` of `source`.
    ///
    /// Bytes that are not UTF-8 give `InvalidUtf8`; a scan error gives `Parse` with its message,
    /// located at its marker; no document gives an empty map; otherwise the first document,
    /// converted by [`convert_yaml`].
    pub fn parse(&self, source: &Source, bytes: &[u8], other_source_list: &[Source]) -> (r: Result<LocatedValue, Error>)
        ensures
            !vstd::utf8::valid_utf8(bytes@) ==> (r matches Err(Error::InvalidUtf8 { location })
                && location@ == (LocationModel { source: source@, line: None, column: None, length: None })),
            vstd::utf8::valid_utf8(bytes@) ==> match yaml_documents(vstd::utf8::decode_utf8(bytes@)) {
                Err(e) => r matches Err(Error::Parse { location: Some(l), message }) && message@ == e.info@
                    && l@ == spec_yaml_error_location(source@, e.mark),
                Ok(docs) => if docs@.len() == 0 {
                    r matches Ok(v) && v@ == spec_yaml_bare(
                        ValueModel::Table(Seq::empty()),
                        LocationModel { source: source@, line: None, column: None, length: None },
                    )
                } else {
                    spec_yaml_result(r, spec_yaml_value(source@, spec_is_single_line(bytes@), docs@[0]))
                },
            },
    {
        let text = match utf8_text(bytes) {
            Some(t) => t,
            None => {
                return Err(Error::InvalidUtf8 {
                    location: Location::in_source(source.clone(), None, None, None),
                });
            },
        };
        let single_line = is_single_line(bytes);
        match parse_yaml_text(text) {
            Err(e) => {
                let location = Location::in_source(
                    source.clone(),
                    Some(e.mark.line),
                    Some(e.mark.col.wrapping_add(1)),
                    None,
                );
                Err(Error::Parse { location: Some(location), message: e.info })
            },
            Ok(docs) => {
                if docs.len() == 0 {
                    let empty = Table::new();
                    Ok(LocatedValue::new(Value::Table(empty), Location::in_source(source.clone(), None, None, None)))
                } else {
                    convert_yaml(source, single_line, &docs[0])
                }
            },
        }
    }
}

} // verus!
