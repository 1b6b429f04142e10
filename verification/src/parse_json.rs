//! JSON parser: the tree `spanned_json_parser` reads, turned into located values.
//!
//! Every value carries the line and column where it starts and, when it ends on the same line,
//! its length in characters; single-line documents carry no positions. Integers become
//! [`Value::Int`], floating-point numbers their `Debug` text.

use vstd::prelude::*;
use crate::source::{Source, SourceModel};
use crate::value::{
    Value, ValueModel, LocatedValue, LocatedModel, Location, LocationModel, Table, TableModel,
    Error, spec_table_insert, spec_no_comment, located_models, lemma_list_model,
};
use crate::span::{is_single_line, spec_is_single_line};
use crate::text::utf8_text;
use spanned_json_parser::value::{Number, SpannedValue, Value as RawJson};

verus! {

/// A line and column in the text, as `spanned_json_parser` counts them.
#[derive(Clone, Copy)]
pub struct JsonPos {
    pub line: usize,
    pub col: usize,
}

/// The data of a JSON node.
pub enum JsonData {
    Null,
    Bool(bool),
    PosInt(u64),
    NegInt(i64),
    /// A floating-point number, as the `Debug` text of the `f64`.
    Float(String),
    Str(String),
    Array(Vec<JsonNode>),
    /// Members in the order the parser hands them out.
    Object(Vec<(String, JsonNode)>),
}

/// A JSON value with the span it was read from.
pub struct JsonNode {
    pub data: JsonData,
    pub start: JsonPos,
    pub end: JsonPos,
}

/// A JSON syntax error: where it starts and ends, and the text of its kind.
pub struct JsonError {
    pub start: JsonPos,
    pub end: JsonPos,
    pub kind: String,
}

/// Model of a [`JsonError`].
pub struct JsonErrorModel {
    pub start: JsonPos,
    pub end: JsonPos,
    pub kind: Seq<char>,
}

impl View for JsonError {
    type V = JsonErrorModel;

    open spec fn view(&self) -> JsonErrorModel {
        JsonErrorModel { start: self.start, end: self.end, kind: self.kind@ }
    }
}

/// A JSON tree with its spans, in a form that does not depend on the order of an object's
/// members: they are a map from key to member.
pub struct JsonShape {
    pub data: JsonShapeData,
    pub start: JsonPos,
    pub end: JsonPos,
}

/// The data of a [`JsonShape`].
pub enum JsonShapeData {
    Null,
    Bool(bool),
    PosInt(u64),
    NegInt(i64),
    Float(Seq<char>),
    Str(Seq<char>),
    Array(Seq<JsonShape>),
    Object(Map<Seq<char>, JsonShape>),
}

/// The shape of a JSON node: the node with each object's members gathered into a map.
pub open spec fn spec_json_shape(node: JsonNode) -> JsonShape
    decreases node, 1int,
{
    let data = match node.data {
        JsonData::Null => JsonShapeData::Null,
        JsonData::Bool(b) => JsonShapeData::Bool(b),
        JsonData::PosInt(n) => JsonShapeData::PosInt(n),
        JsonData::NegInt(n) => JsonShapeData::NegInt(n),
        JsonData::Float(t) => JsonShapeData::Float(t@),
        JsonData::Str(s) => JsonShapeData::Str(s@),
        JsonData::Array(items) => JsonShapeData::Array(
            Seq::new(
                items@.len(),
                |i: int|
                    if 0 <= i < items@.len() {
                        spec_json_shape(items@[i])
                    } else {
                        vstd::pervasive::arbitrary()
                    },
            ),
        ),
        JsonData::Object(members) => JsonShapeData::Object(
            spec_json_shape_members(members@, members@.len() as int),
        ),
    };
    JsonShape { data, start: node.start, end: node.end }
}

/// The map of the first `n` members, each key to the shape of its member.
pub open spec fn spec_json_shape_members(members: Seq<(String, JsonNode)>, n: int) -> Map<Seq<char>, JsonShape>
    decreases members, n,
{
    if n <= 0 || n > members.len() {
        Map::empty()
    } else {
        spec_json_shape_members(members, n - 1).insert(members[n - 1].0@, spec_json_shape(members[n - 1].1))
    }
}

/// What `spanned_json_parser::parse` reads from a text: the shape of its tree, or the error it
/// reports.
pub uninterp spec fn json_parse(text: Seq<char>) -> Result<JsonShape, JsonErrorModel>;

/// `spanned_json_parser`'s value with its span, carried through unchanged.
#[verifier::external_type_specification]
#[verifier::external_body]
pub struct ExSpannedValue(SpannedValue);

/// `spanned_json_parser`'s number, carried through unchanged.
#[verifier::external_type_specification]
#[verifier::external_body]
pub struct ExNumber(Number);

/// A parsed number converted into [`JsonData`]; a float is kept as its `Debug` text.
#[verifier::external_body]
fn json_number(n: Number) -> JsonData {
    match n {
        Number::PosInt(n) => JsonData::PosInt(n),
        Number::NegInt(n) => JsonData::NegInt(n),
        Number::Float(f) => JsonData::Float(format!("{:?}", f)),
    }
}

/// The tree of a spanned value, converted one node for one into [`JsonNode`]s.
#[verifier::external_body]
fn json_node(v: SpannedValue) -> JsonNode {
    let data = match v.value {
        RawJson::Null => JsonData::Null,
        RawJson::Bool(b) => JsonData::Bool(b),
        RawJson::Number(n) => json_number(n),
        RawJson::String(s) => JsonData::Str(s),
        RawJson::Array(items) => JsonData::Array(items.into_iter().map(json_node).collect()),
        RawJson::Object(m) => JsonData::Object(m.into_iter().map(|(k, x)| (k, json_node(x))).collect()),
    };
    let start = JsonPos { line: v.start.line, col: v.start.col };
    JsonNode { data, start, end: JsonPos { line: v.end.line, col: v.end.col } }
}

/// `spanned_json_parser::parse`: the tree of `text`, or the syntax error. The contract claims
/// that the tree's shape, or the error, is a function of the text, named by [`json_parse`]. The
/// order of an object's members is left unsaid: it is the order its hash map is walked in.
#[verifier::external_body]
fn parse_json_text(text: &str) -> (r: Result<JsonNode, JsonError>)
    ensures
        match r {
            Ok(node) => json_parse(text@) == Ok::<JsonShape, JsonErrorModel>(spec_json_shape(node)),
            Err(e) => json_parse(text@) == Err::<JsonShape, JsonErrorModel>(e@),
        },
{
    match spanned_json_parser::parse(text) {
        Ok(value) => Ok(json_node(value)),
        Err(e) => Err(JsonError {
            start: JsonPos { line: e.start.line, col: e.start.col },
            end: JsonPos { line: e.end.line, col: e.end.col },
            kind: format!("{:?}", e.kind),
        }),
    }
}

/// The location of a span: none in a single-line document, else the start line and column and,
/// when the span ends on the same line at or after its start, its length.
pub open spec fn spec_json_location(source: SourceModel, single_line: bool, start: JsonPos, end: JsonPos) -> LocationModel {
    if single_line {
        LocationModel { source, line: None, column: None, length: None }
    } else {
        LocationModel {
            source,
            line: Some(start.line),
            column: Some(start.col),
            length: if start.line == end.line && end.col >= start.col && end.col - start.col + 1 <= usize::MAX {
                Some((end.col - start.col + 1) as usize)
            } else {
                None
            },
        }
    }
}

/// The located value of a JSON node.
pub open spec fn spec_json_value(node: JsonNode, source: SourceModel, single_line: bool) -> LocatedModel
    decreases node, 1int,
{
    let location = spec_json_location(source, single_line, node.start, node.end);
    let value = match node.data {
        JsonData::Null => ValueModel::Null,
        JsonData::Bool(b) => ValueModel::Bool(b),
        JsonData::PosInt(n) => ValueModel::Int(#[verifier::truncate] (n as isize)),
        JsonData::NegInt(n) => ValueModel::Int(#[verifier::truncate] (n as isize)),
        JsonData::Float(t) => ValueModel::Float(t@),
        JsonData::Str(s) => ValueModel::Str(s@),
        JsonData::Array(items) => ValueModel::List(
            Seq::new(
                items@.len(),
                |i: int|
                    if 0 <= i < items@.len() {
                        spec_json_value(items@[i], source, single_line)
                    } else {
                        vstd::pervasive::arbitrary()
                    },
            ),
        ),
        JsonData::Object(members) => ValueModel::Table(
            spec_json_members(members@, source, single_line, members@.len() as int),
        ),
    };
    LocatedModel { value, location, comment: spec_no_comment() }
}

/// The map of the first `n` members, inserted in order.
pub open spec fn spec_json_members(members: Seq<(String, JsonNode)>, source: SourceModel, single_line: bool, n: int) -> TableModel
    decreases members, n,
{
    if n <= 0 || n > members.len() {
        Seq::empty()
    } else {
        spec_table_insert(
            spec_json_members(members, source, single_line, n - 1),
            members[n - 1].0@,
            spec_json_value(members[n - 1].1, source, single_line),
        )
    }
}

/// The location of a span (see [`spec_json_location`]).
fn json_location(source: &Source, single_line: bool, start: JsonPos, end: JsonPos) -> (r: Location)
    ensures
        r@ == spec_json_location(source@, single_line, start, end),
{
    if single_line {
        return Location::in_source(source.clone(), None, None, None);
    }
    let length = if start.line == end.line && end.col >= start.col && end.col - start.col < usize::MAX {
        Some(end.col - start.col + 1)
    } else {
        None
    };
    Location::in_source(source.clone(), Some(start.line), Some(start.col), length)
}

/// The located value of a JSON node (see [`spec_json_value`]).
pub fn convert_json(node: &JsonNode, source: &Source, single_line: bool) -> (r: LocatedValue)
    ensures
        r@ == spec_json_value(*node, source@, single_line),
    decreases *node, 1int,
{
    let location = json_location(source, single_line, node.start, node.end);
    let value = match &node.data {
        JsonData::Null => Value::Null,
        JsonData::Bool(b) => Value::Bool(*b),
        JsonData::PosInt(n) => Value::Int(#[verifier::truncate] (*n as isize)),
        JsonData::NegInt(n) => Value::Int(#[verifier::truncate] (*n as isize)),
        JsonData::Float(t) => Value::Float(t.clone()),
        JsonData::Str(s) => Value::String(s.clone()),
        JsonData::Array(items) => {
            let mut list: Vec<LocatedValue> = Vec::new();
            let mut i: usize = 0;
            while i < items.len()
                invariant
                    node.data == JsonData::Array(*items),
                    0 <= i <= items@.len(),
                    list@.len() == i,
                    forall|k: int| 0 <= k < i ==> (#[trigger] list@[k])@ == spec_json_value(items@[k], source@, single_line),
                decreases items@.len() - i,
            {
                proof {
                    assert(decreases_to!(*node => node.data));
                    assert(decreases_to!(node.data => node.data->Array_0));
                    assert(decreases_to!(node.data->Array_0 => items@));
                    assert(decreases_to!(items@ => items@[i as int]));
                }
                let item = convert_json(&items[i], source, single_line);
                list.push(item);
                i = i + 1;
            }
            let ghost expected = spec_json_value(*node, source@, single_line);
            assert(node.data == JsonData::Array(*items));
            assert(expected.value->List_0 =~= (Seq::new(
                items@.len(),
                |k: int|
                    if 0 <= k < items@.len() {
                        spec_json_value(items@[k], source@, single_line)
                    } else {
                        vstd::pervasive::arbitrary()
                    },
            )));
            assert(expected.value->List_0 =~= located_models(list@));
            proof {
                lemma_list_model(list);
                assert(located_models(list@) =~= Seq::new(
                    items@.len(),
                    |k: int|
                        if 0 <= k < items@.len() {
                            spec_json_value(items@[k], source@, single_line)
                        } else {
                            vstd::pervasive::arbitrary()
                        },
                ));
            }
            let v = Value::List(list);
            assert(v@ == spec_json_value(*node, source@, single_line).value);
            v
        },
        JsonData::Object(members) => {
            proof {
                assert(decreases_to!(*node => node.data));
                assert(decreases_to!(node.data => node.data->Object_0));
            }
            let v = Value::Table(convert_members(node, members, source, single_line));
            assert(v@ == spec_json_value(*node, source@, single_line).value);
            v
        },
    };
    assert(value@ == spec_json_value(*node, source@, single_line).value);
    LocatedValue::new(value, location)
}

/// The map of an object's members (see [`spec_json_members`]).
fn convert_members(node: &JsonNode, members: &Vec<(String, JsonNode)>, source: &Source, single_line: bool) -> (r: Table)
    requires
        node.data == JsonData::Object(*members),
    ensures
        r@ == spec_json_members(members@, source@, single_line, members@.len() as int),
    decreases *node, 0int,
{
    let mut table = Table::new();
    let mut i: usize = 0;
    while i < members.len()
        invariant
            node.data == JsonData::Object(*members),
            0 <= i <= members@.len(),
            table@ == spec_json_members(members@, source@, single_line, i as int),
        decreases members@.len() - i,
    {
        proof {
            assert(decreases_to!(*node => node.data));
            assert(decreases_to!(node.data => node.data->Object_0));
            assert(decreases_to!(node.data->Object_0 => members@));
            assert(decreases_to!(members@ => members@[i as int]));
            assert(decreases_to!(members@[i as int] => members@[i as int].1));
        }
        let item = convert_json(&members[i].1, source, single_line);
        table.insert(members[i].0.clone(), item);
        i = i + 1;
    }
    table
}

/// The JSON parser. Stateless.
pub struct Json;

impl Json {
    /// A JSON parser.
    pub fn new() -> (r: Json) {
        Json
    }

    /// Human-readable name used in error messages.
    pub fn name(&self) -> (r: &'static str)
        ensures
            r@ == "JSON"@,
    {
        "JSON"
    }

    /// The format extensions this parser handles: `json`.
    pub fn supported_format_list(&self) -> (r: Vec<String>)
        ensures
            r@.len() == 1 && r@[0]@ == "json"@,
    {
        vec!["json".to_owned()]
    }

    /// `Some(true)` when the bytes are UTF-8 text the JSON parser accepts, else `Some(false)`.
    pub fn is_format_supported(&self, bytes: &[u8]) -> (r: Option<bool>)
        ensures
            r == Some(vstd::utf8::valid_utf8(bytes@) && json_parse(vstd::utf8::decode_utf8(bytes@)) is Ok),
    {
        match utf8_text(bytes) {
            Some(text) => Some(parse_json_text(text).is_ok()),
            None => Some(false),
        }
    }

    /// Parse the JSON `bytes` of `source`.
    ///
    /// Bytes that are not UTF-8 give `InvalidUtf8`; a syntax error gives `Parse`, located at the
    /// error's span, with the error kind as message; otherwise the tree the JSON parser reads,
    /// converted by [`convert_json`], with an object's members in the order the parser hands
    /// them out.
    pub fn parse(&self, source: &Source, bytes: &[u8], other_source_list: &[Source]) -> (r: Result<LocatedValue, Error>)
        ensures
            !vstd::utf8::valid_utf8(bytes@) ==> (r matches Err(Error::InvalidUtf8 { location })
                && location@ == (LocationModel { source: source@, line: None, column: None, length: None })),
            vstd::utf8::valid_utf8(bytes@) ==> match json_parse(vstd::utf8::decode_utf8(bytes@)) {
                Ok(shape) => (r matches Ok(v) && exists|node: JsonNode|
                    #[trigger] spec_json_shape(node) == shape
                    && v@ == spec_json_value(node, source@, spec_is_single_line(bytes@))),
                Err(e) => r matches Err(Error::Parse { location: Some(l), message }) && l@
                    == spec_json_location(source@, spec_is_single_line(bytes@), e.start, e.end)
                    && message@ == e.kind,
            },
    {
        let text = match utf8_text(bytes) {
            Some(t) => t,
            None => {
                return Err(Error::InvalidUtf8 {
                    location: Location::in_source(source.clone(), None, None, None),
                });
            },
        };
        let single_line = is_single_line(bytes);
        match parse_json_text(text) {
            Ok(node) => {
                let v = convert_json(&node, source, single_line);
                assert(spec_json_shape(node) == json_parse(text@)->Ok_0);
                Ok(v)
            },
            Err(e) => Err(Error::Parse {
                location: Some(json_location(source, single_line, e.start, e.end)),
                message: e.kind,
            }),
        }
    }
}

} // verus!
