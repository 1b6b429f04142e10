//! Parsed configuration values. Every value carries the [`Location`] it was read from and the
//! [`Comment`]s written around it.
//!
//! A floating-point value is held as the text Rust's `Debug` gives for the `f64` (`1.5`, `2.0`,
//! `1e100`), so it travels unchanged from a parser to a writer.

use vstd::prelude::*;
use crate::source::{Source, SourceModel};
use crate::text::str_equal;

verus! {

/// Where a value or an error was found: its source and, when known, a 1-based line, a 1-based
/// character column and a length in characters.
#[derive(Debug)]
pub struct Location {
    pub source: Source,
    pub line: Option<usize>,
    pub column: Option<usize>,
    pub length: Option<usize>,
}

/// Model of a [`Location`].
pub struct LocationModel {
    pub source: SourceModel,
    pub line: Option<usize>,
    pub column: Option<usize>,
    pub length: Option<usize>,
}

impl View for Location {
    type V = LocationModel;

    open spec fn view(&self) -> LocationModel {
        LocationModel {
            source: self.source@,
            line: self.line,
            column: self.column,
            length: self.length,
        }
    }
}

impl Clone for Location {
    fn clone(&self) -> (r: Location)
        ensures
            r@ == self@,
    {
        Location {
            source: self.source.clone(),
            line: self.line,
            column: self.column,
            length: self.length,
        }
    }
}

impl Location {
    /// A location inside `source`.
    pub fn in_source(
        source: Source,
        line: Option<usize>,
        column: Option<usize>,
        length: Option<usize>,
    ) -> (r: Location)
        ensures
            r@ == (LocationModel { source: source@, line, column, length }),
    {
        Location { source, line, column, length }
    }

    /// A location inside a bare source named `source_name` with resource `resource`.
    pub fn at(
        source_name: &str,
        resource: &str,
        line: Option<usize>,
        column: Option<usize>,
        length: Option<usize>,
    ) -> (r: Location)
        ensures
            r@ == (LocationModel {
                source: SourceModel {
                    source: source_name@,
                    options: Seq::empty(),
                    resource: resource@,
                    resource_colon: resource@.len() > 0,
                },
                line,
                column,
                length,
            }),
    {
        let source = Source::named(source_name.to_owned()).with_resource(resource.to_owned());
        Location { source, line, column, length }
    }
}

/// Model of a [`Comment`]: the full-line comments written before a value, in order, and the
/// comment on the same line after it.
pub struct CommentModel {
    pub before: Seq<Seq<char>>,
    pub after: Option<Seq<char>>,
}

/// The comment with nothing before and nothing after.
pub open spec fn spec_no_comment() -> CommentModel {
    CommentModel { before: Seq::empty(), after: None }
}

/// Comments attached to a value, without their `#` markers.
#[derive(Debug)]
pub struct Comment {
    before: Vec<String>,
    after: Option<String>,
}

/// The texts of a sequence of strings.
pub open spec fn spec_texts(v: Seq<String>) -> Seq<Seq<char>> {
    Seq::new(v.len(), |i: int| v[i]@)
}

/// The text of an optional string.
pub open spec fn spec_opt_text(v: Option<String>) -> Option<Seq<char>> {
    match v {
        Some(s) => Some(s@),
        None => None,
    }
}

impl View for Comment {
    type V = CommentModel;

    closed spec fn view(&self) -> CommentModel {
        CommentModel { before: spec_texts(self.before@), after: spec_opt_text(self.after) }
    }
}

/// A copy of a vector of strings.
fn clone_strings(v: &Vec<String>) -> (r: Vec<String>)
    ensures
        spec_texts(r@) == spec_texts(v@),
{
    let mut out: Vec<String> = Vec::new();
    let mut i: usize = 0;
    while i < v.len()
        invariant
            0 <= i <= v@.len(),
            out@.len() == i,
            forall|k: int| 0 <= k < i ==> out@[k]@ == v@[k]@,
        decreases v@.len() - i,
    {
        out.push(v[i].clone());
        i = i + 1;
    }
    assert(spec_texts(out@) =~= spec_texts(v@));
    out
}

impl Clone for Comment {
    fn clone(&self) -> (r: Comment)
        ensures
            r@ == self@,
    {
        let after = match &self.after {
            Some(a) => Some(a.clone()),
            None => None,
        };
        Comment { before: clone_strings(&self.before), after }
    }
}

impl Comment {
    /// An empty comment.
    pub fn new() -> (r: Comment)
        ensures
            r@ == spec_no_comment(),
    {
        let r = Comment { before: Vec::new(), after: None };
        assert(r@.before =~= Seq::<Seq<char>>::empty());
        r
    }

    /// The full-line comments written before the value.
    pub fn before(&self) -> (r: &[String])
        ensures
            spec_texts(r@) == self@.before,
    {
        self.before.as_slice()
    }

    /// The comment written after the value on its line.
    pub fn after(&self) -> (r: Option<&str>)
        ensures
            match r {
                Some(t) => self@.after == Some(t@),
                None => self@.after is None,
            },
    {
        match &self.after {
            Some(a) => Some(a.as_str()),
            None => None,
        }
    }

    /// Replace the comments written before the value.
    pub fn set_before(&mut self, before: Vec<String>)
        ensures
            final(self)@ == (CommentModel { before: spec_texts(before@), after: old(self)@.after }),
    {
        self.before = before;
    }

    /// Replace the comment written after the value.
    pub fn set_after(&mut self, after: Option<String>)
        ensures
            final(self)@ == (CommentModel { before: old(self)@.before, after: spec_opt_text(after) }),
    {
        self.after = after;
    }

    /// This comment with `before` as its leading comments.
    pub fn with_before(self, before: Vec<String>) -> (r: Comment)
        ensures
            r@ == (CommentModel { before: spec_texts(before@), after: self@.after }),
    {
        let mut this = self;
        this.set_before(before);
        this
    }

    /// This comment with `after` as its trailing comment.
    pub fn with_after(self, after: Option<String>) -> (r: Comment)
        ensures
            r@ == (CommentModel { before: self@.before, after: spec_opt_text(after) }),
    {
        let mut this = self;
        this.set_after(after);
        this
    }

    /// `true` when there is no comment before or after.
    pub fn is_empty(&self) -> (r: bool)
        ensures
            r == (self@.before.len() == 0 && self@.after is None),
    {
        self.before.len() == 0 && self.after.is_none()
    }
}

/// A configuration value.
#[derive(Debug)]
pub enum Value {
    /// An explicit null.
    Null,
    /// A boolean.
    Bool(bool),
    /// An integer.
    Int(isize),
    /// A floating-point number, as the `Debug` text of the `f64`.
    Float(String),
    /// A string.
    String(String),
    /// A list of located values.
    List(Vec<LocatedValue>),
    /// A map from keys to located values, in insertion order.
    Table(Table),
}

/// A value together with where it was found and the comments around it.
#[derive(Debug)]
pub struct LocatedValue {
    value: Value,
    location: Location,
    comment: Comment,
}

/// An insertion-ordered map from string keys to located values. Inserting an existing key
/// replaces its value in place, so keys are unique.
#[derive(Debug)]
pub struct Table {
    entries: Vec<(String, LocatedValue)>,
}

/// Model of a [`Value`].
pub enum ValueModel {
    Null,
    Bool(bool),
    Int(isize),
    Float(Seq<char>),
    Str(Seq<char>),
    List(Seq<LocatedModel>),
    Table(Seq<(Seq<char>, LocatedModel)>),
}

/// Model of a [`LocatedValue`].
pub struct LocatedModel {
    pub value: ValueModel,
    pub location: LocationModel,
    pub comment: CommentModel,
}

/// Model of a [`Table`]: its entries in insertion order.
pub type TableModel = Seq<(Seq<char>, LocatedModel)>;

/// The model of a value.
pub open spec fn value_model(v: Value) -> ValueModel
    decreases v,
{
    match v {
        Value::Null => ValueModel::Null,
        Value::Bool(b) => ValueModel::Bool(b),
        Value::Int(i) => ValueModel::Int(i),
        Value::Float(t) => ValueModel::Float(t@),
        Value::String(t) => ValueModel::Str(t@),
        Value::List(l) => ValueModel::List(
            Seq::new(
                l@.len(),
                |i: int|
                    if 0 <= i < l@.len() {
                        located_model(l@[i])
                    } else {
                        vstd::pervasive::arbitrary()
                    },
            ),
        ),
        Value::Table(t) => ValueModel::Table(table_model(t)),
    }
}

/// The model of a located value.
pub closed spec fn located_model(lv: LocatedValue) -> LocatedModel
    decreases lv,
{
    LocatedModel {
        value: value_model(lv.value),
        location: lv.location@,
        comment: lv.comment@,
    }
}

/// The model of a table: its entries in insertion order.
pub closed spec fn table_model(t: Table) -> TableModel
    decreases t,
{
    Seq::new(
        t.entries@.len(),
        |i: int|
            if 0 <= i < t.entries@.len() {
                (t.entries@[i].0@, located_model(t.entries@[i].1))
            } else {
                vstd::pervasive::arbitrary()
            },
    )
}

/// The models of a sequence of located values.
pub open spec fn located_models(s: Seq<LocatedValue>) -> Seq<LocatedModel> {
    Seq::new(s.len(), |i: int| s[i]@)
}

impl View for Value {
    type V = ValueModel;

    open spec fn view(&self) -> ValueModel {
        value_model(*self)
    }
}

impl View for LocatedValue {
    type V = LocatedModel;

    open spec fn view(&self) -> LocatedModel {
        located_model(*self)
    }
}

impl View for Table {
    type V = TableModel;

    open spec fn view(&self) -> TableModel {
        table_model(*self)
    }
}

/// The model of a list value equals the models of its items.
pub proof fn lemma_list_model(l: Vec<LocatedValue>)
    ensures
        Value::List(l)@ == ValueModel::List(located_models(l@)),
{
    assert(value_model(Value::List(l))->List_0 =~= located_models(l@));
}

/// A value without locations and comments: what two values are compared by.
pub enum PlainValue {
    Null,
    Bool(bool),
    Int(isize),
    Float(Seq<char>),
    Str(Seq<char>),
    List(Seq<PlainValue>),
    Table(Seq<(Seq<char>, PlainValue)>),
}

/// The content of a modelled value, with every location and comment dropped.
pub open spec fn spec_plain(v: ValueModel) -> PlainValue
    decreases v,
{
    match v {
        ValueModel::Null => PlainValue::Null,
        ValueModel::Bool(b) => PlainValue::Bool(b),
        ValueModel::Int(i) => PlainValue::Int(i),
        ValueModel::Float(t) => PlainValue::Float(t),
        ValueModel::Str(t) => PlainValue::Str(t),
        ValueModel::List(s) => PlainValue::List(
            Seq::new(
                s.len(),
                |i: int|
                    if 0 <= i < s.len() {
                        spec_plain(s[i].value)
                    } else {
                        PlainValue::Null
                    },
            ),
        ),
        ValueModel::Table(e) => PlainValue::Table(
            Seq::new(
                e.len(),
                |i: int|
                    if 0 <= i < e.len() {
                        (e[i].0, spec_plain(e[i].1.value))
                    } else {
                        (Seq::empty(), PlainValue::Null)
                    },
            ),
        ),
    }
}

/// `true` when `t` is the text of a zero float: `0.0` or `-0.0`.
pub open spec fn spec_is_zero_text(t: Seq<char>) -> bool {
    t == "0.0"@ || t == "-0.0"@
}

/// Equality of two floats given by their texts, as `f64` compares them: `NaN` equals nothing,
/// the two zeros are equal, and otherwise equal floats have equal texts.
pub open spec fn spec_float_eq(a: Seq<char>, b: Seq<char>) -> bool {
    a != "NaN"@ && (a == b || (spec_is_zero_text(a) && spec_is_zero_text(b)))
}

/// `true` when two plain values have the same content: floats compare as `f64` does, lists item
/// by item, maps entry by entry in order, everything else by equality.
pub open spec fn spec_same_plain(a: PlainValue, b: PlainValue) -> bool
    decreases a,
{
    match a {
        PlainValue::Float(x) => b matches PlainValue::Float(y) && spec_float_eq(x, y),
        PlainValue::List(x) => b matches PlainValue::List(y) && x.len() == y.len() && forall|i: int|
            0 <= i < x.len() ==> spec_same_plain(#[trigger] x[i], y[i]),
        PlainValue::Table(x) => b matches PlainValue::Table(y) && x.len() == y.len() && forall|i: int|
            0 <= i < x.len() ==> (#[trigger] x[i]).0 == y[i].0 && spec_same_plain(x[i].1, y[i].1),
        _ => a == b,
    }
}

/// `true` when two values have the same content (locations and comments aside).
pub open spec fn spec_same_value(a: ValueModel, b: ValueModel) -> bool {
    spec_same_plain(spec_plain(a), spec_plain(b))
}

/// The name of a value's kind.
pub open spec fn spec_kind_name(v: ValueModel) -> Seq<char> {
    match v {
        ValueModel::Null => "null"@,
        ValueModel::Bool(_) => "boolean"@,
        ValueModel::Int(_) => "integer"@,
        ValueModel::Float(_) => "float"@,
        ValueModel::Str(_) => "string"@,
        ValueModel::List(_) => "list"@,
        ValueModel::Table(_) => "map"@,
    }
}

impl Value {
    /// A copy of this value.
    pub fn clone_value(&self) -> (r: Value)
        ensures
            r@ == self@,
        decreases self,
    {
        match self {
            Value::Null => Value::Null,
            Value::Bool(b) => Value::Bool(*b),
            Value::Int(i) => Value::Int(*i),
            Value::Float(t) => Value::Float(t.clone()),
            Value::String(t) => Value::String(t.clone()),
            Value::List(l) => {
                let mut out: Vec<LocatedValue> = Vec::new();
                let mut i: usize = 0;
                while i < l.len()
                    invariant
                        *self == Value::List(*l),
                        0 <= i <= l@.len(),
                        out@.len() == i,
                        forall|k: int| 0 <= k < i ==> out@[k]@ == l@[k]@,
                    decreases l@.len() - i,
                {
                    assert(decreases_to!(*self => self->List_0));
                    assert(decreases_to!(*l => l@));
                    assert(decreases_to!(l@ => l@[i as int]));
                    let c = l[i].clone_located();
                    out.push(c);
                    i = i + 1;
                }
                let r = Value::List(out);
                assert(r@ == self@) by {
                    assert(value_model(r)->List_0 =~= value_model(*self)->List_0);
                }
                r
            },
            Value::Table(t) => {
                assert(decreases_to!(*self => self->Table_0));
                Value::Table(t.clone_table())
            },
        }
    }

    /// The name of this value's kind (`null`, `boolean`, `integer`, `float`, `string`, `list`,
    /// `map`).
    pub fn kind_name(&self) -> (r: &'static str)
        ensures
            r@ == spec_kind_name(self@),
    {
        match self {
            Value::Null => "null",
            Value::Bool(_) => "boolean",
            Value::Int(_) => "integer",
            Value::Float(_) => "float",
            Value::String(_) => "string",
            Value::List(_) => "list",
            Value::Table(_) => "map",
        }
    }

    /// `true` for [`Value::Null`].
    pub fn is_null(&self) -> (r: bool)
        ensures
            r == (self@ is Null),
    {
        match self {
            Value::Null => true,
            _ => false,
        }
    }

    /// The boolean, when this is one.
    pub fn as_bool(&self) -> (r: Option<bool>)
        ensures
            match self@ {
                ValueModel::Bool(b) => r == Some(b),
                _ => r is None,
            },
    {
        match self {
            Value::Bool(b) => Some(*b),
            _ => None,
        }
    }

    /// The integer, when this is one.
    pub fn as_int(&self) -> (r: Option<isize>)
        ensures
            match self@ {
                ValueModel::Int(i) => r == Some(i),
                _ => r is None,
            },
    {
        match self {
            Value::Int(i) => Some(*i),
            _ => None,
        }
    }

    /// The `Debug` text of the float, when this is one.
    pub fn as_float(&self) -> (r: Option<&String>)
        ensures
            match self@ {
                ValueModel::Float(t) => r matches Some(s) && s@ == t,
                _ => r is None,
            },
    {
        match self {
            Value::Float(t) => Some(t),
            _ => None,
        }
    }

    /// The string, when this is one.
    pub fn as_string(&self) -> (r: Option<&String>)
        ensures
            match self@ {
                ValueModel::Str(t) => r matches Some(s) && s@ == t,
                _ => r is None,
            },
    {
        match self {
            Value::String(t) => Some(t),
            _ => None,
        }
    }

    /// The items, when this is a list.
    pub fn as_list(&self) -> (r: Option<&Vec<LocatedValue>>)
        ensures
            match self@ {
                ValueModel::List(s) => r matches Some(l) && located_models(l@) == s,
                _ => r is None,
            },
    {
        match self {
            Value::List(l) => {
                proof {
                    lemma_list_model(*l);
                }
                Some(l)
            },
            _ => None,
        }
    }

    /// The map, when this is one.
    pub fn as_table(&self) -> (r: Option<&Table>)
        ensures
            match self@ {
                ValueModel::Table(e) => r matches Some(t) && t@ == e,
                _ => r is None,
            },
    {
        match self {
            Value::Table(t) => Some(t),
            _ => None,
        }
    }

    /// A list value holding `items`.
    pub fn from_list(items: Vec<LocatedValue>) -> (r: Value)
        ensures
            r@ == ValueModel::List(located_models(items@)),
    {
        proof {
            lemma_list_model(items);
        }
        Value::List(items)
    }

    /// Whether two values have the same content, comparing nested items and entries in order
    /// and ignoring locations and comments.
    pub fn same_value(&self, other: &Value) -> (r: bool)
        ensures
            r == spec_same_value(self@, other@),
        decreases self,
    {
        match (self, other) {
            (Value::Null, Value::Null) => true,
            (Value::Bool(a), Value::Bool(b)) => *a == *b,
            (Value::Int(a), Value::Int(b)) => *a == *b,
            (Value::Float(a), Value::Float(b)) => {
                let nan = str_equal(a.as_str(), "NaN");
                let zeros = (str_equal(a.as_str(), "0.0") || str_equal(a.as_str(), "-0.0"))
                    && (str_equal(b.as_str(), "0.0") || str_equal(b.as_str(), "-0.0"));
                !nan && (str_equal(a.as_str(), b.as_str()) || zeros)
            },
            (Value::String(a), Value::String(b)) => str_equal(a.as_str(), b.as_str()),
            (Value::List(a), Value::List(b)) => {
                proof {
                    lemma_list_model(*a);
                    lemma_list_model(*b);
                }
                if a.len() != b.len() {
                    proof {
                        assert(spec_plain(self@)->List_0.len() != spec_plain(other@)->List_0.len());
                    }
                    return false;
                }
                let mut i: usize = 0;
                while i < a.len()
                    invariant
                        *self == Value::List(*a),
                        *other == Value::List(*b),
                        a@.len() == b@.len(),
                        0 <= i <= a@.len(),
                        forall|k: int|
                            0 <= k < i ==> spec_same_plain(spec_plain(a@[k]@.value), spec_plain(b@[k]@.value)),
                    decreases a@.len() - i,
                {
                    assert(decreases_to!(*self => self->List_0));
                    assert(decreases_to!(*a => a@));
                    assert(decreases_to!(a@ => a@[i as int]));
                    assert(decreases_to!(a@[i as int] => a@[i as int].value));
                    let same = a[i].value.same_value(&b[i].value);
                    if !same {
                        proof {
                            let pa = spec_plain(self@)->List_0;
                            let pb = spec_plain(other@)->List_0;
                            assert(!spec_same_plain(pa[i as int], pb[i as int]));
                        }
                        return false;
                    }
                    i = i + 1;
                }
                proof {
                    let pa = spec_plain(self@)->List_0;
                    let pb = spec_plain(other@)->List_0;
                    assert forall|k: int| 0 <= k < pa.len() implies spec_same_plain(#[trigger] pa[k], pb[k]) by {
                        assert(pa[k] == spec_plain(a@[k]@.value));
                        assert(pb[k] == spec_plain(b@[k]@.value));
                    }
                }
                true
            },
            (Value::Table(a), Value::Table(b)) => {
                assert(decreases_to!(*self => self->Table_0));
                a.same_table(b)
            },
            _ => false,
        }
    }
}

impl LocatedValue {
    /// A value at `location`, with no comment.
    pub fn new(value: Value, location: Location) -> (r: LocatedValue)
        ensures
            r@ == (LocatedModel { value: value@, location: location@, comment: spec_no_comment() }),
    {
        LocatedValue { value, location, comment: Comment::new() }
    }

    /// A copy of this located value.
    pub fn clone_located(&self) -> (r: LocatedValue)
        ensures
            r@ == self@,
        decreases self,
    {
        assert(decreases_to!(*self => self.value));
        LocatedValue {
            value: self.value.clone_value(),
            location: self.location.clone(),
            comment: self.comment.clone(),
        }
    }

    /// The value.
    pub fn value(&self) -> (r: &Value)
        ensures
            r@ == self@.value,
    {
        &self.value
    }

    /// Where the value was found.
    pub fn location(&self) -> (r: &Location)
        ensures
            r@ == self@.location,
    {
        &self.location
    }

    /// The comments around the value.
    pub fn comment(&self) -> (r: &Comment)
        ensures
            r@ == self@.comment,
    {
        &self.comment
    }

    /// This located value with `comment` as its comment.
    pub fn with_comment(self, comment: Comment) -> (r: LocatedValue)
        ensures
            r@ == (LocatedModel { comment: comment@, ..self@ }),
    {
        LocatedValue { value: self.value, location: self.location, comment }
    }

    /// Replace the value, keeping location and comment.
    pub fn set_value(&mut self, value: Value)
        ensures
            final(self)@ == (LocatedModel { value: value@, ..old(self)@ }),
    {
        self.value = value;
    }

    /// Replace the location, keeping value and comment.
    pub fn set_location(&mut self, location: Location)
        ensures
            final(self)@ == (LocatedModel { location: location@, ..old(self)@ }),
    {
        self.location = location;
    }

    /// The value, giving up location and comment.
    pub fn into_value(self) -> (r: Value)
        ensures
            r@ == self@.value,
    {
        self.value
    }
}

/// Index of the entry with key `key`, or `-1` when there is none.
pub open spec fn spec_index_of(e: TableModel, key: Seq<char>) -> int
    decreases e.len(),
{
    if e.len() == 0 {
        -1
    } else if e.last().0 == key {
        e.len() - 1
    } else {
        spec_index_of(e.drop_last(), key)
    }
}

/// The value stored under `key`.
pub open spec fn spec_table_get(e: TableModel, key: Seq<char>) -> Option<LocatedModel> {
    let i = spec_index_of(e, key);
    if i >= 0 {
        Some(e[i].1)
    } else {
        None
    }
}

/// The table after inserting `value` under `key`: an existing entry keeps its place and takes
/// the new value, a new key goes last.
pub open spec fn spec_table_insert(e: TableModel, key: Seq<char>, value: LocatedModel) -> TableModel {
    let i = spec_index_of(e, key);
    if i >= 0 {
        e.update(i, (key, value))
    } else {
        e.push((key, value))
    }
}

/// No key occurs twice.
pub open spec fn spec_keys_unique(e: TableModel) -> bool {
    forall|i: int, j: int| 0 <= i < j < e.len() ==> e[i].0 != e[j].0
}

/// `spec_index_of` finds the entry with the key, and nothing after it has the key.
pub proof fn lemma_index_of(e: TableModel, key: Seq<char>)
    ensures
        -1 <= spec_index_of(e, key) < e.len(),
        spec_index_of(e, key) >= 0 ==> e[spec_index_of(e, key)].0 == key,
        forall|j: int| spec_index_of(e, key) < j < e.len() ==> e[j].0 != key,
    decreases e.len(),
{
    if e.len() > 0 && e.last().0 != key {
        let d = e.drop_last();
        lemma_index_of(d, key);
        assert forall|j: int| spec_index_of(e, key) < j < e.len() implies e[j].0 != key by {
            if j < e.len() - 1 {
                assert(e[j] == d[j]);
            }
        }
    }
}

/// With unique keys, an entry holding `key` is the one `spec_index_of` finds.
pub proof fn lemma_index_of_unique(e: TableModel, key: Seq<char>, j: int)
    requires
        spec_keys_unique(e),
        0 <= j < e.len(),
        e[j].0 == key,
    ensures
        spec_index_of(e, key) == j,
{
    lemma_index_of(e, key);
}

/// Inserting keeps the keys unique.
pub proof fn lemma_insert_unique(e: TableModel, key: Seq<char>, value: LocatedModel)
    requires
        spec_keys_unique(e),
    ensures
        spec_keys_unique(spec_table_insert(e, key, value)),
{
    lemma_index_of(e, key);
}

impl Table {
    /// No key occurs twice.
    #[verifier::type_invariant]
    spec fn unique_keys(self) -> bool {
        spec_keys_unique(table_model(self))
    }

    /// An empty table.
    pub fn new() -> (r: Table)
        ensures
            r@ == Seq::<(Seq<char>, LocatedModel)>::empty(),
    {
        let r = Table { entries: Vec::new() };
        assert(r@ =~= Seq::<(Seq<char>, LocatedModel)>::empty());
        r
    }

    /// Number of entries.
    pub fn len(&self) -> (r: usize)
        ensures
            r == self@.len(),
    {
        self.entries.len()
    }

    /// `true` when there are no entries.
    pub fn is_empty(&self) -> (r: bool)
        ensures
            r == (self@.len() == 0),
    {
        self.entries.len() == 0
    }

    /// Index of the entry with key `key`, if any.
    fn find(&self, key: &str) -> (r: Option<usize>)
        ensures
            match r {
                Some(i) => spec_index_of(self@, key@) == i && i < self@.len() && self@.len()
                    == self.entries@.len(),
                None => spec_index_of(self@, key@) == -1,
            },
    {
        proof {
            lemma_index_of(self@, key@);
        }
        let n = self.entries.len();
        assert(self@.subrange(0, n as int) =~= self@);
        let mut i: usize = n;
        while i > 0
            invariant
                n == self.entries@.len(),
                0 <= i <= n,
                spec_index_of(self@, key@) == spec_index_of(self@.subrange(0, i as int), key@),
            decreases i,
        {
            let ghost sub = self@.subrange(0, i as int);
            assert(sub.last() == self@[i - 1]);
            if str_equal(self.entries[i - 1].0.as_str(), key) {
                return Some(i - 1);
            }
            assert(sub.drop_last() =~= self@.subrange(0, i - 1));
            i = i - 1;
        }
        None
    }

    /// `true` when `key` has an entry.
    pub fn contains_key(&self, key: &str) -> (r: bool)
        ensures
            r == (spec_table_get(self@, key@) is Some),
    {
        self.find(key).is_some()
    }

    /// The value stored under `key`.
    pub fn get(&self, key: &str) -> (r: Option<&LocatedValue>)
        ensures
            match r {
                Some(v) => spec_table_get(self@, key@) == Some(v@),
                None => spec_table_get(self@, key@) is None,
            },
    {
        match self.find(key) {
            Some(i) => Some(&self.entries[i].1),
            None => None,
        }
    }

    /// Store `value` under `key`: an existing entry keeps its place and takes the new value, a
    /// new key goes last.
    pub fn insert(&mut self, key: String, value: LocatedValue)
        ensures
            final(self)@ == spec_table_insert(old(self)@, key@, value@),
    {
        proof {
            use_type_invariant(&*self);
            lemma_insert_unique(old(self)@, key@, value@);
        }
        let found = self.find(key.as_str());
        let mut taken = Table { entries: Vec::new() };
        proof {
            assert(table_model(taken) =~= Seq::<(Seq<char>, LocatedModel)>::empty());
        }
        std::mem::swap(self, &mut taken);
        let mut entries = taken.entries;
        match found {
            Some(i) => {
                entries.set(i, (key, value));
            },
            None => {
                entries.push((key, value));
            },
        }
        proof {
            assert(table_model(Table { entries }) =~= spec_table_insert(old(self)@, key@, value@));
        }
        *self = Table { entries };
    }

    /// The entries in insertion order.
    pub fn entries(&self) -> (r: &[(String, LocatedValue)])
        ensures
            r@.len() == self@.len(),
            forall|i: int| 0 <= i < r@.len() ==> (#[trigger] r@[i]).0@ == self@[i].0 && r@[i].1@ == self@[i].1,
    {
        self.entries.as_slice()
    }

    /// The keys in insertion order.
    pub fn keys(&self) -> (r: Vec<String>)
        ensures
            r@.len() == self@.len(),
            forall|i: int| 0 <= i < r@.len() ==> (#[trigger] r@[i])@ == self@[i].0,
    {
        let mut out: Vec<String> = Vec::new();
        let mut i: usize = 0;
        while i < self.entries.len()
            invariant
                0 <= i <= self@.len(),
                self.entries@.len() == self@.len(),
                out@.len() == i,
                forall|k: int| 0 <= k < i ==> (#[trigger] out@[k])@ == self@[k].0,
            decreases self@.len() - i,
        {
            out.push(self.entries[i].0.clone());
            i = i + 1;
        }
        out
    }

    /// A copy of this table.
    pub fn clone_table(&self) -> (r: Table)
        ensures
            r@ == self@,
        decreases self,
    {
        let mut out: Vec<(String, LocatedValue)> = Vec::new();
        let mut i: usize = 0;
        while i < self.entries.len()
            invariant
                0 <= i <= self.entries@.len(),
                out@.len() == i,
                forall|k: int|
                    0 <= k < i ==> out@[k].0@ == self.entries@[k].0@ && out@[k].1@
                        == self.entries@[k].1@,
            decreases self.entries@.len() - i,
        {
            assert(decreases_to!(*self => self.entries));
            assert(decreases_to!(self.entries => self.entries@));
            assert(decreases_to!(self.entries@ => self.entries@[i as int]));
            assert(decreases_to!(self.entries@[i as int] => self.entries@[i as int].1));
            let k = self.entries[i].0.clone();
            let v = self.entries[i].1.clone_located();
            out.push((k, v));
            i = i + 1;
        }
        proof {
            use_type_invariant(self);
            assert(table_model(Table { entries: out }) =~= self@);
        }
        Table { entries: out }
    }

    /// Whether two tables hold the same keys in the same order with values of the same content.
    pub fn same_table(&self, other: &Table) -> (r: bool)
        ensures
            r == spec_same_value(ValueModel::Table(self@), ValueModel::Table(other@)),
        decreases self,
    {
        let n = self.entries.len();
        if n != other.entries.len() {
            proof {
                assert(spec_plain(ValueModel::Table(self@))->Table_0.len() != spec_plain(
                    ValueModel::Table(other@),
                )->Table_0.len());
            }
            return false;
        }
        let mut i: usize = 0;
        while i < n
            invariant
                n == self.entries@.len(),
                n == other.entries@.len(),
                0 <= i <= n,
                forall|k: int|
                    0 <= k < i ==> self@[k].0 == other@[k].0 && spec_same_plain(
                        spec_plain(self@[k].1.value),
                        spec_plain(other@[k].1.value),
                    ),
            decreases n - i,
        {
            assert(decreases_to!(*self => self.entries));
            assert(decreases_to!(self.entries => self.entries@));
            assert(decreases_to!(self.entries@ => self.entries@[i as int]));
            assert(decreases_to!(self.entries@[i as int] => self.entries@[i as int].1));
            assert(decreases_to!(self.entries@[i as int].1 => self.entries@[i as int].1.value));
            let same_key = str_equal(self.entries[i].0.as_str(), other.entries[i].0.as_str());
            let same = same_key && self.entries[i].1.value.same_value(&other.entries[i].1.value);
            if !same {
                proof {
                    let pa = spec_plain(ValueModel::Table(self@))->Table_0;
                    let pb = spec_plain(ValueModel::Table(other@))->Table_0;
                    assert(!(pa[i as int].0 == pb[i as int].0 && spec_same_plain(pa[i as int].1, pb[i as int].1)));
                }
                return false;
            }
            i = i + 1;
        }
        proof {
            let pa = spec_plain(ValueModel::Table(self@))->Table_0;
            let pb = spec_plain(ValueModel::Table(other@))->Table_0;
            assert forall|k: int| 0 <= k < pa.len() implies (#[trigger] pa[k]).0 == pb[k].0 && spec_same_plain(
                pa[k].1,
                pb[k].1,
            ) by {
                assert(pa[k] == (self@[k].0, spec_plain(self@[k].1.value)));
                assert(pb[k] == (other@[k].0, spec_plain(other@[k].1.value)));
            }
        }
        true
    }
}

/// Errors a parser reports.
#[derive(Debug)]
pub enum Error {
    /// The bytes are not valid UTF-8.
    InvalidUtf8 { location: Location },
    /// A syntax or structural error, located when the position is known.
    Parse { location: Option<Location>, message: String },
    /// A value of a kind that has no configuration representation (such as a date-time).
    UnsupportedType { location: Location, found: String },
}

/// The display text of a parser error.
pub open spec fn spec_value_error_text(e: Error) -> Seq<char> {
    match e {
        Error::InvalidUtf8 { .. } => "configuration is not valid UTF-8"@,
        Error::Parse { message, .. } => message@,
        Error::UnsupportedType { found, .. } => "unsupported value type `"@ + found@ + "`"@,
    }
}

impl Error {
    /// The display text of this error.
    pub fn to_display_string(&self) -> (r: String)
        ensures
            r@ == spec_value_error_text(*self),
    {
        match self {
            Error::InvalidUtf8 { .. } => "configuration is not valid UTF-8".to_owned(),
            Error::Parse { message, .. } => message.clone(),
            Error::UnsupportedType { found, .. } => {
                let mut out = "unsupported value type `".to_owned();
                out.append(found.as_str());
                out.append("`");
                out
            },
        }
    }
}

} // verus!
