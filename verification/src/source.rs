//! Configuration source declarations: `SOURCE[(OPTIONS)][:RESOURCE]`.
//!
//! A [`Source`] names a loader, carries its [`Options`], and an optional resource address.

use vstd::prelude::*;
use crate::text::{
    str_equal, spec_eq_ignore_ascii_case, str_eq_ignore_ascii_case, push_chars, push_char,
    string_from_chars, i64_text, debug_string, chars_of, is_ident_char, spec_is_ident_char,
    eq_ignore_ascii_case,
};
use crate::source_text::{spec_string_form, spec_escape, spec_option_text, spec_items_text, spec_entries_text, spec_source_text};
use crate::source_parse::{ParseError, ParseErrorModel, spec_parse_result, parse, spec_value_display, spec_items_display, spec_pairs_display, is_int_token, contains_char};



verus! {

/// A pipeline stage whose errors a [`Source`] can choose to tolerate.
#[derive(Debug, Clone, Copy, PartialEq, Eq, Hash, Structural)]
pub enum Stage {
    /// The load stage (fetching the raw bytes).
    Load,
    /// The parse stage (turning bytes into values).
    Parse,
    /// The validate stage (checking values against a schema).
    Validate,
}

/// The reserved-option key name of a stage.
pub open spec fn spec_stage_name(stage: Stage) -> Seq<char> {
    match stage {
        Stage::Load => "load"@,
        Stage::Parse => "parse"@,
        Stage::Validate => "validate"@,
    }
}

impl Stage {
    /// The reserved-option key name for this stage (`load` / `parse` / `validate`).
    pub fn as_str(self) -> (r: &'static str)
        ensures
            r@ == spec_stage_name(self),
    {
        match self {
            Stage::Load => "load",
            Stage::Parse => "parse",
            Stage::Validate => "validate",
        }
    }
}

/// What to do when a stage fails for a given [`Source`].
#[derive(Debug, Clone, Copy, PartialEq, Eq, Hash, Structural)]
pub enum OnError {
    /// Abort the pipeline with the error (default).
    Fail,
    /// Skip this source's contribution (load/parse) or fall back to a default (validate).
    Skip,
}

impl Default for OnError {
    fn default() -> (r: OnError)
        ensures
            r == OnError::Fail,
    {
        OnError::Fail
    }
}

/// Kind of value stored in [`OptionValue`].
#[derive(Debug, Clone, Copy, PartialEq, Eq, Hash, Structural)]
pub enum OptionValueType {
    /// A boolean value.
    Bool,
    /// A 64-bit signed integer.
    Integer,
    /// A floating-point number.
    Float,
    /// A string value.
    String,
    /// A nested option map.
    Table,
    /// A list of values.
    List,
}

/// The display name of a value kind.
pub open spec fn spec_type_display(t: OptionValueType) -> Seq<char> {
    match t {
        OptionValueType::Bool => "boolean"@,
        OptionValueType::Integer => "integer"@,
        OptionValueType::Float => "float"@,
        OptionValueType::String => "string"@,
        OptionValueType::Table => "map"@,
        OptionValueType::List => "list"@,
    }
}

impl OptionValueType {
    /// The name this kind displays as (`boolean`, `integer`, `float`, `string`, `map`, `list`).
    pub fn as_str(self) -> (r: &'static str)
        ensures
            r@ == spec_type_display(self),
    {
        match self {
            OptionValueType::Bool => "boolean",
            OptionValueType::Integer => "integer",
            OptionValueType::Float => "float",
            OptionValueType::String => "string",
            OptionValueType::Table => "map",
            OptionValueType::List => "list",
        }
    }
}

/// Model of a [`Source`].
pub struct SourceModel {
    pub source: Seq<char>,
    pub options: EntriesModel,
    pub resource: Seq<char>,
    pub resource_colon: bool,
}

/// Mathematical model of an [`OptionValue`].
pub enum OptionModel {
    Bool(bool),
    Integer(i64),
    /// Canonical decimal text of the number.
    Float(Seq<char>),
    Str(Seq<char>),
    List(Seq<OptionModel>),
    Table(Seq<(Seq<char>, OptionModel)>),
}

/// Model of an [`Options`] map: its entries in insertion order.
pub type EntriesModel = Seq<(Seq<char>, OptionModel)>;

/// Dynamically typed loader option or nested option map.
///
/// A floating-point option is held as the canonical decimal text of the number (as `Display`
/// writes an `f64`: `2.5`, whole numbers with one decimal place `2.0`).
#[derive(Debug)]
pub enum OptionValue {
    /// A boolean value.
    Bool(bool),
    /// A 64-bit signed integer.
    Integer(i64),
    /// A floating-point number, as its canonical decimal text.
    Float(String),
    /// A string value.
    String(String),
    /// A list of values.
    List(Vec<OptionValue>),
    /// A nested option map.
    Table(Options),
}

/// The model of an option value.
pub open spec fn value_model(v: OptionValue) -> OptionModel
    decreases v,
{
    match v {
        OptionValue::Bool(b) => OptionModel::Bool(b),
        OptionValue::Integer(i) => OptionModel::Integer(i),
        OptionValue::Float(t) => OptionModel::Float(t@),
        OptionValue::String(t) => OptionModel::Str(t@),
        OptionValue::List(l) => OptionModel::List(
            Seq::new(
                l@.len(),
                |i: int|
                    if 0 <= i < l@.len() {
                        value_model(l@[i])
                    } else {
                        OptionModel::Bool(false)
                    },
            ),
        ),
        OptionValue::Table(o) => OptionModel::Table(options_model(o)),
    }
}

/// The model of an option map: its entries in insertion order.
pub closed spec fn options_model(o: Options) -> EntriesModel
    decreases o,
{
    Seq::new(
        o.entries@.len(),
        |i: int|
            if 0 <= i < o.entries@.len() {
                (o.entries@[i].0@, value_model(o.entries@[i].1))
            } else {
                (Seq::empty(), OptionModel::Bool(false))
            },
    )
}

/// The model of a sequence of option values.
pub open spec fn list_model(l: Seq<OptionValue>) -> Seq<OptionModel> {
    Seq::new(l.len(), |i: int| value_model(l[i]))
}

/// The model of a sequence of option entries.
pub open spec fn entries_model(e: Seq<(String, OptionValue)>) -> EntriesModel {
    Seq::new(e.len(), |i: int| (e[i].0@, value_model(e[i].1)))
}

impl View for OptionValue {
    type V = OptionModel;

    open spec fn view(&self) -> OptionModel {
        value_model(*self)
    }
}

/// The kind of a modelled value.
pub open spec fn spec_type_of(v: OptionModel) -> OptionValueType {
    match v {
        OptionModel::Bool(_) => OptionValueType::Bool,
        OptionModel::Integer(_) => OptionValueType::Integer,
        OptionModel::Float(_) => OptionValueType::Float,
        OptionModel::Str(_) => OptionValueType::String,
        OptionModel::List(_) => OptionValueType::List,
        OptionModel::Table(_) => OptionValueType::Table,
    }
}

impl Clone for OptionValue {
    fn clone(&self) -> (r: OptionValue)
        ensures
            r@ == self@,
        decreases self,
    {
        match self {
            OptionValue::Bool(b) => OptionValue::Bool(*b),
            OptionValue::Integer(i) => OptionValue::Integer(*i),
            OptionValue::Float(t) => OptionValue::Float(t.clone()),
            OptionValue::String(t) => OptionValue::String(t.clone()),
            OptionValue::List(l) => {
                let mut out: Vec<OptionValue> = Vec::new();
                let mut i: usize = 0;
                while i < l.len()
                    invariant
                        *self == OptionValue::List(*l),
                        0 <= i <= l@.len(),
                        out@.len() == i,
                        forall|k: int| 0 <= k < i ==> out@[k]@ == l@[k]@,
                    decreases l@.len() - i,
                {
                    assert(decreases_to!(*self => self->List_0));
                    assert(decreases_to!(*l => l@));
                    assert(decreases_to!(l@ => l@[i as int]));
                    let c = l[i].clone();
                    out.push(c);
                    i = i + 1;
                }
                let r = OptionValue::List(out);
                assert(r@ == self@) by {
                    let a = value_model(r)->List_0;
                    let b = value_model(*self)->List_0;
                    assert(a =~= b);
                }
                r
            },
            OptionValue::Table(o) => {
                let mut out: Vec<(String, OptionValue)> = Vec::new();
                let mut i: usize = 0;
                while i < o.entries.len()
                    invariant
                        *self == OptionValue::Table(*o),
                        0 <= i <= o.entries@.len(),
                        out@.len() == i,
                        forall|k: int|
                            0 <= k < i ==> out@[k].0@ == o.entries@[k].0@ && out@[k].1@
                                == o.entries@[k].1@,
                    decreases o.entries@.len() - i,
                {
                    assert(decreases_to!(*self => self->Table_0));
                    assert(decreases_to!(*o => o.entries));
                    assert(decreases_to!(o.entries => o.entries@));
                    assert(decreases_to!(o.entries@ => o.entries@[i as int]));
                    assert(decreases_to!(o.entries@[i as int] => o.entries@[i as int].1));
                    let k = o.entries[i].0.clone();
                    let v = o.entries[i].1.clone();
                    out.push((k, v));
                    i = i + 1;
                }
                let r = OptionValue::Table(Options { entries: out });
                assert(r@ == self@) by {
                    assert(options_model(Options { entries: out }) =~= options_model(*o));
                }
                r
            },
        }
    }
}


/// Ordered map of loader options.
#[derive(Debug)]
pub struct Options {
    entries: Vec<(String, OptionValue)>,
}

impl View for Options {
    type V = EntriesModel;

    open spec fn view(&self) -> EntriesModel {
        options_model(*self)
    }
}


/// Index of the last entry whose key is `key`, or `-1` when there is none.
pub open spec fn spec_last_index(e: EntriesModel, key: Seq<char>) -> int
    decreases e.len(),
{
    if e.len() == 0 {
        -1
    } else if e.last().0 == key {
        e.len() - 1
    } else {
        spec_last_index(e.drop_last(), key)
    }
}

/// The value stored for `key` (the last entry with that key wins).
pub open spec fn spec_get(e: EntriesModel, key: Seq<char>) -> Option<OptionModel> {
    let i = spec_last_index(e, key);
    if i >= 0 {
        Some(e[i].1)
    } else {
        None
    }
}

/// `e` without its last entry for `key`.
pub open spec fn spec_remove(e: EntriesModel, key: Seq<char>) -> EntriesModel {
    let i = spec_last_index(e, key);
    if i >= 0 {
        e.remove(i)
    } else {
        e
    }
}

/// `e` after inserting `key` = `value`: the earlier entry for `key` is dropped and the new one
/// goes last.
pub open spec fn spec_insert(e: EntriesModel, key: Seq<char>, value: OptionModel) -> EntriesModel {
    spec_remove(e, key).push((key, value))
}

/// No key occurs twice.
pub open spec fn spec_keys_unique(e: EntriesModel) -> bool {
    forall|i: int, j: int| 0 <= i < j < e.len() ==> e[i].0 != e[j].0
}

/// What [`spec_last_index`] is: the position of the last entry with the key.
pub proof fn lemma_last_index(e: EntriesModel, key: Seq<char>)
    ensures
        -1 <= spec_last_index(e, key) < e.len(),
        spec_last_index(e, key) >= 0 ==> e[spec_last_index(e, key)].0 == key,
        forall|j: int| spec_last_index(e, key) < j < e.len() ==> e[j].0 != key,
        spec_last_index(e, key) == -1 <==> forall|j: int| 0 <= j < e.len() ==> e[j].0 != key,
    decreases e.len(),
{
    if e.len() > 0 && e.last().0 != key {
        lemma_last_index(e.drop_last(), key);
        assert forall|j: int| 0 <= j < e.len() - 1 implies e.drop_last()[j] == e[j] by {}
    }
}

impl Options {
    /// Build an empty [`Options`] map.
    pub fn new() -> (r: Options)
        ensures
            r@ == Seq::<(Seq<char>, OptionModel)>::empty(),
    {
        let r = Options { entries: Vec::new() };
        assert(r@ =~= Seq::<(Seq<char>, OptionModel)>::empty());
        r
    }

    /// Number of entries.
    pub fn len(&self) -> (r: usize)
        ensures
            r == self@.len(),
    {
        self.entries.len()
    }

    /// `true` if there are no entries.
    pub fn is_empty(&self) -> (r: bool)
        ensures
            r == (self@.len() == 0),
    {
        self.entries.len() == 0
    }

    fn last_index(&self, key: &str) -> (r: Option<usize>)
        ensures
            self.entries@.len() == self@.len(),
            -1 <= spec_last_index(self@, key@) < self@.len(),
            match r {
                Some(i) => spec_last_index(self@, key@) == i,
                None => spec_last_index(self@, key@) == -1,
            },
    {
        proof {
            lemma_last_index(self@, key@);
        }
        let mut i: usize = self.entries.len();
        while i > 0
            invariant
                0 <= i <= self.entries@.len(),
                self@.len() == self.entries@.len(),
                forall|j: int| i <= j < self@.len() ==> self@[j].0 != key@,
                -1 <= spec_last_index(self@, key@) < self@.len(),
                spec_last_index(self@, key@) >= 0 ==> self@[spec_last_index(self@, key@)].0
                    == key@,
                forall|j: int|
                    spec_last_index(self@, key@) < j < self@.len() ==> self@[j].0 != key@,
            decreases i,
        {
            i = i - 1;
            if str_equal(self.entries[i].0.as_str(), key) {
                assert(self@[i as int].0 == key@);
                return Some(i);
            }
        }
        None
    }

    /// `true` if `key` is present.
    pub fn contains_key(&self, key: &str) -> (r: bool)
        ensures
            r == (spec_get(self@, key@) is Some),
    {
        self.last_index(key).is_some()
    }

    /// The value for `key`, or `None` if absent.
    pub fn get(&self, key: &str) -> (r: Option<&OptionValue>)
        ensures
            match r {
                Some(v) => spec_get(self@, key@) == Some(v@),
                None => spec_get(self@, key@) is None,
            },
    {
        match self.last_index(key) {
            Some(i) => Some(&self.entries[i].1),
            None => None,
        }
    }

    /// A mutable reference to the value for `key`, or `None` if absent. The entry keeps its
    /// key and its place.
    pub fn get_mut(&mut self, key: &str) -> (r: Option<&mut OptionValue>)
        ensures
            match r {
                Some(v) => spec_get(old(self)@, key@) == Some(v@) && final(self)@ == old(self)@.update(
                    spec_last_index(old(self)@, key@),
                    (key@, final(v)@),
                ),
                None => spec_get(old(self)@, key@) is None && final(self)@ == old(self)@,
            },
    {
        match self.last_index(key) {
            Some(i) => {
                proof {
                    lemma_last_index(self@, key@);
                }
                let entry = &mut self.entries[i];
                Some(&mut entry.1)
            },
            None => None,
        }
    }

    /// Remove and return the value for `key`, or `None` if absent.
    pub fn remove(&mut self, key: &str) -> (r: Option<OptionValue>)
        ensures
            final(self)@ == spec_remove(old(self)@, key@),
            match r {
                Some(v) => spec_get(old(self)@, key@) == Some(v@),
                None => spec_get(old(self)@, key@) is None,
            },
    {
        match self.last_index(key) {
            Some(i) => {
                let ghost before = self@;
                let (_k, v) = self.entries.remove(i);
                assert(self@ =~= before.remove(i as int));
                Some(v)
            },
            None => None,
        }
    }

    /// Insert `key` = `value`, returning the previous value if `key` was already present.
    ///
    /// A duplicate key replaces the earlier entry, matching the "last wins" rule for parsed
    /// source strings; the new entry goes last.
    pub fn insert(&mut self, key: String, value: OptionValue) -> (r: Option<OptionValue>)
        ensures
            final(self)@ == spec_insert(old(self)@, key@, value@),
            match r {
                Some(v) => spec_get(old(self)@, key@) == Some(v@),
                None => spec_get(old(self)@, key@) is None,
            },
    {
        let old_value = self.remove(key.as_str());
        let ghost before = self@;
        let ghost pair = (key@, value@);
        self.entries.push((key, value));
        assert(self@ =~= before.push(pair));
        old_value
    }

    /// The entries in insertion order.
    pub fn entries(&self) -> (r: &[(String, OptionValue)])
        ensures
            entries_model(r@) == self@,
    {
        assert(entries_model(self.entries@) =~= self@);
        self.entries.as_slice()
    }

    /// The keys in insertion order.
    pub fn keys(&self) -> (r: Vec<&str>)
        ensures
            r@.len() == self@.len(),
            forall|i: int| 0 <= i < r@.len() ==> r@[i]@ == self@[i].0,
    {
        let mut r: Vec<&str> = Vec::new();
        let mut i: usize = 0;
        while i < self.entries.len()
            invariant
                0 <= i <= self.entries@.len(),
                self@.len() == self.entries@.len(),
                r@.len() == i,
                forall|k: int| 0 <= k < i ==> r@[k]@ == self@[k].0,
            decreases self.entries@.len() - i,
        {
            r.push(self.entries[i].0.as_str());
            i = i + 1;
        }
        r
    }

    /// The values in insertion order.
    pub fn values(&self) -> (r: Vec<&OptionValue>)
        ensures
            r@.len() == self@.len(),
            forall|i: int| 0 <= i < r@.len() ==> r@[i]@ == self@[i].1,
    {
        let mut r: Vec<&OptionValue> = Vec::new();
        let mut i: usize = 0;
        while i < self.entries.len()
            invariant
                0 <= i <= self.entries@.len(),
                self@.len() == self.entries@.len(),
                r@.len() == i,
                forall|k: int| 0 <= k < i ==> r@[k]@ == self@[k].1,
            decreases self.entries@.len() - i,
        {
            r.push(&self.entries[i].1);
            i = i + 1;
        }
        r
    }
}

impl Clone for Options {
    fn clone(&self) -> (r: Options)
        ensures
            r@ == self@,
    {
        self.clone_entries()
    }
}

impl Options {
    fn clone_entries(&self) -> (r: Options)
        ensures
            r@ == self@,
    {
        let mut out: Vec<(String, OptionValue)> = Vec::new();
        let mut i: usize = 0;
        while i < self.entries.len()
            invariant
                0 <= i <= self.entries@.len(),
                out@.len() == i,
                forall|k: int|
                    0 <= k < i ==> out@[k].0@ == self.entries@[k].0@ && out@[k].1@
                        == self.entries@[k].1@,
            decreases self.entries@.len() - i,
        {
            let k = self.entries[i].0.clone();
            let v = self.entries[i].1.clone();
            out.push((k, v));
            i = i + 1;
        }
        let r = Options { entries: out };
        assert(r@ =~= self@);
        r
    }
}

impl Default for Options {
    fn default() -> (r: Options)
        ensures
            r@ == Seq::<(Seq<char>, OptionModel)>::empty(),
    {
        Options::new()
    }
}


impl OptionValue {
    /// Build an empty [`OptionValue::Table`].
    pub fn new_map() -> (r: OptionValue)
        ensures
            r@ == OptionModel::Table(Seq::empty()),
    {
        OptionValue::Table(Options::new())
    }

    /// Build an empty [`OptionValue::List`].
    pub fn new_list() -> (r: OptionValue)
        ensures
            r@ == OptionModel::List(Seq::empty()),
    {
        let r = OptionValue::List(Vec::new());
        assert(r@->List_0 =~= Seq::<OptionModel>::empty());
        r
    }

    /// Build an empty [`OptionValue::String`].
    pub fn new_string() -> (r: OptionValue)
        ensures
            r@ == OptionModel::Str(Seq::empty()),
    {
        OptionValue::String(String::new())
    }

    /// `true` if this is a [`OptionValue::Bool`].
    pub fn is_bool(&self) -> (r: bool)
        ensures
            r == (self@ is Bool),
    {
        match self {
            OptionValue::Bool(_) => true,
            _ => false,
        }
    }

    /// The boolean value, or `None` if this is not a [`OptionValue::Bool`].
    pub fn as_bool(&self) -> (r: Option<bool>)
        ensures
            match self@ {
                OptionModel::Bool(b) => r == Some(b),
                _ => r is None,
            },
    {
        match self {
            OptionValue::Bool(value) => Some(*value),
            _ => None,
        }
    }

    /// Convert into the boolean value, or `None` if this is not a [`OptionValue::Bool`].
    pub fn into_bool(self) -> (r: Option<bool>)
        ensures
            match self@ {
                OptionModel::Bool(b) => r == Some(b),
                _ => r is None,
            },
    {
        match self {
            OptionValue::Bool(value) => Some(value),
            _ => None,
        }
    }

    /// A mutable reference to the boolean value, or `None` if this is not a [`OptionValue::Bool`].
    pub fn bool_mut(&mut self) -> (r: Option<&mut bool>)
        ensures
            match r {
                Some(m) => old(self)@ == OptionModel::Bool(*m) && final(self)@ == OptionModel::Bool(*final(m)),
                None => !(old(self)@ is Bool) && final(self)@ == old(self)@,
            },
    {
        match self {
            OptionValue::Bool(value) => Some(value),
            _ => None,
        }
    }

    /// `true` if this is a [`OptionValue::Integer`].
    pub fn is_integer(&self) -> (r: bool)
        ensures
            r == (self@ is Integer),
    {
        match self {
            OptionValue::Integer(_) => true,
            _ => false,
        }
    }

    /// The integer value, or `None` if this is not a [`OptionValue::Integer`].
    pub fn as_integer(&self) -> (r: Option<i64>)
        ensures
            match self@ {
                OptionModel::Integer(i) => r == Some(i),
                _ => r is None,
            },
    {
        match self {
            OptionValue::Integer(value) => Some(*value),
            _ => None,
        }
    }

    /// Convert into the integer value, or `None` if this is not a [`OptionValue::Integer`].
    pub fn into_integer(self) -> (r: Option<i64>)
        ensures
            match self@ {
                OptionModel::Integer(i) => r == Some(i),
                _ => r is None,
            },
    {
        match self {
            OptionValue::Integer(value) => Some(value),
            _ => None,
        }
    }

    /// A mutable reference to the integer value, or `None` if this is not a
    /// [`OptionValue::Integer`].
    pub fn integer_mut(&mut self) -> (r: Option<&mut i64>)
        ensures
            match r {
                Some(m) => old(self)@ == OptionModel::Integer(*m) && final(self)@ == OptionModel::Integer(*final(m)),
                None => !(old(self)@ is Integer) && final(self)@ == old(self)@,
            },
    {
        match self {
            OptionValue::Integer(value) => Some(value),
            _ => None,
        }
    }

    /// `true` if this is a [`OptionValue::Float`].
    pub fn is_float(&self) -> (r: bool)
        ensures
            r == (self@ is Float),
    {
        match self {
            OptionValue::Float(_) => true,
            _ => false,
        }
    }

    /// The decimal text of the float value, or `None` if this is not a [`OptionValue::Float`].
    pub fn as_float(&self) -> (r: Option<&String>)
        ensures
            match self@ {
                OptionModel::Float(t) => r is Some && r->0@ == t,
                _ => r is None,
            },
    {
        match self {
            OptionValue::Float(value) => Some(value),
            _ => None,
        }
    }

    /// Convert into the decimal text of the float value, or `None` if this is not a
    /// [`OptionValue::Float`].
    pub fn into_float(self) -> (r: Option<String>)
        ensures
            match self@ {
                OptionModel::Float(t) => r is Some && r->0@ == t,
                _ => r is None,
            },
    {
        match self {
            OptionValue::Float(value) => Some(value),
            _ => None,
        }
    }

    /// A mutable reference to the float text, or `None` if this is not a [`OptionValue::Float`].
    pub fn float_mut(&mut self) -> (r: Option<&mut String>)
        ensures
            match r {
                Some(m) => old(self)@ == OptionModel::Float(m@) && final(self)@ == OptionModel::Float(final(m)@),
                None => !(old(self)@ is Float) && final(self)@ == old(self)@,
            },
    {
        match self {
            OptionValue::Float(value) => Some(value),
            _ => None,
        }
    }

    /// `true` if this is a [`OptionValue::String`].
    pub fn is_string(&self) -> (r: bool)
        ensures
            r == (self@ is Str),
    {
        match self {
            OptionValue::String(_) => true,
            _ => false,
        }
    }

    /// The string value, or `None` if this is not a [`OptionValue::String`].
    pub fn as_string(&self) -> (r: Option<&String>)
        ensures
            match self@ {
                OptionModel::Str(t) => r is Some && r->0@ == t,
                _ => r is None,
            },
    {
        match self {
            OptionValue::String(value) => Some(value),
            _ => None,
        }
    }

    /// Convert into the string value, or `None` if this is not a [`OptionValue::String`].
    pub fn into_string(self) -> (r: Option<String>)
        ensures
            match self@ {
                OptionModel::Str(t) => r is Some && r->0@ == t,
                _ => r is None,
            },
    {
        match self {
            OptionValue::String(value) => Some(value),
            _ => None,
        }
    }

    /// A mutable reference to the string value, or `None` if this is not a
    /// [`OptionValue::String`].
    pub fn string_mut(&mut self) -> (r: Option<&mut String>)
        ensures
            match r {
                Some(m) => old(self)@ == OptionModel::Str(m@) && final(self)@ == OptionModel::Str(final(m)@),
                None => !(old(self)@ is Str) && final(self)@ == old(self)@,
            },
    {
        match self {
            OptionValue::String(value) => Some(value),
            _ => None,
        }
    }

    /// `true` if this is a [`OptionValue::List`].
    pub fn is_list(&self) -> (r: bool)
        ensures
            r == (self@ is List),
    {
        match self {
            OptionValue::List(_) => true,
            _ => false,
        }
    }

    /// The list value, or `None` if this is not a [`OptionValue::List`].
    pub fn as_list(&self) -> (r: Option<&Vec<OptionValue>>)
        ensures
            match self@ {
                OptionModel::List(l) => r is Some && list_model(r->0@) == l,
                _ => r is None,
            },
    {
        match self {
            OptionValue::List(value) => {
                assert(list_model(value@) =~= self@->List_0);
                Some(value)
            },
            _ => None,
        }
    }

    /// Convert into the list value, or `None` if this is not a [`OptionValue::List`].
    pub fn into_list(self) -> (r: Option<Vec<OptionValue>>)
        ensures
            match self@ {
                OptionModel::List(l) => r is Some && list_model(r->0@) == l,
                _ => r is None,
            },
    {
        let ghost m = self@;
        match self {
            OptionValue::List(value) => {
                assert(list_model(value@) =~= m->List_0);
                Some(value)
            },
            _ => None,
        }
    }

    /// `true` if this is a [`OptionValue::Table`].
    pub fn is_map(&self) -> (r: bool)
        ensures
            r == (self@ is Table),
    {
        match self {
            OptionValue::Table(_) => true,
            _ => false,
        }
    }

    /// The map value, or `None` if this is not a [`OptionValue::Table`].
    pub fn as_map(&self) -> (r: Option<&Options>)
        ensures
            match self@ {
                OptionModel::Table(e) => r is Some && r->0@ == e,
                _ => r is None,
            },
    {
        match self {
            OptionValue::Table(value) => Some(value),
            _ => None,
        }
    }

    /// Convert into the map value, or `None` if this is not a [`OptionValue::Table`].
    pub fn into_map(self) -> (r: Option<Options>)
        ensures
            match self@ {
                OptionModel::Table(e) => r is Some && r->0@ == e,
                _ => r is None,
            },
    {
        match self {
            OptionValue::Table(value) => Some(value),
            _ => None,
        }
    }

    /// The model of a list value is the list of its items' models.
    pub proof fn lemma_list_value(items: Vec<OptionValue>)
        ensures
            OptionValue::List(items)@ == OptionModel::List(list_model(items@)),
    {
        assert(OptionValue::List(items)@->List_0 =~= list_model(items@));
    }

    /// A mutable reference to the list items, or `None` if this is not a [`OptionValue::List`].
    pub fn list_mut(&mut self) -> (r: Option<&mut Vec<OptionValue>>)
        ensures
            match r {
                Some(l) => old(self)@ == OptionModel::List(list_model(l@)) && *final(self)
                    == OptionValue::List(*final(l)),
                None => !(old(self)@ is List) && final(self)@ == old(self)@,
            },
    {
        match self {
            OptionValue::List(value) => {
                assert(list_model(value@) =~= old(self)@->List_0);
                Some(value)
            },
            _ => None,
        }
    }

    /// A mutable reference to the map value, or `None` if this is not a [`OptionValue::Table`].
    pub fn map_mut(&mut self) -> (r: Option<&mut Options>)
        ensures
            match r {
                Some(m) => old(self)@ == OptionModel::Table(m@) && final(self)@ == OptionModel::Table(final(m)@),
                None => !(old(self)@ is Table) && final(self)@ == old(self)@,
            },
    {
        match self {
            OptionValue::Table(value) => Some(value),
            _ => None,
        }
    }

    /// The [`OptionValueType`] kind of this value.
    pub fn value_type(&self) -> (r: OptionValueType)
        ensures
            r == spec_type_of(self@),
    {
        match self {
            OptionValue::Bool(_) => OptionValueType::Bool,
            OptionValue::Integer(_) => OptionValueType::Integer,
            OptionValue::Float(_) => OptionValueType::Float,
            OptionValue::String(_) => OptionValueType::String,
            OptionValue::List(_) => OptionValueType::List,
            OptionValue::Table(_) => OptionValueType::Table,
        }
    }
}


/// The error policy that options declare for `stage` through the reserved `on_error` option:
/// `Skip` exactly when `on_error` is a map whose entry for the stage is the string `skip` in any
/// ASCII case; `Fail` otherwise.
pub open spec fn spec_on_error(options: EntriesModel, stage: Stage) -> OnError {
    match spec_get(options, "on_error"@) {
        Some(OptionModel::Table(m)) => match spec_get(m, spec_stage_name(stage)) {
            Some(OptionModel::Str(v)) => if spec_eq_ignore_ascii_case(v, "skip"@) {
                OnError::Skip
            } else {
                OnError::Fail
            },
            _ => OnError::Fail,
        },
        _ => OnError::Fail,
    }
}

/// One configuration source declaration: a loader name, its options, and an optional resource
/// address, as parsed from `SOURCE[(OPTIONS)][:RESOURCE]`.
#[derive(Debug)]
pub struct Source {
    source: String,
    options: Options,
    resource: String,
    resource_colon: bool,
}

impl View for Source {
    type V = SourceModel;

    closed spec fn view(&self) -> SourceModel {
        SourceModel {
            source: self.source@,
            options: self.options@,
            resource: self.resource@,
            resource_colon: self.resource_colon,
        }
    }
}

impl Clone for Source {
    fn clone(&self) -> (r: Source)
        ensures
            r@ == self@,
    {
        Source {
            source: self.source.clone(),
            options: self.options.clone(),
            resource: self.resource.clone(),
            resource_colon: self.resource_colon,
        }
    }
}

impl Source {
    /// A source from its parts.
    pub(crate) fn from_parts(source: String, options: Options, resource: String, resource_colon: bool) -> (r: Source)
        ensures
            r@ == (SourceModel { source: source@, options: options@, resource: resource@, resource_colon }),
    {
        Source { source, options, resource, resource_colon }
    }

    /// Parse a `SOURCE[(OPTIONS)][:RESOURCE]` string into a [`Source`]; the same as
    /// [`parse`](crate::source_parse::parse).
    pub fn parse(input: &str) -> (r: Result<Source, ParseError>)
        ensures
            match r {
                Ok(src) => spec_parse_result(input@) == Ok::<SourceModel, ParseErrorModel>(src@),
                Err(e) => spec_parse_result(input@) == Err::<SourceModel, ParseErrorModel>(e@.1) && e@.0 == input@,
            },
    {
        parse(input)
    }

    /// A bare source with just a name — no options, no resource. Unlike [`Source::parse`] this
    /// performs no validation, so the name may even be empty.
    pub fn named(name: String) -> (r: Source)
        ensures
            r@ == (SourceModel { source: name@, options: Seq::empty(), resource: Seq::empty(), resource_colon: false }),
    {
        Source { source: name, options: Options::new(), resource: String::new(), resource_colon: false }
    }

    /// The error policy this source declares for `stage`, via its reserved `on_error` option.
    pub fn on_error(&self, stage: Stage) -> (r: OnError)
        ensures
            r == spec_on_error(self@.options, stage),
    {
        match self.options.get("on_error") {
            Some(OptionValue::Table(map)) => match map.get(stage.as_str()) {
                Some(OptionValue::String(value)) => {
                    if str_eq_ignore_ascii_case(value.as_str(), "skip") {
                        OnError::Skip
                    } else {
                        OnError::Fail
                    }
                },
                _ => OnError::Fail,
            },
            _ => OnError::Fail,
        }
    }

    /// The loader name (e.g. `env`, `file`, `http`).
    pub fn source(&self) -> (r: &str)
        ensures
            r@ == self@.source,
    {
        self.source.as_str()
    }

    /// A mutable reference to the loader name.
    pub fn source_mut(&mut self) -> (r: &mut String)
        ensures
            r@ == old(self)@.source,
            final(self)@ == (SourceModel { source: final(r)@, ..old(self)@ }),
    {
        &mut self.source
    }

    /// Set the loader name.
    pub fn set_source(&mut self, source: String)
        ensures
            final(self)@ == (SourceModel { source: source@, ..old(self)@ }),
    {
        self.source = source;
    }

    /// Set the loader name, builder-style.
    pub fn with_source(self, source: String) -> (r: Source)
        ensures
            r@ == (SourceModel { source: source@, ..self@ }),
    {
        let mut this = self;
        this.source = source;
        this
    }

    /// The loader options.
    pub fn options(&self) -> (r: &Options)
        ensures
            r@ == self@.options,
    {
        &self.options
    }

    /// A mutable reference to the loader options.
    pub fn options_mut(&mut self) -> (r: &mut Options)
        ensures
            r@ == old(self)@.options,
            final(self)@ == (SourceModel { options: final(r)@, ..old(self)@ }),
    {
        &mut self.options
    }

    /// Replace the loader options.
    pub fn set_options(&mut self, options: Options)
        ensures
            final(self)@ == (SourceModel { options: options@, ..old(self)@ }),
    {
        self.options = options;
    }

    /// Replace the loader options, builder-style.
    pub fn with_options(self, options: Options) -> (r: Source)
        ensures
            r@ == (SourceModel { options: options@, ..self@ }),
    {
        let mut this = self;
        this.options = options;
        this
    }

    /// Set a single loader option (the earlier value for `key`, if any, is replaced).
    pub fn set_option(&mut self, key: String, value: OptionValue)
        ensures
            final(self)@ == (SourceModel { options: spec_insert(old(self)@.options, key@, value@), ..old(self)@ }),
    {
        self.options.insert(key, value);
    }

    /// Set a single loader option, builder-style.
    pub fn with_option(self, key: String, value: OptionValue) -> (r: Source)
        ensures
            r@ == (SourceModel { options: spec_insert(self@.options, key@, value@), ..self@ }),
    {
        let mut this = self;
        this.options.insert(key, value);
        this
    }

    /// The resource address (path, URL, …), or empty if none was given.
    pub fn resource(&self) -> (r: &str)
        ensures
            r@ == self@.resource,
    {
        self.resource.as_str()
    }

    /// A mutable reference to the resource address.
    pub fn resource_mut(&mut self) -> (r: &mut String)
        ensures
            r@ == old(self)@.resource,
            final(self)@ == (SourceModel { resource: final(r)@, ..old(self)@ }),
    {
        &mut self.resource
    }

    /// Set the resource address; a non-empty value also sets [`Source::resource_colon`].
    pub fn set_resource(&mut self, resource: String)
        ensures
            final(self)@ == (SourceModel {
                resource: resource@,
                resource_colon: old(self)@.resource_colon || resource@.len() > 0,
                ..old(self)@
            }),
    {
        self.resource = resource;
        if !self.resource.as_str().is_empty() {
            self.resource_colon = true;
        }
    }

    /// Set the resource address, builder-style; a non-empty value also sets
    /// [`Source::resource_colon`].
    pub fn with_resource(self, resource: String) -> (r: Source)
        ensures
            r@ == (SourceModel {
                resource: resource@,
                resource_colon: self@.resource_colon || resource@.len() > 0,
                ..self@
            }),
    {
        let mut this = self;
        this.set_resource(resource);
        this
    }

    /// `true` if the source string had a `:` separator before the resource, even when the
    /// resource itself is empty (e.g. `file:`).
    pub fn resource_colon(&self) -> (r: bool)
        ensures
            r == self@.resource_colon,
    {
        self.resource_colon
    }

    /// Set whether the `:` separator is present before the resource.
    pub fn set_resource_colon(&mut self, resource_colon: bool)
        ensures
            final(self)@ == (SourceModel { resource_colon, ..old(self)@ }),
    {
        self.resource_colon = resource_colon;
    }

    /// Set whether the `:` separator is present before the resource, builder-style.
    pub fn with_resource_colon(self, resource_colon: bool) -> (r: Source)
        ensures
            r@ == (SourceModel { resource_colon, ..self@ }),
    {
        let mut this = self;
        this.resource_colon = resource_colon;
        this
    }
}

/// Error from building or parsing a [`Source`].
#[derive(Debug)]
pub enum Error {
    /// Builder has no source identifier (missing or empty).
    MissingSource,
    /// Invalid configuration source string.
    Parse(ParseError),
}

/// Model of a [`SourceBuilder`].
pub struct SourceBuilderModel {
    pub source: Option<Seq<char>>,
    pub options: EntriesModel,
    pub resource: Seq<char>,
    pub resource_colon: bool,
}

/// Builds a [`Source`].
#[derive(Debug)]
pub struct SourceBuilder {
    source: Option<String>,
    options: Options,
    resource: String,
    resource_colon: bool,
}

impl View for SourceBuilder {
    type V = SourceBuilderModel;

    closed spec fn view(&self) -> SourceBuilderModel {
        SourceBuilderModel {
            source: match self.source {
                Some(s) => Some(s@),
                None => None,
            },
            options: self.options@,
            resource: self.resource@,
            resource_colon: self.resource_colon,
        }
    }
}

impl SourceBuilder {
    /// Build an empty [`SourceBuilder`].
    pub fn new() -> (r: SourceBuilder)
        ensures
            r@ == (SourceBuilderModel { source: None, options: Seq::empty(), resource: Seq::empty(), resource_colon: false }),
    {
        SourceBuilder { source: None, options: Options::new(), resource: String::new(), resource_colon: false }
    }

    /// A builder holding the parts of `source`.
    pub fn from_source(source: Source) -> (r: SourceBuilder)
        ensures
            r@ == (SourceBuilderModel {
                source: Some(source@.source),
                options: source@.options,
                resource: source@.resource,
                resource_colon: source@.resource_colon,
            }),
    {
        SourceBuilder {
            source: Some(source.source),
            options: source.options,
            resource: source.resource,
            resource_colon: source.resource_colon,
        }
    }

    /// A builder holding the parts of the source that `input` parses to.
    pub fn try_from_str(input: &str) -> (r: Result<SourceBuilder, Error>)
        ensures
            match r {
                Ok(b) => spec_parse_result(input@) matches Ok(m) && b@ == (SourceBuilderModel {
                    source: Some(m.source),
                    options: m.options,
                    resource: m.resource,
                    resource_colon: m.resource_colon,
                }),
                Err(Error::Parse(e)) => spec_parse_result(input@) == Err::<SourceModel, ParseErrorModel>(e@.1) && e@.0 == input@,
                Err(Error::MissingSource) => false,
            },
    {
        match parse(input) {
            Ok(source) => Ok(SourceBuilder::from_source(source)),
            Err(e) => Err(Error::Parse(e)),
        }
    }

    /// Set the loader name.
    pub fn with_source(self, source: String) -> (r: SourceBuilder)
        ensures
            r@ == (SourceBuilderModel { source: Some(source@), ..self@ }),
    {
        let mut this = self;
        this.source = Some(source);
        this
    }

    /// Set the resource address.
    pub fn with_resource(self, resource: String) -> (r: SourceBuilder)
        ensures
            r@ == (SourceBuilderModel { resource: resource@, ..self@ }),
    {
        let mut this = self;
        this.resource = resource;
        this
    }

    /// Replace the loader options.
    pub fn with_options(self, options: Options) -> (r: SourceBuilder)
        ensures
            r@ == (SourceBuilderModel { options: options@, ..self@ }),
    {
        let mut this = self;
        this.options = options;
        this
    }

    /// Set a single loader option (the earlier value for `key`, if any, is replaced).
    pub fn with_option(self, key: String, value: OptionValue) -> (r: SourceBuilder)
        ensures
            r@ == (SourceBuilderModel { options: spec_insert(self@.options, key@, value@), ..self@ }),
    {
        let mut this = self;
        this.options.insert(key, value);
        this
    }

    /// Set whether the `:` separator is present before the resource.
    pub fn with_resource_colon(self, resource_colon: bool) -> (r: SourceBuilder)
        ensures
            r@ == (SourceBuilderModel { resource_colon, ..self@ }),
    {
        let mut this = self;
        this.resource_colon = resource_colon;
        this
    }

    /// Build the [`Source`], failing exactly when no non-empty source name was set; a non-empty
    /// resource implies the `:` separator.
    pub fn build(self) -> (r: Result<Source, Error>)
        ensures
            match self@.source {
                Some(name) => if name.len() > 0 {
                    r is Ok && r->Ok_0@ == (SourceModel {
                        source: name,
                        options: self@.options,
                        resource: self@.resource,
                        resource_colon: self@.resource_colon || self@.resource.len() > 0,
                    })
                } else {
                    r matches Err(Error::MissingSource)
                },
                None => r matches Err(Error::MissingSource),
            },
    {
        let source = match self.source {
            Some(source) => source,
            None => return Err(Error::MissingSource),
        };
        if source.as_str().is_empty() {
            return Err(Error::MissingSource);
        }
        let resource_colon = self.resource_colon || !self.resource.as_str().is_empty();
        Ok(Source { source, options: self.options, resource: self.resource, resource_colon })
    }
}

impl Default for SourceBuilder {
    fn default() -> (r: SourceBuilder)
        ensures
            r@ == (SourceBuilderModel { source: None, options: Seq::empty(), resource: Seq::empty(), resource_colon: false }),
    {
        SourceBuilder::new()
    }
}


impl OptionValue {
    /// The `Display` text of an option value (see [`spec_value_display`]): scalars as written,
    /// strings in Rust's debug form, lists as `[a, b]`, maps as `{"k": v}`.
    pub fn to_display_string(&self) -> (r: String)
        ensures
            r@ == spec_value_display(self@),
        decreases self,
    {
        match self {
            OptionValue::Bool(b) => {
                if *b {
                    "true".to_owned()
                } else {
                    "false".to_owned()
                }
            },
            OptionValue::Integer(i) => {
                let digits = i64_text(*i);
                string_from_chars(digits.as_slice())
            },
            OptionValue::Float(t) => t.clone(),
            OptionValue::String(t) => debug_string(t.as_str()),
            OptionValue::List(l) => {
                let ghost m = self@->List_0;
                assert(m =~= list_model(l@));
                let mut out = "[".to_owned();
                let mut i: usize = 0;
                while i < l.len()
                    invariant
                        *self == OptionValue::List(*l),
                        m == list_model(l@),
                        0 <= i <= l@.len(),
                        out@ == "["@ + spec_items_display(m, i as int),
                    decreases l@.len() - i,
                {
                    assert(decreases_to!(*self => self->List_0));
                    assert(decreases_to!(self->List_0 => l@));
                    assert(decreases_to!(l@ => l@[i as int]));
                    if i > 0 {
                        out.append(", ");
                    }
                    let item = l[i].to_display_string();
                    out.append(item.as_str());
                    i = i + 1;
                    assert(out@ =~= "["@ + spec_items_display(m, i as int));
                }
                out.append("]");
                out
            },
            OptionValue::Table(o) => {
                let entries = &o.entries;
                let ghost m = self@->Table_0;
                assert(m == options_model(*o));
                assert(m.len() == o.entries@.len());
                let mut out = "{".to_owned();
                let mut i: usize = 0;
                while i < entries.len()
                    invariant
                        *self == OptionValue::Table(*o),
                        m == o@,
                        options_model(*o) == m,
                        o.entries@.len() == m.len(),
                        entries@ == o.entries@,
                        0 <= i <= entries@.len(),
                        out@ == "{"@ + spec_pairs_display(m, i as int),
                    decreases entries@.len() - i,
                {
                    assert(decreases_to!(*self => self->Table_0));
                    assert(decreases_to!(*o => o.entries));
                    assert(decreases_to!(o.entries => o.entries@));
                    assert(decreases_to!(o.entries@ => o.entries@[i as int]));
                    assert(decreases_to!(o.entries@[i as int] => o.entries@[i as int].1));
                    assert(m[i as int] == (entries@[i as int].0@, entries@[i as int].1@));
                    if i > 0 {
                        out.append(", ");
                    }
                    let key = debug_string(entries[i].0.as_str());
                    out.append(key.as_str());
                    out.append(": ");
                    let item = entries[i].1.to_display_string();
                    out.append(item.as_str());
                    i = i + 1;
                    assert(out@ =~= "{"@ + spec_pairs_display(m, i as int));
                }
                out.append("}");
                out
            },
        }
    }
}


/// Appends the written form of a string option (see [`spec_string_form`]).
fn write_string_form(out: &mut String, t: &String)
    ensures
        final(out)@ == old(out)@ + spec_string_form(t@),
{
    let chars = chars_of(t.as_str());
    let c = chars.as_slice();
    let mut all_ident = true;
    let mut i: usize = 0;
    while i < c.len()
        invariant
            0 <= i <= c@.len(),
            all_ident == (forall|k: int| 0 <= k < i ==> spec_is_ident_char(#[trigger] c@[k])),
        decreases c@.len() - i,
    {
        if !is_ident_char(c[i]) {
            all_ident = false;
        }
        i = i + 1;
    }
    let truth = chars_of("true");
    let falsity = chars_of("false");
    let needs_quotes = c.len() == 0 || !all_ident || eq_ignore_ascii_case(c, truth.as_slice())
        || eq_ignore_ascii_case(c, falsity.as_slice()) || is_int_token(c) || contains_char(c, '.');
    if needs_quotes {
        push_char(out, '"');
        let ghost base = out@;
        let mut k: usize = 0;
        while k < c.len()
            invariant
                0 <= k <= c@.len(),
                out@ == base + spec_escape(c@.subrange(0, k as int)),
            decreases c@.len() - k,
        {
            let ch = c[k];
            if ch == '"' {
                push_char(out, '\\');
                push_char(out, '"');
            } else if ch == '\\' {
                push_char(out, '\\');
                push_char(out, '\\');
            } else if ch == '\n' {
                push_char(out, '\\');
                push_char(out, 'n');
            } else if ch == '\r' {
                push_char(out, '\\');
                push_char(out, 'r');
            } else if ch == '\t' {
                push_char(out, '\\');
                push_char(out, 't');
            } else {
                push_char(out, ch);
            }
            k = k + 1;
            assert(c@.subrange(0, k as int).drop_last() =~= c@.subrange(0, k - 1));
            assert(out@ =~= base + spec_escape(c@.subrange(0, k as int)));
        }
        assert(c@.subrange(0, c@.len() as int) =~= c@);
        push_char(out, '"');
    } else {
        out.append(t.as_str());
    }
}

impl OptionValue {
    /// Appends how this value is written in a source string (see [`spec_option_text`]).
    pub fn write_text(&self, out: &mut String)
        ensures
            final(out)@ == old(out)@ + spec_option_text(self@),
        decreases self,
    {
        match self {
            OptionValue::Bool(b) => {
                if *b {
                    out.append("true");
                } else {
                    out.append("false");
                }
            },
            OptionValue::Integer(i) => {
                let digits = i64_text(*i);
                push_chars(out, digits.as_slice());
            },
            OptionValue::Float(t) => {
                out.append(t.as_str());
            },
            OptionValue::String(t) => {
                write_string_form(out, t);
            },
            OptionValue::List(l) => {
                let ghost m = self@->List_0;
                assert(m =~= list_model(l@));
                push_char(out, '[');
                let ghost base = out@;
                let mut i: usize = 0;
                while i < l.len()
                    invariant
                        *self == OptionValue::List(*l),
                        m == list_model(l@),
                        0 <= i <= l@.len(),
                        out@ == base + spec_items_text(m, i as int),
                    decreases l@.len() - i,
                {
                    assert(decreases_to!(*self => self->List_0));
                    assert(decreases_to!(self->List_0 => l@));
                    assert(decreases_to!(l@ => l@[i as int]));
                    if i > 0 {
                        push_char(out, ',');
                    }
                    l[i].write_text(out);
                    i = i + 1;
                    assert(out@ =~= base + spec_items_text(m, i as int));
                }
                push_char(out, ']');
            },
            OptionValue::Table(o) => {
                push_char(out, '(');
                o.write_entries(out);
                push_char(out, ')');
            },
        }
    }
}

impl Options {
    /// Appends the entries written as `key=value`, joined by `,` (see [`spec_entries_text`]).
    fn write_entries(&self, out: &mut String)
        ensures
            final(out)@ == old(out)@ + spec_entries_text(self@, self@.len() as int),
        decreases self,
    {
        let entries = &self.entries;
        let ghost m = self@;
        assert(m.len() == entries@.len());
        let ghost base = out@;
        let mut i: usize = 0;
        while i < entries.len()
            invariant
                m == options_model(*self),
                entries@ == self.entries@,
                m.len() == entries@.len(),
                0 <= i <= entries@.len(),
                out@ == base + spec_entries_text(m, i as int),
            decreases entries@.len() - i,
        {
            assert(decreases_to!(*self => self.entries));
            assert(decreases_to!(self.entries => self.entries@));
            assert(decreases_to!(self.entries@ => self.entries@[i as int]));
            assert(decreases_to!(self.entries@[i as int] => self.entries@[i as int].1));
            assert(m[i as int] == (entries@[i as int].0@, entries@[i as int].1@));
            if i > 0 {
                push_char(out, ',');
            }
            out.append(entries[i].0.as_str());
            push_char(out, '=');
            entries[i].1.write_text(out);
            i = i + 1;
            assert(out@ =~= base + spec_entries_text(m, i as int));
        }
    }

    /// The `Display` text of the map: `{"key": value, …}` (see [`spec_value_display`]).
    pub fn to_display_string(&self) -> (r: String)
        ensures
            r@ == spec_value_display(OptionModel::Table(self@)),
    {
        let v = OptionValue::Table(self.clone());
        v.to_display_string()
    }
}

impl Source {
    /// The canonical text of this source (its `Display`; see [`spec_source_text`]).
    pub fn to_display_string(&self) -> (r: String)
        ensures
            r@ == spec_source_text(self@),
    {
        let mut out = self.source.clone();
        if self.options.len() > 0 {
            push_char(&mut out, '(');
            self.options.write_entries(&mut out);
            push_char(&mut out, ')');
        }
        if self.resource_colon || !self.resource.as_str().is_empty() {
            push_char(&mut out, ':');
            out.append(self.resource.as_str());
        }
        out
    }
}


impl Error {
    /// The `Display` text of this error; `alternate` selects the multi-line form of a parse
    /// error.
    pub fn to_display_string(&self, alternate: bool) -> (r: String)
        ensures
            match self {
                Error::MissingSource => r@ == "configuration source is required"@,
                Error::Parse(e) => r@ == crate::source_parse::spec_error_display(e@.0, e@.1, alternate),
            },
    {
        match self {
            Error::MissingSource => "configuration source is required".to_owned(),
            Error::Parse(e) => e.to_display_string(alternate),
        }
    }
}


impl OptionValue {
    /// Whether two option values are equal: same kind and same content, lists item by item and
    /// maps entry by entry in order.
    pub fn same_option(&self, other: &OptionValue) -> (r: bool)
        ensures
            r == (self@ == other@),
        decreases self,
    {
        match (self, other) {
            (OptionValue::Bool(a), OptionValue::Bool(b)) => *a == *b,
            (OptionValue::Integer(a), OptionValue::Integer(b)) => *a == *b,
            (OptionValue::Float(a), OptionValue::Float(b)) => str_equal(a.as_str(), b.as_str()),
            (OptionValue::String(a), OptionValue::String(b)) => str_equal(a.as_str(), b.as_str()),
            (OptionValue::List(a), OptionValue::List(b)) => {
                if a.len() != b.len() {
                    proof {
                        assert(self@->List_0.len() != other@->List_0.len());
                    }
                    return false;
                }
                let mut i: usize = 0;
                while i < a.len()
                    invariant
                        *self == OptionValue::List(*a),
                        *other == OptionValue::List(*b),
                        a@.len() == b@.len(),
                        0 <= i <= a@.len(),
                        forall|k: int| 0 <= k < i ==> a@[k]@ == b@[k]@,
                    decreases a@.len() - i,
                {
                    assert(decreases_to!(*self => self->List_0));
                    assert(decreases_to!(*a => a@));
                    assert(decreases_to!(a@ => a@[i as int]));
                    if !a[i].same_option(&b[i]) {
                        proof {
                            assert(self@->List_0[i as int] != other@->List_0[i as int]);
                        }
                        return false;
                    }
                    i = i + 1;
                }
                proof {
                    assert(self@->List_0 =~= other@->List_0);
                }
                true
            },
            (OptionValue::Table(a), OptionValue::Table(b)) => {
                assert(decreases_to!(*self => self->Table_0));
                a.same_options(b)
            },
            _ => false,
        }
    }
}

impl Options {
    /// Whether two option maps hold equal entries in the same order.
    pub fn same_options(&self, other: &Options) -> (r: bool)
        ensures
            r == (self@ == other@),
        decreases self,
    {
        let n = self.entries.len();
        if n != other.entries.len() {
            proof {
                assert(self@.len() != other@.len());
            }
            return false;
        }
        let mut i: usize = 0;
        while i < n
            invariant
                n == self.entries@.len(),
                n == other.entries@.len(),
                0 <= i <= n,
                forall|k: int| 0 <= k < i ==> self@[k] == other@[k],
            decreases n - i,
        {
            assert(decreases_to!(*self => self.entries));
            assert(decreases_to!(self.entries => self.entries@));
            assert(decreases_to!(self.entries@ => self.entries@[i as int]));
            assert(decreases_to!(self.entries@[i as int] => self.entries@[i as int].1));
            let same = str_equal(self.entries[i].0.as_str(), other.entries[i].0.as_str())
                && self.entries[i].1.same_option(&other.entries[i].1);
            if !same {
                proof {
                    assert(self@[i as int] != other@[i as int]);
                }
                return false;
            }
            i = i + 1;
        }
        proof {
            assert(self@ =~= other@);
        }
        true
    }
}

impl Source {
    /// Whether two sources are equal in name, options, resource and colon flag.
    pub fn same_source(&self, other: &Source) -> (r: bool)
        ensures
            r == (self@ == other@),
    {
        str_equal(self.source.as_str(), other.source.as_str())
            && self.options.same_options(&other.options)
            && str_equal(self.resource.as_str(), other.resource.as_str())
            && self.resource_colon == other.resource_colon
    }
}


impl PartialEq for OptionValue {
    fn eq(&self, other: &OptionValue) -> (r: bool) {
        self.same_option(other)
    }
}

impl vstd::std_specs::cmp::PartialEqSpecImpl for OptionValue {
    open spec fn obeys_eq_spec() -> bool {
        true
    }

    open spec fn eq_spec(&self, other: &OptionValue) -> bool {
        self@ == other@
    }
}

impl PartialEq for Options {
    fn eq(&self, other: &Options) -> (r: bool) {
        self.same_options(other)
    }
}

impl vstd::std_specs::cmp::PartialEqSpecImpl for Options {
    open spec fn obeys_eq_spec() -> bool {
        true
    }

    open spec fn eq_spec(&self, other: &Options) -> bool {
        self@ == other@
    }
}

impl PartialEq for Source {
    fn eq(&self, other: &Source) -> (r: bool) {
        self.same_source(other)
    }
}

impl vstd::std_specs::cmp::PartialEqSpecImpl for Source {
    open spec fn obeys_eq_spec() -> bool {
        true
    }

    open spec fn eq_spec(&self, other: &Source) -> bool {
        self@ == other@
    }
}

impl From<bool> for OptionValue {
    fn from(value: bool) -> (r: OptionValue) {
        OptionValue::Bool(value)
    }
}

impl vstd::std_specs::convert::FromSpecImpl<bool> for OptionValue {
    open spec fn obeys_from_spec() -> bool {
        true
    }

    open spec fn from_spec(value: bool) -> OptionValue {
        OptionValue::Bool(value)
    }
}

impl From<i64> for OptionValue {
    fn from(value: i64) -> (r: OptionValue) {
        OptionValue::Integer(value)
    }
}

impl vstd::std_specs::convert::FromSpecImpl<i64> for OptionValue {
    open spec fn obeys_from_spec() -> bool {
        true
    }

    open spec fn from_spec(value: i64) -> OptionValue {
        OptionValue::Integer(value)
    }
}

impl From<String> for OptionValue {
    fn from(value: String) -> (r: OptionValue) {
        OptionValue::String(value)
    }
}

impl vstd::std_specs::convert::FromSpecImpl<String> for OptionValue {
    open spec fn obeys_from_spec() -> bool {
        true
    }

    open spec fn from_spec(value: String) -> OptionValue {
        OptionValue::String(value)
    }
}

impl From<Vec<OptionValue>> for OptionValue {
    fn from(value: Vec<OptionValue>) -> (r: OptionValue) {
        OptionValue::List(value)
    }
}

impl vstd::std_specs::convert::FromSpecImpl<Vec<OptionValue>> for OptionValue {
    open spec fn obeys_from_spec() -> bool {
        true
    }

    open spec fn from_spec(value: Vec<OptionValue>) -> OptionValue {
        OptionValue::List(value)
    }
}

impl From<Options> for OptionValue {
    fn from(value: Options) -> (r: OptionValue) {
        OptionValue::Table(value)
    }
}

impl vstd::std_specs::convert::FromSpecImpl<Options> for OptionValue {
    open spec fn obeys_from_spec() -> bool {
        true
    }

    open spec fn from_spec(value: Options) -> OptionValue {
        OptionValue::Table(value)
    }
}

impl From<i8> for OptionValue {
    fn from(value: i8) -> (r: OptionValue) {
        OptionValue::Integer(value as i64)
    }
}

impl vstd::std_specs::convert::FromSpecImpl<i8> for OptionValue {
    open spec fn obeys_from_spec() -> bool {
        true
    }

    open spec fn from_spec(value: i8) -> OptionValue {
        OptionValue::Integer(value as i64)
    }
}

impl From<i16> for OptionValue {
    fn from(value: i16) -> (r: OptionValue) {
        OptionValue::Integer(value as i64)
    }
}

impl vstd::std_specs::convert::FromSpecImpl<i16> for OptionValue {
    open spec fn obeys_from_spec() -> bool {
        true
    }

    open spec fn from_spec(value: i16) -> OptionValue {
        OptionValue::Integer(value as i64)
    }
}

impl From<i32> for OptionValue {
    fn from(value: i32) -> (r: OptionValue) {
        OptionValue::Integer(value as i64)
    }
}

impl vstd::std_specs::convert::FromSpecImpl<i32> for OptionValue {
    open spec fn obeys_from_spec() -> bool {
        true
    }

    open spec fn from_spec(value: i32) -> OptionValue {
        OptionValue::Integer(value as i64)
    }
}

impl From<u8> for OptionValue {
    fn from(value: u8) -> (r: OptionValue) {
        OptionValue::Integer(value as i64)
    }
}

impl vstd::std_specs::convert::FromSpecImpl<u8> for OptionValue {
    open spec fn obeys_from_spec() -> bool {
        true
    }

    open spec fn from_spec(value: u8) -> OptionValue {
        OptionValue::Integer(value as i64)
    }
}

impl From<u16> for OptionValue {
    fn from(value: u16) -> (r: OptionValue) {
        OptionValue::Integer(value as i64)
    }
}

impl vstd::std_specs::convert::FromSpecImpl<u16> for OptionValue {
    open spec fn obeys_from_spec() -> bool {
        true
    }

    open spec fn from_spec(value: u16) -> OptionValue {
        OptionValue::Integer(value as i64)
    }
}

impl From<u32> for OptionValue {
    fn from(value: u32) -> (r: OptionValue) {
        OptionValue::Integer(value as i64)
    }
}

impl vstd::std_specs::convert::FromSpecImpl<u32> for OptionValue {
    open spec fn obeys_from_spec() -> bool {
        true
    }

    open spec fn from_spec(value: u32) -> OptionValue {
        OptionValue::Integer(value as i64)
    }
}

impl From<u64> for OptionValue {
    fn from(value: u64) -> (r: OptionValue) {
        OptionValue::Integer(#[verifier::truncate] (value as i64))
    }
}

impl vstd::std_specs::convert::FromSpecImpl<u64> for OptionValue {
    open spec fn obeys_from_spec() -> bool {
        true
    }

    open spec fn from_spec(value: u64) -> OptionValue {
        OptionValue::Integer(#[verifier::truncate] (value as i64))
    }
}

impl From<isize> for OptionValue {
    fn from(value: isize) -> (r: OptionValue) {
        OptionValue::Integer(#[verifier::truncate] (value as i64))
    }
}

impl vstd::std_specs::convert::FromSpecImpl<isize> for OptionValue {
    open spec fn obeys_from_spec() -> bool {
        true
    }

    open spec fn from_spec(value: isize) -> OptionValue {
        OptionValue::Integer(#[verifier::truncate] (value as i64))
    }
}

impl From<usize> for OptionValue {
    fn from(value: usize) -> (r: OptionValue) {
        OptionValue::Integer(#[verifier::truncate] (value as i64))
    }
}

impl vstd::std_specs::convert::FromSpecImpl<usize> for OptionValue {
    open spec fn obeys_from_spec() -> bool {
        true
    }

    open spec fn from_spec(value: usize) -> OptionValue {
        OptionValue::Integer(#[verifier::truncate] (value as i64))
    }
}

impl From<&str> for OptionValue {
    fn from(value: &str) -> (r: OptionValue)
        ensures
            r@ == OptionModel::Str(value@),
    {
        OptionValue::String(value.to_owned())
    }
}

impl vstd::std_specs::convert::FromSpecImpl<&str> for OptionValue {
    open spec fn obeys_from_spec() -> bool {
        false
    }

    open spec fn from_spec(value: &str) -> OptionValue {
        vstd::pervasive::arbitrary()
    }
}

impl From<&String> for OptionValue {
    fn from(value: &String) -> (r: OptionValue)
        ensures
            r@ == OptionModel::Str(value@),
    {
        OptionValue::String(value.clone())
    }
}

impl vstd::std_specs::convert::FromSpecImpl<&String> for OptionValue {
    open spec fn obeys_from_spec() -> bool {
        false
    }

    open spec fn from_spec(value: &String) -> OptionValue {
        vstd::pervasive::arbitrary()
    }
}

impl From<Vec<i64>> for OptionValue {
    fn from(value: Vec<i64>) -> (r: OptionValue)
        ensures
            r@ == OptionModel::List(Seq::new(value@.len(), |i: int| OptionModel::Integer(value@[i]))),
    {
        OptionValue::from(value.as_slice())
    }
}

impl vstd::std_specs::convert::FromSpecImpl<Vec<i64>> for OptionValue {
    open spec fn obeys_from_spec() -> bool {
        false
    }

    open spec fn from_spec(value: Vec<i64>) -> OptionValue {
        vstd::pervasive::arbitrary()
    }
}

impl From<&[i64]> for OptionValue {
    fn from(value: &[i64]) -> (r: OptionValue)
        ensures
            r@ == OptionModel::List(Seq::new(value@.len(), |i: int| OptionModel::Integer(value@[i]))),
    {
        let mut items: Vec<OptionValue> = Vec::new();
        let mut i: usize = 0;
        while i < value.len()
            invariant
                0 <= i <= value@.len(),
                items@.len() == i,
                forall|k: int| 0 <= k < i ==> (#[trigger] items@[k])@ == OptionModel::Integer(value@[k]),
            decreases value@.len() - i,
        {
            items.push(OptionValue::Integer(value[i]));
            i = i + 1;
        }
        let r = OptionValue::List(items);
        proof {
            OptionValue::lemma_list_value(items);
            assert(r@->List_0 =~= Seq::new(value@.len(), |k: int| OptionModel::Integer(value@[k])));
        }
        r
    }
}

impl vstd::std_specs::convert::FromSpecImpl<&[i64]> for OptionValue {
    open spec fn obeys_from_spec() -> bool {
        false
    }

    open spec fn from_spec(value: &[i64]) -> OptionValue {
        vstd::pervasive::arbitrary()
    }
}

impl From<Vec<&str>> for OptionValue {
    fn from(value: Vec<&str>) -> (r: OptionValue)
        ensures
            r@ == OptionModel::List(Seq::new(value@.len(), |i: int| OptionModel::Str(value@[i]@))),
    {
        let mut items: Vec<OptionValue> = Vec::new();
        let mut i: usize = 0;
        while i < value.len()
            invariant
                0 <= i <= value@.len(),
                items@.len() == i,
                forall|k: int| 0 <= k < i ==> (#[trigger] items@[k])@ == OptionModel::Str(value@[k]@),
            decreases value@.len() - i,
        {
            items.push(OptionValue::String(value[i].to_owned()));
            i = i + 1;
        }
        let r = OptionValue::List(items);
        proof {
            OptionValue::lemma_list_value(items);
            assert(r@->List_0 =~= Seq::new(value@.len(), |k: int| OptionModel::Str(value@[k]@)));
        }
        r
    }
}

impl vstd::std_specs::convert::FromSpecImpl<Vec<&str>> for OptionValue {
    open spec fn obeys_from_spec() -> bool {
        false
    }

    open spec fn from_spec(value: Vec<&str>) -> OptionValue {
        vstd::pervasive::arbitrary()
    }
}

impl core::str::FromStr for Source {
    type Err = ParseError;

    fn from_str(value: &str) -> (r: Result<Source, ParseError>)
        ensures
            match r {
                Ok(src) => spec_parse_result(value@) == Ok::<SourceModel, ParseErrorModel>(src@),
                Err(e) => spec_parse_result(value@) == Err::<SourceModel, ParseErrorModel>(e@.1) && e@.0 == value@,
            },
    {
        Source::parse(value)
    }
}

impl TryFrom<&str> for Source {
    type Error = ParseError;

    fn try_from(value: &str) -> (r: Result<Source, ParseError>)
        ensures
            match r {
                Ok(src) => spec_parse_result(value@) == Ok::<SourceModel, ParseErrorModel>(src@),
                Err(e) => spec_parse_result(value@) == Err::<SourceModel, ParseErrorModel>(e@.1) && e@.0 == value@,
            },
    {
        Source::parse(value)
    }
}

impl vstd::std_specs::convert::TryFromSpecImpl<&str> for Source {
    open spec fn obeys_try_from_spec() -> bool {
        false
    }

    open spec fn try_from_spec(value: &str) -> Result<Source, ParseError> {
        vstd::pervasive::arbitrary()
    }
}

impl TryFrom<String> for Source {
    type Error = ParseError;

    fn try_from(value: String) -> (r: Result<Source, ParseError>)
        ensures
            match r {
                Ok(src) => spec_parse_result(value@) == Ok::<SourceModel, ParseErrorModel>(src@),
                Err(e) => spec_parse_result(value@) == Err::<SourceModel, ParseErrorModel>(e@.1) && e@.0 == value@,
            },
    {
        Source::parse(value.as_str())
    }
}

impl vstd::std_specs::convert::TryFromSpecImpl<String> for Source {
    open spec fn obeys_try_from_spec() -> bool {
        false
    }

    open spec fn try_from_spec(value: String) -> Result<Source, ParseError> {
        vstd::pervasive::arbitrary()
    }
}

impl TryFrom<&String> for Source {
    type Error = ParseError;

    fn try_from(value: &String) -> (r: Result<Source, ParseError>)
        ensures
            match r {
                Ok(src) => spec_parse_result(value@) == Ok::<SourceModel, ParseErrorModel>(src@),
                Err(e) => spec_parse_result(value@) == Err::<SourceModel, ParseErrorModel>(e@.1) && e@.0 == value@,
            },
    {
        Source::parse(value.as_str())
    }
}

impl vstd::std_specs::convert::TryFromSpecImpl<&String> for Source {
    open spec fn obeys_try_from_spec() -> bool {
        false
    }

    open spec fn try_from_spec(value: &String) -> Result<Source, ParseError> {
        vstd::pervasive::arbitrary()
    }
}

impl TryFrom<&str> for SourceBuilder {
    type Error = Error;

    fn try_from(value: &str) -> (r: Result<SourceBuilder, Error>)
        ensures
            match r {
                Ok(b) => spec_parse_result(value@) matches Ok(m) && b@ == (SourceBuilderModel {
                    source: Some(m.source),
                    options: m.options,
                    resource: m.resource,
                    resource_colon: m.resource_colon,
                }),
                Err(Error::Parse(e)) => spec_parse_result(value@) == Err::<SourceModel, ParseErrorModel>(e@.1) && e@.0 == value@,
                Err(Error::MissingSource) => false,
            },
    {
        SourceBuilder::try_from_str(value)
    }
}

impl vstd::std_specs::convert::TryFromSpecImpl<&str> for SourceBuilder {
    open spec fn obeys_try_from_spec() -> bool {
        false
    }

    open spec fn try_from_spec(value: &str) -> Result<SourceBuilder, Error> {
        vstd::pervasive::arbitrary()
    }
}

impl TryFrom<String> for SourceBuilder {
    type Error = Error;

    fn try_from(value: String) -> (r: Result<SourceBuilder, Error>)
        ensures
            match r {
                Ok(b) => spec_parse_result(value@) matches Ok(m) && b@ == (SourceBuilderModel {
                    source: Some(m.source),
                    options: m.options,
                    resource: m.resource,
                    resource_colon: m.resource_colon,
                }),
                Err(Error::Parse(e)) => spec_parse_result(value@) == Err::<SourceModel, ParseErrorModel>(e@.1) && e@.0 == value@,
                Err(Error::MissingSource) => false,
            },
    {
        SourceBuilder::try_from_str(value.as_str())
    }
}

impl vstd::std_specs::convert::TryFromSpecImpl<String> for SourceBuilder {
    open spec fn obeys_try_from_spec() -> bool {
        false
    }

    open spec fn try_from_spec(value: String) -> Result<SourceBuilder, Error> {
        vstd::pervasive::arbitrary()
    }
}

impl TryFrom<&String> for SourceBuilder {
    type Error = Error;

    fn try_from(value: &String) -> (r: Result<SourceBuilder, Error>)
        ensures
            match r {
                Ok(b) => spec_parse_result(value@) matches Ok(m) && b@ == (SourceBuilderModel {
                    source: Some(m.source),
                    options: m.options,
                    resource: m.resource,
                    resource_colon: m.resource_colon,
                }),
                Err(Error::Parse(e)) => spec_parse_result(value@) == Err::<SourceModel, ParseErrorModel>(e@.1) && e@.0 == value@,
                Err(Error::MissingSource) => false,
            },
    {
        SourceBuilder::try_from_str(value.as_str())
    }
}

impl vstd::std_specs::convert::TryFromSpecImpl<&String> for SourceBuilder {
    open spec fn obeys_try_from_spec() -> bool {
        false
    }

    open spec fn try_from_spec(value: &String) -> Result<SourceBuilder, Error> {
        vstd::pervasive::arbitrary()
    }
}

impl From<Source> for SourceBuilder {
    fn from(source: Source) -> (r: SourceBuilder)
        ensures
            r@ == (SourceBuilderModel {
                source: Some(source@.source),
                options: source@.options,
                resource: source@.resource,
                resource_colon: source@.resource_colon,
            }),
    {
        SourceBuilder::from_source(source)
    }
}

impl vstd::std_specs::convert::FromSpecImpl<Source> for SourceBuilder {
    open spec fn obeys_from_spec() -> bool {
        false
    }

    open spec fn from_spec(source: Source) -> SourceBuilder {
        vstd::pervasive::arbitrary()
    }
}

} // verus!
