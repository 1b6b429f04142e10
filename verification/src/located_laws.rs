//! Every value a parser produces remembers the source it came from: each node of the tree, down
//! to the leaves, carries a location in the parsed source, and so does every error the conversion
//! reports.

use vstd::prelude::*;
use crate::source::SourceModel;
use crate::value::{
    LocatedModel, LocationModel, ValueModel, TableModel, CommentModel, spec_table_insert,
    spec_table_get, spec_index_of, spec_no_comment, lemma_index_of,
};
use crate::text::{
    spec_trim, spec_trim_start, spec_starts_with, spec_find_char, spec_find_seq, lowercase_text,
};
use crate::span::spec_is_single_line;
use crate::parse_json::{JsonNode, JsonData, spec_json_value, spec_json_members};
use crate::parse_env::{
    EnvState, EnvContext, spec_env_line, spec_env_lines, spec_env_parse, spec_env_settings,
    spec_insert_nested, spec_split, spec_value_and_comment,
};
use crate::parse_toml::{
    TomlCtx, TomlTable, TomlEntry, TomlItem, TomlNode, TomlValue, TomlRaw, TomlFault,
    spec_toml_table, spec_toml_entries, spec_toml_entry, spec_toml_tables, spec_toml_value,
    spec_toml_array, spec_toml_inline, spec_toml_location, spec_span_start, spec_item_span,
    spec_element_comments, spec_with_after, spec_comment_after, spec_decorate,
};
use crate::parse_yaml::{
    YamlNode, YamlData, YamlFault, spec_yaml_value, spec_yaml_seq, spec_yaml_map, spec_yaml_key,
};

verus! {

/// `lv` and every value nested in it carry a location in `s`.
pub open spec fn spec_located_in(lv: LocatedModel, s: SourceModel) -> bool
    decreases lv, 1int,
{
    &&& lv.location.source == s
    &&& match lv.value {
        ValueModel::List(items) => spec_items_in(items, s, items.len() as int),
        ValueModel::Table(t) => spec_entries_in(t, s, t.len() as int),
        _ => true,
    }
}

/// The first `n` items, and everything nested in them, carry a location in `s`.
pub open spec fn spec_items_in(items: Seq<LocatedModel>, s: SourceModel, n: int) -> bool
    decreases items, n,
{
    if n <= 0 || n > items.len() {
        true
    } else {
        spec_items_in(items, s, n - 1) && spec_located_in(items[n - 1], s)
    }
}

/// The values of the first `n` entries, and everything nested in them, carry a location in `s`.
pub open spec fn spec_entries_in(t: TableModel, s: SourceModel, n: int) -> bool
    decreases t, n,
{
    if n <= 0 || n > t.len() {
        true
    } else {
        spec_entries_in(t, s, n - 1) && spec_located_in(t[n - 1].1, s)
    }
}

/// The item fold holds exactly when each item is located in `s`.
pub proof fn lemma_items_in(items: Seq<LocatedModel>, s: SourceModel, n: int)
    requires
        0 <= n <= items.len(),
    ensures
        spec_items_in(items, s, n) <==> forall|i: int| 0 <= i < n ==> spec_located_in(#[trigger] items[i], s),
    decreases n,
{
    if n > 0 {
        lemma_items_in(items, s, n - 1);
    }
}

/// The entry fold holds exactly when each entry's value is located in `s`.
pub proof fn lemma_entries_in(t: TableModel, s: SourceModel, n: int)
    requires
        0 <= n <= t.len(),
    ensures
        spec_entries_in(t, s, n) <==> forall|i: int| 0 <= i < n ==> spec_located_in(#[trigger] t[i].1, s),
    decreases n,
{
    if n > 0 {
        lemma_entries_in(t, s, n - 1);
    }
}

/// Inserting a value located in `s` into a map located in `s` keeps it located in `s`.
pub proof fn lemma_insert_in(t: TableModel, key: Seq<char>, v: LocatedModel, s: SourceModel)
    requires
        spec_entries_in(t, s, t.len() as int),
        spec_located_in(v, s),
    ensures
        spec_entries_in(spec_table_insert(t, key, v), s, spec_table_insert(t, key, v).len() as int),
{
    let r = spec_table_insert(t, key, v);
    lemma_index_of(t, key);
    lemma_entries_in(t, s, t.len() as int);
    assert forall|i: int| 0 <= i < r.len() implies spec_located_in(#[trigger] r[i].1, s) by {
        if i < t.len() && r[i] != (key, v) {
            assert(r[i] == t[i]);
        }
    }
    lemma_entries_in(r, s, r.len() as int);
}

/// A list whose items are located in `s`, at a location in `s`, is located in `s`.
pub proof fn lemma_list_in(lv: LocatedModel, s: SourceModel)
    requires
        lv.location.source == s,
        lv.value is List,
        forall|i: int| 0 <= i < lv.value->List_0.len() ==> spec_located_in(#[trigger] lv.value->List_0[i], s),
    ensures
        spec_located_in(lv, s),
{
    lemma_items_in(lv.value->List_0, s, lv.value->List_0.len() as int);
}

// ---------------------------------------------------------------------------------------------
// JSON
// ---------------------------------------------------------------------------------------------

/// Every value converted from a JSON tree carries a location in the parsed source.
pub proof fn law_json_located_in_source(node: JsonNode, source: SourceModel, single_line: bool)
    ensures
        spec_located_in(spec_json_value(node, source, single_line), source),
    decreases node, 1int,
{
    let lv = spec_json_value(node, source, single_line);
    match node.data {
        JsonData::Array(items) => {
            let l = lv.value->List_0;
            assert forall|i: int| 0 <= i < l.len() implies spec_located_in(#[trigger] l[i], source) by {
                assert(decreases_to!(node => node.data));
                assert(decreases_to!(node.data => node.data->Array_0));
                assert(decreases_to!(node.data->Array_0 => items@));
                assert(decreases_to!(items@ => items@[i]));
                law_json_located_in_source(items@[i], source, single_line);
            }
            lemma_list_in(lv, source);
        },
        JsonData::Object(members) => {
            lemma_json_members_in(node, members@, source, single_line, members@.len() as int);
        },
        _ => {},
    }
}

/// The map of an object's members is located in the parsed source.
proof fn lemma_json_members_in(node: JsonNode, members: Seq<(String, JsonNode)>, source: SourceModel, single_line: bool, n: int)
    requires
        node.data matches JsonData::Object(m) && m@ == members,
        0 <= n <= members.len(),
    ensures
        spec_entries_in(
            spec_json_members(members, source, single_line, n),
            source,
            spec_json_members(members, source, single_line, n).len() as int,
        ),
    decreases node, 0int, n,
{
    if n > 0 {
        lemma_json_members_in(node, members, source, single_line, n - 1);
        assert(decreases_to!(node => node.data));
        assert(decreases_to!(node.data => node.data->Object_0));
        assert(decreases_to!(node.data->Object_0 => members));
        assert(decreases_to!(members => members[n - 1]));
        assert(decreases_to!(members[n - 1] => members[n - 1].1));
        law_json_located_in_source(members[n - 1].1, source, single_line);
        lemma_insert_in(
            spec_json_members(members, source, single_line, n - 1),
            members[n - 1].0@,
            spec_json_value(members[n - 1].1, source, single_line),
            source,
        );
    }
}

// ---------------------------------------------------------------------------------------------
// YAML
// ---------------------------------------------------------------------------------------------

/// `true` when a YAML conversion succeeded with a value located in `s`, or failed at a location
/// in `s` (or at none, for a key that is not a string).
pub open spec fn spec_yaml_in(r: Result<LocatedModel, YamlFault>, s: SourceModel) -> bool {
    match r {
        Ok(m) => spec_located_in(m, s),
        Err(YamlFault::Unsupported(l)) => l.source == s,
        Err(YamlFault::KeyNotString) => true,
    }
}

/// Every value converted from a YAML node, and every failure's location, is in the parsed source.
pub proof fn law_yaml_located_in_source(source: SourceModel, single_line: bool, node: YamlNode)
    ensures
        spec_yaml_in(spec_yaml_value(source, single_line, node), source),
    decreases node, 1int,
{
    match node.data {
        YamlData::Sequence(items) => {
            assert(decreases_to!(node => node.data));
            assert(decreases_to!(node.data => node.data->Sequence_0));
            lemma_yaml_seq_in(source, single_line, node, items@, items@.len() as int);
            match spec_yaml_seq(source, single_line, items@, items@.len() as int) {
                Ok(l) => {
                    lemma_items_in(l, source, l.len() as int);
                },
                Err(_) => {},
            }
        },
        YamlData::Mapping(pairs) => {
            lemma_yaml_map_in(source, single_line, node, pairs@, pairs@.len() as int);
        },
        YamlData::Tagged(inner) => {
            assert(decreases_to!(node => node.data));
            assert(decreases_to!(node.data => node.data->Tagged_0));
            law_yaml_located_in_source(source, single_line, *inner);
        },
        _ => {},
    }
}

/// The items of a sequence are located in the parsed source, or the first failure is.
proof fn lemma_yaml_seq_in(source: SourceModel, single_line: bool, node: YamlNode, items: Seq<YamlNode>, n: int)
    requires
        node.data matches YamlData::Sequence(v) && v@ == items,
        0 <= n <= items.len(),
    ensures
        match spec_yaml_seq(source, single_line, items, n) {
            Ok(l) => l.len() == n && forall|i: int| 0 <= i < l.len() ==> spec_located_in(#[trigger] l[i], source),
            Err(f) => spec_yaml_in(Err(f), source),
        },
    decreases node, 0int, n,
{
    if n > 0 {
        lemma_yaml_seq_in(source, single_line, node, items, n - 1);
        assert(decreases_to!(node => node.data));
        assert(decreases_to!(node.data => node.data->Sequence_0));
        assert(decreases_to!(node.data->Sequence_0 => items));
        assert(decreases_to!(items => items[n - 1]));
        law_yaml_located_in_source(source, single_line, items[n - 1]);
        match spec_yaml_seq(source, single_line, items, n - 1) {
            Ok(acc) => {
                match spec_yaml_value(source, single_line, items[n - 1]) {
                    Ok(lv) => {
                        let l = acc.push(lv);
                        assert forall|i: int| 0 <= i < l.len() implies spec_located_in(#[trigger] l[i], source) by {
                            if i < acc.len() {
                                assert(l[i] == acc[i]);
                            }
                        }
                    },
                    Err(_) => {},
                }
            },
            Err(_) => {},
        }
    }
}

/// The map of a mapping is located in the parsed source, or the first failure is.
proof fn lemma_yaml_map_in(source: SourceModel, single_line: bool, node: YamlNode, pairs: Seq<(YamlNode, YamlNode)>, n: int)
    requires
        node.data matches YamlData::Mapping(v) && v@ == pairs,
        0 <= n <= pairs.len(),
    ensures
        match spec_yaml_map(source, single_line, pairs, n) {
            Ok(m) => spec_entries_in(m, source, m.len() as int),
            Err(f) => spec_yaml_in(Err(f), source),
        },
    decreases node, 0int, n,
{
    if n > 0 {
        lemma_yaml_map_in(source, single_line, node, pairs, n - 1);
        assert(decreases_to!(node => node.data));
        assert(decreases_to!(node.data => node.data->Mapping_0));
        assert(decreases_to!(node.data->Mapping_0 => pairs));
        assert(decreases_to!(pairs => pairs[n - 1]));
        assert(decreases_to!(pairs[n - 1] => pairs[n - 1].1));
        law_yaml_located_in_source(source, single_line, pairs[n - 1].1);
        match spec_yaml_map(source, single_line, pairs, n - 1) {
            Ok(m) => match spec_yaml_key(pairs[n - 1].0) {
                Some(k) => match spec_yaml_value(source, single_line, pairs[n - 1].1) {
                    Ok(lv) => {
                        lemma_insert_in(m, k, lv, source);
                    },
                    Err(_) => {},
                },
                None => {},
            },
            Err(_) => {},
        }
    }
}

// ---------------------------------------------------------------------------------------------
// TOML
// ---------------------------------------------------------------------------------------------

/// `true` when a TOML conversion succeeded with a value located in `s`, or failed at a location
/// in `s`.
pub open spec fn spec_toml_in(r: Result<LocatedModel, TomlFault>, s: SourceModel) -> bool {
    match r {
        Ok(m) => spec_located_in(m, s),
        Err(TomlFault::Empty(l)) => l.source == s,
        Err(TomlFault::Datetime(l)) => l.source == s,
    }
}

/// Every value converted from a TOML table, and every failure's location, is in the parsed
/// source.
pub proof fn law_toml_located_in_source(c: TomlCtx, t: TomlTable, fallback: usize)
    ensures
        spec_toml_in(spec_toml_table(c, t, fallback), c.source),
    decreases t, 1int,
{
    lemma_toml_entries_in(c, t, t.entries@, fallback, t.entries@.len() as int);
}

/// The map of a table's entries is located in the parsed source, or the first failure is.
proof fn lemma_toml_entries_in(c: TomlCtx, t: TomlTable, es: Seq<TomlEntry>, fallback: usize, n: int)
    requires
        t.entries@ == es,
        0 <= n <= es.len(),
    ensures
        match spec_toml_entries(c, es, fallback, n) {
            Ok(m) => spec_entries_in(m, c.source, m.len() as int),
            Err(f) => spec_toml_in(Err(f), c.source),
        },
    decreases t, 0int, n,
{
    if n > 0 {
        lemma_toml_entries_in(c, t, es, fallback, n - 1);
        assert(decreases_to!(t => t.entries));
        assert(decreases_to!(t.entries => t.entries@));
        assert(decreases_to!(t.entries@ => t.entries@[n - 1]));
        lemma_toml_entry_in(c, es[n - 1], fallback);
        match spec_toml_entries(c, es, fallback, n - 1) {
            Ok(m) => match spec_toml_entry(c, es[n - 1], fallback) {
                Ok(lv) => {
                    lemma_insert_in(m, es[n - 1].key@, lv, c.source);
                },
                Err(_) => {},
            },
            Err(_) => {},
        }
    }
}

/// The value of an entry is located in the parsed source, or its failure is.
proof fn lemma_toml_entry_in(c: TomlCtx, e: TomlEntry, fallback: usize)
    ensures
        spec_toml_in(spec_toml_entry(c, e, fallback), c.source),
    decreases e, 1int,
{
    let f = spec_span_start(spec_item_span(e.item), fallback);
    match e.item {
        TomlItem::Value(v) => {
            lemma_toml_value_in(c, v, spec_toml_location(c, v.span, f));
        },
        TomlItem::Table(t) => {
            assert(decreases_to!(e => e.item));
            assert(decreases_to!(e.item => e.item->Table_0));
            law_toml_located_in_source(c, t, f);
        },
        TomlItem::ArrayOfTables(ts, span) => {
            lemma_toml_tables_in(c, e, ts@, f, ts@.len() as int);
            match spec_toml_tables(c, ts@, f, ts@.len() as int) {
                Ok(l) => {
                    lemma_items_in(l, c.source, l.len() as int);
                },
                Err(_) => {},
            }
        },
        TomlItem::Empty => {},
    }
}

/// The tables of an array of tables are located in the parsed source, or the first failure is.
proof fn lemma_toml_tables_in(c: TomlCtx, e: TomlEntry, ts: Seq<TomlTable>, fallback: usize, n: int)
    requires
        e.item matches TomlItem::ArrayOfTables(v, _) && v@ == ts,
        0 <= n <= ts.len(),
    ensures
        match spec_toml_tables(c, ts, fallback, n) {
            Ok(l) => l.len() == n && forall|i: int| 0 <= i < l.len() ==> spec_located_in(#[trigger] l[i], c.source),
            Err(f) => spec_toml_in(Err(f), c.source),
        },
    decreases e, 0int, n,
{
    if n > 0 {
        lemma_toml_tables_in(c, e, ts, fallback, n - 1);
        assert(decreases_to!(e => e.item));
        assert(decreases_to!(e.item => e.item->ArrayOfTables_0));
        assert(decreases_to!(e.item->ArrayOfTables_0 => ts));
        assert(decreases_to!(ts => ts[n - 1]));
        law_toml_located_in_source(c, ts[n - 1], spec_span_start(ts[n - 1].span, fallback));
        match spec_toml_tables(c, ts, fallback, n - 1) {
            Ok(acc) => match spec_toml_table(c, ts[n - 1], spec_span_start(ts[n - 1].span, fallback)) {
                Ok(lv) => {
                    let l = acc.push(lv);
                    assert forall|i: int| 0 <= i < l.len() implies spec_located_in(#[trigger] l[i], c.source) by {
                        if i < acc.len() {
                            assert(l[i] == acc[i]);
                        }
                    }
                },
                Err(_) => {},
            },
            Err(_) => {},
        }
    }
}

/// A TOML value converted at a location in the parsed source is located in it, or its failure
/// is.
proof fn lemma_toml_value_in(c: TomlCtx, node: TomlNode, location: LocationModel)
    requires
        location.source == c.source,
    ensures
        spec_toml_in(spec_toml_value(c, node, location), c.source),
    decreases node, 1int,
{
    match node.value {
        TomlValue::Array(items, trailing) => {
            let fb = spec_span_start(node.span, 0);
            lemma_toml_array_in(c, node, items@, trailing, fb, items@.len() as int);
            match spec_toml_array(c, items@, trailing, fb, items@.len() as int) {
                Ok(l) => {
                    lemma_items_in(l, c.source, l.len() as int);
                },
                Err(_) => {},
            }
        },
        TomlValue::InlineTable(members) => {
            lemma_toml_inline_in(c, node, members@, spec_span_start(node.span, 0), members@.len() as int);
        },
        _ => {},
    }
}

/// The items of an array are located in the parsed source, or the first failure is.
proof fn lemma_toml_array_in(c: TomlCtx, node: TomlNode, items: Seq<TomlNode>, trailing: TomlRaw, fallback: usize, n: int)
    requires
        node.value matches TomlValue::Array(v, _) && v@ == items,
        0 <= n <= items.len(),
    ensures
        match spec_toml_array(c, items, trailing, fallback, n) {
            Ok(l) => l.len() == n && forall|i: int| 0 <= i < l.len() ==> spec_located_in(#[trigger] l[i], c.source),
            Err(f) => spec_toml_in(Err(f), c.source),
        },
    decreases node, 0int, n,
{
    if n > 0 {
        lemma_toml_array_in(c, node, items, trailing, fallback, n - 1);
        assert(decreases_to!(node => node.value));
        assert(decreases_to!(node.value => node.value->Array_0));
        assert(decreases_to!(node.value->Array_0 => items));
        assert(decreases_to!(items => items[n - 1]));
        let v = items[n - 1];
        lemma_toml_value_in(c, v, spec_toml_location(c, v.span, fallback));
        match spec_toml_array(c, items, trailing, fallback, n - 1) {
            Ok(acc) => {
                let ec = spec_element_comments(v.prefix, c.text, n - 1);
                let acc2 = match ec.0 {
                    Some(a) => if acc.len() > 0 {
                        acc.update(acc.len() - 1, spec_with_after(acc.last(), a))
                    } else {
                        acc
                    },
                    None => acc,
                };
                assert forall|i: int| 0 <= i < acc2.len() implies spec_located_in(#[trigger] acc2[i], c.source) by {
                    assert(spec_located_in(acc[i], c.source));
                }
                match spec_toml_value(c, v, spec_toml_location(c, v.span, fallback)) {
                    Ok(item) => {
                        let after0 = spec_comment_after(v.suffix, c.text);
                        let after = if n == items.len() && after0 is None {
                            spec_comment_after(Some(trailing), c.text)
                        } else {
                            after0
                        };
                        let l = acc2.push(spec_decorate(item, ec.1, after));
                        assert forall|i: int| 0 <= i < l.len() implies spec_located_in(#[trigger] l[i], c.source) by {
                            if i < acc2.len() {
                                assert(l[i] == acc2[i]);
                            }
                        }
                    },
                    Err(_) => {},
                }
            },
            Err(_) => {},
        }
    }
}

/// The map of an inline table is located in the parsed source, or the first failure is.
proof fn lemma_toml_inline_in(c: TomlCtx, node: TomlNode, members: Seq<(String, TomlNode)>, fallback: usize, n: int)
    requires
        node.value matches TomlValue::InlineTable(v) && v@ == members,
        0 <= n <= members.len(),
    ensures
        match spec_toml_inline(c, members, fallback, n) {
            Ok(m) => spec_entries_in(m, c.source, m.len() as int),
            Err(f) => spec_toml_in(Err(f), c.source),
        },
    decreases node, 0int, n,
{
    if n > 0 {
        lemma_toml_inline_in(c, node, members, fallback, n - 1);
        assert(decreases_to!(node => node.value));
        assert(decreases_to!(node.value => node.value->InlineTable_0));
        assert(decreases_to!(node.value->InlineTable_0 => members));
        assert(decreases_to!(members => members[n - 1]));
        assert(decreases_to!(members[n - 1] => members[n - 1].1));
        let v = members[n - 1].1;
        lemma_toml_value_in(c, v, spec_toml_location(c, v.span, fallback));
        match spec_toml_inline(c, members, fallback, n - 1) {
            Ok(m) => match spec_toml_value(c, v, spec_toml_location(c, v.span, fallback)) {
                Ok(lv) => {
                    lemma_insert_in(m, members[n - 1].0@, lv, c.source);
                },
                Err(_) => {},
            },
            Err(_) => {},
        }
    }
}

// ---------------------------------------------------------------------------------------------
// Env
// ---------------------------------------------------------------------------------------------

/// `lv` is a string, or a map whose entries are all of the same kind.
pub open spec fn spec_string_value(lv: LocatedModel) -> bool
    decreases lv, 1int,
{
    match lv.value {
        ValueModel::Str(_) => true,
        ValueModel::Table(t) => spec_string_entries(t, t.len() as int),
        _ => false,
    }
}

/// The values of the first `n` entries are strings or maps of the same kind.
pub open spec fn spec_string_entries(t: TableModel, n: int) -> bool
    decreases t, n,
{
    if n <= 0 || n > t.len() {
        true
    } else {
        spec_string_entries(t, n - 1) && spec_string_value(t[n - 1].1)
    }
}

/// The entry fold holds exactly when each entry's value is a string or a map of strings.
pub proof fn lemma_string_entries(t: TableModel, n: int)
    requires
        0 <= n <= t.len(),
    ensures
        spec_string_entries(t, n) <==> forall|i: int| 0 <= i < n ==> spec_string_value(#[trigger] t[i].1),
    decreases n,
{
    if n > 0 {
        lemma_string_entries(t, n - 1);
    }
}

/// An env map: located in `s`, holding only strings and maps of strings.
pub open spec fn spec_env_map(t: TableModel, s: SourceModel) -> bool {
    spec_entries_in(t, s, t.len() as int) && spec_string_entries(t, t.len() as int)
}

/// Inserting a string value (or a map of strings) located in `s` keeps an env map one.
proof fn lemma_env_insert(t: TableModel, key: Seq<char>, v: LocatedModel, s: SourceModel)
    requires
        spec_env_map(t, s),
        spec_located_in(v, s),
        spec_string_value(v),
    ensures
        spec_env_map(spec_table_insert(t, key, v), s),
{
    lemma_insert_in(t, key, v, s);
    let r = spec_table_insert(t, key, v);
    lemma_index_of(t, key);
    lemma_string_entries(t, t.len() as int);
    assert forall|i: int| 0 <= i < r.len() implies spec_string_value(#[trigger] r[i].1) by {
        if i < t.len() && r[i] != (key, v) {
            assert(r[i] == t[i]);
        }
    }
    lemma_string_entries(r, r.len() as int);
}

/// Storing a string located in `s` under a path of keys keeps an env map one.
proof fn lemma_env_insert_nested(m: TableModel, parts: Seq<Seq<char>>, from: int, v: LocatedModel, s: SourceModel)
    requires
        spec_env_map(m, s),
        v.location.source == s,
        v.value is Str,
    ensures
        spec_env_map(spec_insert_nested(m, parts, from, v), s),
    decreases parts.len() - from,
{
    if from < 0 || from >= parts.len() {
    } else if from == parts.len() - 1 {
        lemma_env_insert(m, parts[from], v, s);
    } else {
        let head = parts[from];
        lemma_index_of(m, head);
        lemma_env_insert_nested(Seq::empty(), parts, from + 1, v, s);
        match spec_table_get(m, head) {
            Some(existing) => {
                let idx = spec_index_of(m, head);
                assert(existing == m[idx].1);
                lemma_entries_in(m, s, m.len() as int);
                lemma_string_entries(m, m.len() as int);
                assert(spec_located_in(m[idx].1, s));
                assert(spec_string_value(m[idx].1));
                match existing.value {
                    ValueModel::Table(inner) => {
                        lemma_env_insert_nested(inner, parts, from + 1, v, s);
                        let nv = LocatedModel {
                            value: ValueModel::Table(spec_insert_nested(inner, parts, from + 1, v)),
                            ..existing
                        };
                        lemma_env_insert(m, head, nv, s);
                    },
                    _ => {
                        let nv = LocatedModel {
                            value: ValueModel::Table(spec_insert_nested(Seq::empty(), parts, from + 1, v)),
                            location: v.location,
                            comment: existing.comment,
                        };
                        lemma_env_insert(m, head, nv, s);
                    },
                }
            },
            None => {
                let nv = LocatedModel {
                    value: ValueModel::Table(spec_insert_nested(Seq::empty(), parts, from + 1, v)),
                    location: v.location,
                    comment: spec_no_comment(),
                };
                lemma_env_insert(m, head, nv, s);
            },
        }
    }
}

/// One line keeps the map an env map of the context's source.
proof fn lemma_env_line(st: EnvState, line: Seq<char>, n: nat, ctx: EnvContext)
    requires
        spec_env_map(st.map, ctx.source),
    ensures
        spec_env_map(spec_env_line(st, line, n, ctx).map, ctx.source),
{
    let trimmed = spec_trim(line);
    if trimmed.len() > 0 && trimmed[0] != '#' {
        let body = if spec_starts_with(trimmed, "export "@) {
            spec_trim_start(trimmed.skip(7))
        } else {
            trimmed
        };
        let eq = spec_find_char(body, '=');
        if eq >= 0 {
            let key = spec_trim(body.take(eq));
            if key.len() > 0 {
                let found = spec_find_seq(line, key);
                let column = (if found >= 0 { found } else { 0 }) + 1;
                let (value, after) = spec_value_and_comment(spec_trim(body.skip(eq + 1)));
                let location = if ctx.single_line {
                    LocationModel { source: ctx.source, line: None, column: None, length: None }
                } else {
                    LocationModel {
                        source: ctx.source,
                        line: Some(n as usize),
                        column: Some(column as usize),
                        length: None,
                    }
                };
                let final_key = if ctx.lowercase {
                    lowercase_text(key)
                } else {
                    key
                };
                let lv = LocatedModel {
                    value: ValueModel::Str(value),
                    location,
                    comment: CommentModel { before: st.pending, after },
                };
                match ctx.separator {
                    None => {
                        lemma_env_insert(st.map, final_key, lv, ctx.source);
                    },
                    Some(sep) => {
                        lemma_env_insert_nested(st.map, spec_split(final_key, sep), 0, lv, ctx.source);
                    },
                }
            }
        }
    }
}

/// The lines of a text keep the map an env map of the context's source.
proof fn lemma_env_lines(st: EnvState, t: Seq<char>, n: nat, ctx: EnvContext)
    requires
        spec_env_map(st.map, ctx.source),
    ensures
        spec_env_map(spec_env_lines(st, t, n, ctx).map, ctx.source),
    decreases t.len(),
{
    if t.len() > 0 {
        let i = spec_find_char(t, '\n');
        if i < 0 || i >= t.len() {
            lemma_env_line(st, t, n + 1, ctx);
        } else {
            lemma_env_line(st, t.take(i), n + 1, ctx);
            lemma_env_lines(spec_env_line(st, t.take(i), n + 1, ctx), t.skip(i + 1), n + 1, ctx);
        }
    }
}

/// An env payload parses into a map whose entries are all strings or, under a separator, maps
/// of strings; the map and every value in it carry a location in the parsed source.
pub proof fn law_env_strings_located_in_source(source: SourceModel, others: Seq<SourceModel>, bytes: Seq<u8>)
    ensures
        spec_env_parse(source, others, bytes) matches Ok(m) ==> (spec_located_in(m, source) && (m.value matches ValueModel::Table(t)
            && spec_string_entries(t, t.len() as int))),
{
    match spec_env_settings(source, others) {
        Some((separator, lowercase)) => {
            if vstd::utf8::valid_utf8(bytes) {
                let ctx = EnvContext {
                    source,
                    single_line: spec_is_single_line(bytes),
                    separator,
                    lowercase,
                };
                let st0 = EnvState { map: Seq::empty(), pending: Seq::empty() };
                lemma_env_lines(st0, vstd::utf8::decode_utf8(bytes), 0, ctx);
            }
        },
        None => {},
    }
}

} // verus!
