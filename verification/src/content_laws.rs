//! Laws of the converters: every scalar a parser reads keeps its content in the located value.

use vstd::prelude::*;
use crate::source::SourceModel;
use crate::value::{ValueModel, LocationModel, LocatedModel, TableModel, spec_table_get, spec_index_of};
use crate::parse_json::{JsonNode, JsonData, spec_json_value, spec_json_members};
use crate::parse_yaml::{YamlFault, spec_yaml_map, spec_yaml_key, spec_yaml_seq};
use crate::merge_laws::{lemma_get_insert_same, lemma_get_insert_other};
use crate::parse_toml::{
    TomlCtx, TomlNode, TomlValue, TomlFault, TomlTable, TomlEntry, TomlItem, spec_toml_value,
    spec_toml_array, spec_toml_entries, spec_toml_entry, spec_toml_table, spec_toml_tables,
    spec_toml_location, TomlRaw,
};
use crate::parse_yaml::{YamlNode, YamlData, spec_yaml_value};

verus! {

/// A JSON scalar converts to the same scalar: a boolean to that boolean, null to null, a string
/// to that string, a float to its text, and an integer that fits to that integer; an array to a
/// list of its items converted in order.
pub proof fn law_json_scalars_kept(node: JsonNode, source: SourceModel, single_line: bool)
    ensures
        node.data matches JsonData::Bool(b) ==> spec_json_value(node, source, single_line).value
            == ValueModel::Bool(b),
        node.data is Null ==> spec_json_value(node, source, single_line).value == ValueModel::Null,
        node.data matches JsonData::Str(s) ==> spec_json_value(node, source, single_line).value
            == ValueModel::Str(s@),
        node.data matches JsonData::Float(t) ==> spec_json_value(node, source, single_line).value
            == ValueModel::Float(t@),
        node.data matches JsonData::PosInt(n) ==> (n <= isize::MAX ==> (spec_json_value(node, source, single_line).value
            matches ValueModel::Int(i) && i == n)),
        node.data matches JsonData::NegInt(n) ==> (isize::MIN <= n <= isize::MAX ==> (spec_json_value(node, source, single_line).value
            matches ValueModel::Int(i) && i == n)),
        node.data matches JsonData::Array(items) ==> (spec_json_value(node, source, single_line).value
            matches ValueModel::List(l) && l.len() == items@.len() && forall|k: int|
            0 <= k < l.len() ==> #[trigger] l[k] == spec_json_value(items@[k], source, single_line)),
{
}

/// A TOML scalar converts to the same scalar at the given location: a boolean to that boolean, a
/// string to that string, a float to its text, and an integer that fits to that integer; a
/// date-time is refused at the location.
pub proof fn law_toml_scalars_kept(c: TomlCtx, node: TomlNode, location: LocationModel)
    ensures
        node.value matches TomlValue::Boolean(b) ==> (spec_toml_value(c, node, location) matches Ok(lv)
            && lv.value == ValueModel::Bool(b) && lv.location == location),
        node.value matches TomlValue::String(s) ==> (spec_toml_value(c, node, location) matches Ok(lv)
            && lv.value == ValueModel::Str(s@) && lv.location == location),
        node.value matches TomlValue::Float(t) ==> (spec_toml_value(c, node, location) matches Ok(lv)
            && lv.value == ValueModel::Float(t@) && lv.location == location),
        node.value matches TomlValue::Integer(n) ==> (isize::MIN <= n <= isize::MAX ==> (spec_toml_value(
            c,
            node,
            location,
        ) matches Ok(lv) && lv.value matches ValueModel::Int(i) && i == n && lv.location == location)),
        node.value is Datetime ==> spec_toml_value(c, node, location) == Err::<crate::value::LocatedModel, TomlFault>(
            TomlFault::Datetime(location),
        ),
{
}

/// A YAML scalar converts to the same scalar: a boolean to that boolean, null to null, a string
/// to that string, a float to its text, and an integer that fits to that integer; a tagged node
/// converts as the node under the tag.
pub proof fn law_yaml_scalars_kept(source: SourceModel, single_line: bool, node: YamlNode)
    ensures
        node.data matches YamlData::Boolean(b) ==> (spec_yaml_value(source, single_line, node) matches Ok(lv)
            && lv.value == ValueModel::Bool(b)),
        node.data is Null ==> (spec_yaml_value(source, single_line, node) matches Ok(lv) && lv.value
            == ValueModel::Null),
        node.data matches YamlData::Str(s) ==> (spec_yaml_value(source, single_line, node) matches Ok(lv)
            && lv.value == ValueModel::Str(s@)),
        node.data matches YamlData::Float(t) ==> (spec_yaml_value(source, single_line, node) matches Ok(lv)
            && lv.value == ValueModel::Float(t@)),
        node.data matches YamlData::Integer(n) ==> (isize::MIN <= n <= isize::MAX ==> (spec_yaml_value(
            source,
            single_line,
            node,
        ) matches Ok(lv) && lv.value matches ValueModel::Int(i) && i == n)),
        node.data matches YamlData::Tagged(inner) ==> spec_yaml_value(source, single_line, node)
            == spec_yaml_value(source, single_line, *inner),
{
}

/// Over the first `n` members: a member whose key no later member repeats is read under its key
/// as its converted value, and a key no member has is absent.
proof fn lemma_json_members_get(members: Seq<(String, JsonNode)>, source: SourceModel, single_line: bool, n: int, i: int, k: Seq<char>)
    requires
        0 <= n <= members.len(),
    ensures
        0 <= i < n && (forall|j: int| i < j < n ==> (#[trigger] members[j]).0@ != members[i].0@) ==> spec_table_get(
            spec_json_members(members, source, single_line, n),
            members[i].0@,
        ) == Some(spec_json_value(members[i].1, source, single_line)),
        (forall|j: int| 0 <= j < n ==> (#[trigger] members[j]).0@ != k) ==> spec_table_get(
            spec_json_members(members, source, single_line, n),
            k,
        ) is None,
    decreases n,
{
    if n > 0 {
        lemma_json_members_get(members, source, single_line, n - 1, i, k);
        let prev = spec_json_members(members, source, single_line, n - 1);
        let key = members[n - 1].0@;
        let lv = spec_json_value(members[n - 1].1, source, single_line);
        lemma_get_insert_same(prev, key, lv);
        if 0 <= i < n - 1 && key != members[i].0@ {
            lemma_get_insert_other(prev, key, lv, members[i].0@);
        }
        if key != k {
            lemma_get_insert_other(prev, key, lv, k);
        }
    } else {
        assert(spec_index_of(Seq::<(Seq<char>, LocatedModel)>::empty(), k) == -1);
    }
}

/// A JSON object converts to a map holding each member under its key as its converted value (the
/// last member wins for a repeated key), and no key that no member has.
pub proof fn law_json_object_members(node: JsonNode, source: SourceModel, single_line: bool, i: int, k: Seq<char>)
    requires
        node.data is Object,
    ensures
        spec_json_value(node, source, single_line).value is Table,
        0 <= i < node.data->Object_0@.len() && (forall|j: int|
            i < j < node.data->Object_0@.len() ==> (#[trigger] node.data->Object_0@[j]).0@
                != node.data->Object_0@[i].0@) ==> spec_table_get(
            spec_json_value(node, source, single_line).value->Table_0,
            node.data->Object_0@[i].0@,
        ) == Some(spec_json_value(node.data->Object_0@[i].1, source, single_line)),
        (forall|j: int| 0 <= j < node.data->Object_0@.len() ==> (#[trigger] node.data->Object_0@[j]).0@ != k)
            ==> spec_table_get(spec_json_value(node, source, single_line).value->Table_0, k) is None,
{
    let members = node.data->Object_0@;
    lemma_json_members_get(members, source, single_line, members.len() as int, i, k);
}

/// Over the first `n` pairs of a mapping that converts: a pair whose key no later pair repeats
/// is read under its key as its converted value, and a key no pair has is absent.
proof fn lemma_yaml_map_get(
    source: SourceModel,
    single_line: bool,
    pairs: Seq<(YamlNode, YamlNode)>,
    n: int,
    i: int,
    k: Seq<char>,
)
    requires
        0 <= n <= pairs.len(),
        spec_yaml_map(source, single_line, pairs, n) is Ok,
    ensures
        0 <= i < n ==> spec_yaml_key(pairs[i].0) is Some,
        0 <= i < n && (forall|j: int| i < j < n ==> spec_yaml_key((#[trigger] pairs[j]).0) != spec_yaml_key(pairs[i].0))
            ==> spec_yaml_value(source, single_line, pairs[i].1) is Ok && spec_table_get(
            spec_yaml_map(source, single_line, pairs, n)->Ok_0,
            spec_yaml_key(pairs[i].0)->Some_0,
        ) == Some(spec_yaml_value(source, single_line, pairs[i].1)->Ok_0),
        (forall|j: int| 0 <= j < n ==> spec_yaml_key((#[trigger] pairs[j]).0) != Some(k)) ==> spec_table_get(
            spec_yaml_map(source, single_line, pairs, n)->Ok_0,
            k,
        ) is None,
    decreases n,
{
    if n > 0 {
        lemma_yaml_map_get(source, single_line, pairs, n - 1, i, k);
        let prev = spec_yaml_map(source, single_line, pairs, n - 1)->Ok_0;
        let key = spec_yaml_key(pairs[n - 1].0)->Some_0;
        let lv = spec_yaml_value(source, single_line, pairs[n - 1].1)->Ok_0;
        lemma_get_insert_same(prev, key, lv);
        if 0 <= i < n - 1 && key != spec_yaml_key(pairs[i].0)->Some_0 {
            lemma_get_insert_other(prev, key, lv, spec_yaml_key(pairs[i].0)->Some_0);
        }
        if key != k {
            lemma_get_insert_other(prev, key, lv, k);
        }
    } else {
        assert(spec_index_of(Seq::<(Seq<char>, LocatedModel)>::empty(), k) == -1);
    }
}

/// A YAML mapping that converts gives a map holding each pair's value under the pair's key (the
/// last pair wins for a repeated key), and no key that no pair has.
pub proof fn law_yaml_mapping_pairs(source: SourceModel, single_line: bool, node: YamlNode, i: int, k: Seq<char>)
    requires
        node.data is Mapping,
        spec_yaml_value(source, single_line, node) is Ok,
    ensures
        spec_yaml_value(source, single_line, node)->Ok_0.value is Table,
        0 <= i < node.data->Mapping_0@.len() && (forall|j: int|
            i < j < node.data->Mapping_0@.len() ==> spec_yaml_key((#[trigger] node.data->Mapping_0@[j]).0)
                != spec_yaml_key(node.data->Mapping_0@[i].0)) ==> spec_table_get(
            spec_yaml_value(source, single_line, node)->Ok_0.value->Table_0,
            spec_yaml_key(node.data->Mapping_0@[i].0)->Some_0,
        ) == Some(spec_yaml_value(source, single_line, node.data->Mapping_0@[i].1)->Ok_0),
        (forall|j: int|
            0 <= j < node.data->Mapping_0@.len() ==> spec_yaml_key((#[trigger] node.data->Mapping_0@[j]).0) != Some(k))
            ==> spec_table_get(spec_yaml_value(source, single_line, node)->Ok_0.value->Table_0, k) is None,
{
    let pairs = node.data->Mapping_0@;
    lemma_yaml_map_get(source, single_line, pairs, pairs.len() as int, i, k);
}

/// Over the first `n` items of an array that converts: one value per item, each with the
/// content of its item converted on its own (comments aside).
proof fn lemma_toml_array_items(c: TomlCtx, items: Seq<TomlNode>, trailing: TomlRaw, fallback: usize, n: int)
    requires
        0 <= n <= items.len(),
        spec_toml_array(c, items, trailing, fallback, n) is Ok,
    ensures
        spec_toml_array(c, items, trailing, fallback, n)->Ok_0.len() == n,
        forall|k: int|
            0 <= k < n ==> spec_toml_value(c, items[k], spec_toml_location(c, items[k].span, fallback)) is Ok
                && (#[trigger] spec_toml_array(c, items, trailing, fallback, n)->Ok_0[k]).value == spec_toml_value(
                c,
                items[k],
                spec_toml_location(c, items[k].span, fallback),
            )->Ok_0.value,
    decreases n,
{
    if n > 0 {
        lemma_toml_array_items(c, items, trailing, fallback, n - 1);
        let acc = spec_toml_array(c, items, trailing, fallback, n - 1)->Ok_0;
        let r = spec_toml_array(c, items, trailing, fallback, n)->Ok_0;
        assert forall|k: int| 0 <= k < n implies spec_toml_value(c, items[k], spec_toml_location(c, items[k].span, fallback)) is Ok
            && (#[trigger] r[k]).value == spec_toml_value(c, items[k], spec_toml_location(c, items[k].span, fallback))->Ok_0.value by {
            if k < n - 1 {
                assert(r[k].value == acc[k].value);
            }
        }
    }
}

/// A TOML array that converts gives a list with one value per item, in order, each with the
/// content its item converts to (comments aside).
pub proof fn law_toml_array_items(c: TomlCtx, node: TomlNode, location: LocationModel)
    requires
        node.value is Array,
        spec_toml_value(c, node, location) is Ok,
    ensures
        spec_toml_value(c, node, location)->Ok_0.value matches ValueModel::List(l) && l.len()
            == node.value->Array_0@.len() && forall|k: int|
            0 <= k < l.len() ==> (#[trigger] l[k]).value == spec_toml_value(
                c,
                node.value->Array_0@[k],
                spec_toml_location(
                    c,
                    node.value->Array_0@[k].span,
                    crate::parse_toml::spec_span_start(node.span, 0),
                ),
            )->Ok_0.value,
{
    let items = node.value->Array_0@;
    lemma_toml_array_items(
        c,
        items,
        node.value->Array_1,
        crate::parse_toml::spec_span_start(node.span, 0),
        items.len() as int,
    );
}

/// An entry converts to the value its item converts to, with comments attached: a plain value
/// to that value, a table to that table's map.
pub proof fn law_toml_entry_value(c: TomlCtx, e: TomlEntry, fallback: usize)
    requires
        spec_toml_entry(c, e, fallback) is Ok,
    ensures
        e.item matches TomlItem::Value(v) ==> spec_toml_entry(c, e, fallback)->Ok_0.value == spec_toml_value(
            c,
            v,
            spec_toml_location(c, v.span, crate::parse_toml::spec_span_start(v.span, fallback)),
        )->Ok_0.value,
        e.item matches TomlItem::Table(t) ==> spec_toml_entry(c, e, fallback)->Ok_0.value == spec_toml_table(
            c,
            t,
            crate::parse_toml::spec_span_start(t.span, fallback),
        )->Ok_0.value,
        e.item matches TomlItem::ArrayOfTables(ts, span) ==> spec_toml_entry(c, e, fallback)->Ok_0.value
            == ValueModel::List(
            spec_toml_tables(c, ts@, crate::parse_toml::spec_span_start(span, fallback), ts@.len() as int)->Ok_0,
        ),
        !(e.item is Empty),
{
}

/// Over the first `n` entries of a table that converts: an entry whose key no later entry
/// repeats is read under its key as its converted entry, and a key no entry has is absent.
proof fn lemma_toml_entries_get(c: TomlCtx, es: Seq<TomlEntry>, fallback: usize, n: int, i: int, k: Seq<char>)
    requires
        0 <= n <= es.len(),
        spec_toml_entries(c, es, fallback, n) is Ok,
    ensures
        0 <= i < n && (forall|j: int| i < j < n ==> (#[trigger] es[j]).key@ != es[i].key@) ==> spec_toml_entry(c, es[i], fallback) is Ok
            && spec_table_get(spec_toml_entries(c, es, fallback, n)->Ok_0, es[i].key@) == Some(
            spec_toml_entry(c, es[i], fallback)->Ok_0,
        ),
        (forall|j: int| 0 <= j < n ==> (#[trigger] es[j]).key@ != k) ==> spec_table_get(
            spec_toml_entries(c, es, fallback, n)->Ok_0,
            k,
        ) is None,
    decreases n,
{
    if n > 0 {
        lemma_toml_entries_get(c, es, fallback, n - 1, i, k);
        let prev = spec_toml_entries(c, es, fallback, n - 1)->Ok_0;
        let key = es[n - 1].key@;
        let lv = spec_toml_entry(c, es[n - 1], fallback)->Ok_0;
        lemma_get_insert_same(prev, key, lv);
        if 0 <= i < n - 1 && key != es[i].key@ {
            lemma_get_insert_other(prev, key, lv, es[i].key@);
        }
        if key != k {
            lemma_get_insert_other(prev, key, lv, k);
        }
    } else {
        assert(spec_index_of(Seq::<(Seq<char>, LocatedModel)>::empty(), k) == -1);
    }
}

/// A TOML table that converts gives a map holding each entry under its key as its converted
/// entry (the last entry wins for a repeated key), and no key that no entry has.
pub proof fn law_toml_table_entries(c: TomlCtx, t: TomlTable, fallback: usize, i: int, k: Seq<char>)
    requires
        spec_toml_table(c, t, fallback) is Ok,
    ensures
        spec_toml_table(c, t, fallback)->Ok_0.value is Table,
        0 <= i < t.entries@.len() && (forall|j: int|
            i < j < t.entries@.len() ==> (#[trigger] t.entries@[j]).key@ != t.entries@[i].key@) ==> spec_table_get(
            spec_toml_table(c, t, fallback)->Ok_0.value->Table_0,
            t.entries@[i].key@,
        ) == Some(spec_toml_entry(c, t.entries@[i], fallback)->Ok_0),
        (forall|j: int| 0 <= j < t.entries@.len() ==> (#[trigger] t.entries@[j]).key@ != k) ==> spec_table_get(
            spec_toml_table(c, t, fallback)->Ok_0.value->Table_0,
            k,
        ) is None,
{
    lemma_toml_entries_get(c, t.entries@, fallback, t.entries@.len() as int, i, k);
}

/// Over the first `n` items of a sequence that converts: one value per item, each its item
/// converted.
proof fn lemma_yaml_seq_items(source: SourceModel, single_line: bool, items: Seq<YamlNode>, n: int)
    requires
        0 <= n <= items.len(),
        spec_yaml_seq(source, single_line, items, n) is Ok,
    ensures
        spec_yaml_seq(source, single_line, items, n)->Ok_0.len() == n,
        forall|k: int| 0 <= k < n ==> spec_yaml_value(source, single_line, #[trigger] items[k]) is Ok,
        forall|k: int|
            0 <= k < n ==> (#[trigger] spec_yaml_seq(source, single_line, items, n)->Ok_0[k]) == spec_yaml_value(
                source,
                single_line,
                items[k],
            )->Ok_0,
    decreases n,
{
    if n > 0 {
        lemma_yaml_seq_items(source, single_line, items, n - 1);
        let acc = spec_yaml_seq(source, single_line, items, n - 1)->Ok_0;
        let lv = spec_yaml_value(source, single_line, items[n - 1])->Ok_0;
        assert(spec_yaml_seq(source, single_line, items, n - 1) is Ok);
        assert(spec_yaml_value(source, single_line, items[n - 1]) is Ok);
        let r = spec_yaml_seq(source, single_line, items, n)->Ok_0;
        assert(r == acc.push(lv));
        assert forall|k: int| 0 <= k < n implies spec_yaml_value(source, single_line, #[trigger] items[k]) is Ok by {
            if k < n - 1 {
                assert(spec_yaml_value(source, single_line, items[k]) is Ok);
            }
        }
        assert forall|k: int| 0 <= k < n implies (#[trigger] r[k]) == spec_yaml_value(source, single_line, items[k])->Ok_0 by {
            if k < n - 1 {
                assert(r[k] == acc[k]);
            }
        }
    }
}

/// A YAML sequence that converts gives a list with one value per item, in order, each its item
/// converted.
pub proof fn law_yaml_sequence_items(source: SourceModel, single_line: bool, node: YamlNode)
    requires
        node.data is Sequence,
        spec_yaml_value(source, single_line, node) is Ok,
    ensures
        spec_yaml_value(source, single_line, node)->Ok_0.value matches ValueModel::List(l) && l.len()
            == node.data->Sequence_0@.len() && forall|k: int|
            0 <= k < l.len() ==> spec_yaml_value(source, single_line, node.data->Sequence_0@[k]) is Ok && #[trigger] l[k]
                == spec_yaml_value(source, single_line, node.data->Sequence_0@[k])->Ok_0,
{
    let items = node.data->Sequence_0@;
    lemma_yaml_seq_items(source, single_line, items, items.len() as int);
}

} // verus!


