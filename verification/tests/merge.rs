use tanzim::load::Payload;
use tanzim::merge::{ArrayStrategy, DeepMerge, LastWins, Merge, Merged};
use tanzim::source::{Source, SourceBuilder};
use tanzim::value::{LocatedValue, Location, Table, Value};

fn source() -> Source {
    SourceBuilder::new()
        .with_source("mock".to_string())
        .with_resource("test".to_string())
        .build()
        .unwrap()
}

fn payload(name: Option<&str>) -> Payload {
    Payload {
        source: source(),
        maybe_name: name.map(str::to_string),
        maybe_format: Some("txt".into()),
        content: Vec::new(),
    }
}

fn here() -> Location {
    Location::at("mock", "test", None, None, None)
}

fn string_value(text: &str) -> LocatedValue {
    LocatedValue::new(Value::String(text.to_string()), here())
}

fn map_value(entries: &[(&str, &str)]) -> LocatedValue {
    let mut map = Table::new();
    for (key, value) in entries {
        map.insert(key.to_string(), string_value(value));
    }
    LocatedValue::new(Value::Table(map), here())
}

fn list_value(items: Vec<LocatedValue>) -> LocatedValue {
    LocatedValue::new(Value::List(items), here())
}

fn null_value() -> LocatedValue {
    LocatedValue::new(Value::Null, here())
}

fn located_map(entries: Vec<(&str, LocatedValue)>) -> LocatedValue {
    let mut map = Table::new();
    for (key, value) in entries {
        map.insert(key.to_string(), value);
    }
    LocatedValue::new(Value::Table(map), here())
}

fn app() -> Option<String> {
    Some("app".to_string())
}

fn app_value(merged: &Merged) -> &Value {
    merged.get(&app()).unwrap().value.value()
}

fn merge_lists_via(
    base: LocatedValue,
    overlay: LocatedValue,
    strategy: ArrayStrategy,
) -> Vec<LocatedValue> {
    let parsed = vec![(payload(Some("app")), base), (payload(Some("app")), overlay)];
    let merged = DeepMerge::new()
        .with_array_strategy(strategy)
        .merge(&parsed)
        .unwrap();
    let list = app_value(&merged).as_list().unwrap();
    list.iter().map(|item| item.clone_located()).collect()
}

fn strings(items: &[&str]) -> Vec<String> {
    items.iter().map(|s| s.to_string()).collect()
}

fn list_strings(items: &[LocatedValue]) -> Vec<String> {
    items
        .iter()
        .map(|lv| lv.value().as_string().unwrap().clone())
        .collect()
}

fn text_at<'a>(map: &'a Table, key: &str) -> &'a str {
    map.get(key).unwrap().value().as_string().unwrap()
}

#[test]
fn last_wins_empty_input() {
    let merged = LastWins.merge(&[]).unwrap();
    assert!(merged.is_empty());
}

#[test]
fn last_wins_keeps_last_value_for_same_name() {
    let parsed = vec![
        (payload(Some("app")), string_value("first")),
        (payload(Some("app")), string_value("second")),
    ];
    let merged = LastWins.merge(&parsed).unwrap();
    assert_eq!(app_value(&merged).as_string().unwrap(), "second");
}

#[test]
fn last_wins_groups_unnamed_entries() {
    let parsed = vec![
        (payload(None), string_value("first")),
        (payload(None), string_value("second")),
    ];
    let merged = LastWins.merge(&parsed).unwrap();
    let group = merged.get(&None).unwrap();
    assert_eq!(group.value.value().as_string().unwrap(), "second");
}

#[test]
fn last_wins_distinct_names() {
    let parsed = vec![
        (payload(Some("alpha")), string_value("a")),
        (payload(Some("beta")), string_value("b")),
    ];
    let merged = LastWins.merge(&parsed).unwrap();
    assert_eq!(merged.len(), 2);
    let alpha = merged.get(&Some("alpha".into())).unwrap();
    assert_eq!(alpha.value.value().as_string().unwrap(), "a");
    let beta = merged.get(&Some("beta".into())).unwrap();
    assert_eq!(beta.value.value().as_string().unwrap(), "b");
}

#[test]
fn deep_merge_empty_input() {
    let merged = DeepMerge::new().merge(&[]).unwrap();
    assert!(merged.is_empty());
}

#[test]
fn deep_merge_recurses_into_shared_map_keys() {
    let parsed = vec![
        (
            payload(Some("app")),
            map_value(&[("host", "localhost"), ("port", "8080")]),
        ),
        (
            payload(Some("app")),
            map_value(&[("port", "9090"), ("debug", "true")]),
        ),
    ];
    let merged = DeepMerge::new().merge(&parsed).unwrap();
    let group = merged.get(&app()).unwrap();
    assert_eq!(group.payloads.len(), 2);
    let map = group.value.value().as_table().unwrap();
    assert_eq!(text_at(map, "host"), "localhost");
    assert_eq!(text_at(map, "port"), "9090");
    assert_eq!(text_at(map, "debug"), "true");
}

#[test]
fn deep_merge_scalar_overlay_replaces_map() {
    let parsed = vec![
        (payload(Some("app")), map_value(&[("mode", "auto")])),
        (payload(Some("app")), string_value("override")),
    ];
    let merged = DeepMerge::new().merge(&parsed).unwrap();
    assert_eq!(app_value(&merged).as_string().unwrap(), "override");
}

#[test]
fn deep_merge_null_overlay_deletes_map_key() {
    let parsed = vec![
        (
            payload(Some("app")),
            map_value(&[("host", "localhost"), ("port", "8080")]),
        ),
        (payload(Some("app")), located_map(vec![("port", null_value())])),
    ];
    let merged = DeepMerge::new().merge(&parsed).unwrap();
    let map = app_value(&merged).as_table().unwrap();
    assert_eq!(text_at(map, "host"), "localhost");
    assert!(!map.contains_key("port"));
}

#[test]
fn deep_merge_null_overlay_only_does_not_insert_key() {
    let parsed = vec![
        (payload(Some("app")), map_value(&[("host", "localhost")])),
        (payload(Some("app")), located_map(vec![("debug", null_value())])),
    ];
    let merged = DeepMerge::new().merge(&parsed).unwrap();
    let map = app_value(&merged).as_table().unwrap();
    assert!(map.contains_key("host"));
    assert!(!map.contains_key("debug"));
}

#[test]
fn deep_merge_null_overlay_deletes_nested_map_key() {
    let base = located_map(vec![(
        "server",
        map_value(&[("host", "localhost"), ("port", "8080")]),
    )]);
    let overlay = located_map(vec![("server", located_map(vec![("port", null_value())]))]);
    let parsed = vec![(payload(Some("app")), base), (payload(Some("app")), overlay)];
    let merged = DeepMerge::new().merge(&parsed).unwrap();
    let server = app_value(&merged)
        .as_table()
        .unwrap()
        .get("server")
        .unwrap()
        .value()
        .as_table()
        .unwrap();
    assert_eq!(text_at(server, "host"), "localhost");
    assert!(!server.contains_key("port"));
}

#[test]
fn last_wins_keeps_null_as_value() {
    let parsed = vec![
        (payload(Some("app")), map_value(&[("port", "8080")])),
        (payload(Some("app")), located_map(vec![("port", null_value())])),
    ];
    let merged = LastWins.merge(&parsed).unwrap();
    let map = app_value(&merged).as_table().unwrap();
    assert!(map.get("port").unwrap().value().is_null());
}

#[test]
fn deep_merge_unnamed_bucket() {
    let parsed = vec![
        (payload(None), map_value(&[("a", "1")])),
        (payload(None), map_value(&[("b", "2")])),
    ];
    let merged = DeepMerge::new().merge(&parsed).unwrap();
    let group = merged.get(&None).unwrap();
    assert_eq!(group.payloads.len(), 2);
    let map = group.value.value().as_table().unwrap();
    assert_eq!(text_at(map, "a"), "1");
    assert_eq!(text_at(map, "b"), "2");
}

#[test]
fn array_strategy_replace_is_default() {
    let parsed = vec![
        (
            payload(Some("app")),
            list_value(vec![string_value("a"), string_value("b")]),
        ),
        (payload(Some("app")), list_value(vec![string_value("c")])),
    ];
    let merged = DeepMerge::new().merge(&parsed).unwrap();
    let list = app_value(&merged).as_list().unwrap();
    assert_eq!(list_strings(list), strings(&["c"]));
}

#[test]
fn array_strategy_concat() {
    let out = merge_lists_via(
        list_value(vec![string_value("a"), string_value("b")]),
        list_value(vec![string_value("c")]),
        ArrayStrategy::Concat,
    );
    assert_eq!(list_strings(&out), strings(&["a", "b", "c"]));
}

#[test]
fn array_strategy_prepend() {
    let out = merge_lists_via(
        list_value(vec![string_value("a"), string_value("b")]),
        list_value(vec![string_value("c")]),
        ArrayStrategy::Prepend,
    );
    assert_eq!(list_strings(&out), strings(&["c", "a", "b"]));
}

#[test]
fn array_strategy_union_dedupes() {
    let out = merge_lists_via(
        list_value(vec![string_value("a"), string_value("b")]),
        list_value(vec![string_value("b"), string_value("c")]),
        ArrayStrategy::Union,
    );
    assert_eq!(list_strings(&out), strings(&["a", "b", "c"]));
}

#[test]
fn array_strategy_index_zips_and_appends_tail() {
    let out = merge_lists_via(
        list_value(vec![string_value("a"), string_value("b")]),
        list_value(vec![
            string_value("x"),
            string_value("y"),
            string_value("z"),
        ]),
        ArrayStrategy::Index,
    );
    assert_eq!(list_strings(&out), strings(&["x", "y", "z"]));
}

#[test]
fn array_strategy_index_recurses_into_maps() {
    let out = merge_lists_via(
        list_value(vec![map_value(&[("host", "a"), ("port", "1")])]),
        list_value(vec![map_value(&[("port", "2")])]),
        ArrayStrategy::Index,
    );
    assert_eq!(out.len(), 1);
    let map = out[0].value().as_table().unwrap();
    assert_eq!(text_at(map, "host"), "a");
    assert_eq!(text_at(map, "port"), "2");
}

#[test]
fn array_strategy_keyed_merges_matches_and_appends_rest() {
    let base = list_value(vec![
        map_value(&[("id", "1"), ("host", "a")]),
        map_value(&[("id", "3"), ("host", "c")]),
    ]);
    let overlay = list_value(vec![
        map_value(&[("id", "1"), ("port", "8080")]),
        map_value(&[("id", "2"), ("host", "b")]),
    ]);
    let out = merge_lists_via(base, overlay, ArrayStrategy::Keyed("id".into()));
    assert_eq!(out.len(), 3);
    let e0 = out[0].value().as_table().unwrap();
    assert_eq!(text_at(e0, "id"), "1");
    assert_eq!(text_at(e0, "host"), "a");
    assert_eq!(text_at(e0, "port"), "8080");
    assert_eq!(text_at(out[1].value().as_table().unwrap(), "id"), "3");
    assert_eq!(text_at(out[2].value().as_table().unwrap(), "id"), "2");
}

#[test]
fn keyed_items_without_the_key_are_appended() {
    let base = list_value(vec![map_value(&[("id", "1")])]);
    let overlay = list_value(vec![map_value(&[("name", "x")]), string_value("plain")]);
    let out = merge_lists_via(base, overlay, ArrayStrategy::Keyed("id".into()));
    assert_eq!(out.len(), 3);
    assert_eq!(text_at(out[1].value().as_table().unwrap(), "name"), "x");
    assert_eq!(out[2].value().as_string().unwrap(), "plain");
}

#[test]
fn list_facing_a_scalar_is_replaced_whatever_the_strategy() {
    let out = merge_lists_via(
        string_value("scalar"),
        list_value(vec![string_value("a")]),
        ArrayStrategy::Concat,
    );
    assert_eq!(list_strings(&out), strings(&["a"]));
}

#[test]
fn deep_merge_value_keeps_base_keys_in_order_then_appends_new_ones() {
    let base = map_value(&[("a", "1"), ("b", "2")]);
    let overlay = map_value(&[("c", "3"), ("a", "9")]);
    let merged = tanzim::merge::deep_merge_value(&base, &overlay, &ArrayStrategy::Replace);
    let map = merged.value().as_table().unwrap();
    assert_eq!(map.keys(), strings(&["a", "b", "c"]));
    assert_eq!(text_at(map, "a"), "9");
}

#[test]
fn default_array_strategy_is_replace() {
    assert!(matches!(ArrayStrategy::default(), ArrayStrategy::Replace));
    assert!(matches!(DeepMerge::new().array_strategy(), ArrayStrategy::Replace));
}

#[test]
fn merged_groups_keep_first_appearance_order() {
    let parsed = vec![
        (payload(Some("b")), string_value("1")),
        (payload(Some("a")), string_value("2")),
        (payload(Some("b")), string_value("3")),
    ];
    let merged = DeepMerge::new().merge_all(&parsed);
    let names: Vec<Option<String>> = merged.groups().iter().map(|g| g.name.clone()).collect();
    assert_eq!(names, vec![Some("b".to_string()), Some("a".to_string())]);
    let groups = merged.into_groups();
    assert_eq!(groups[0].payloads.len(), 2);
    assert_eq!(groups[0].value.value().as_string().unwrap(), "3");
}

#[test]
fn merge_error_display() {
    let error = tanzim::merge::Error::Other("bad plan".to_string());
    assert_eq!(error.to_display_string(), "bad plan");
}

#[test]
fn keyed_overlay_items_match_base_items_only() {
    let base = list_value(vec![]);
    let overlay = list_value(vec![
        map_value(&[("id", "1"), ("a", "x")]),
        map_value(&[("id", "1"), ("b", "y")]),
    ]);
    let out = merge_lists_via(base, overlay, ArrayStrategy::Keyed("id".into()));
    assert_eq!(out.len(), 2);
    assert_eq!(text_at(out[0].value().as_table().unwrap(), "a"), "x");
    assert_eq!(text_at(out[1].value().as_table().unwrap(), "b"), "y");
}

fn float_value(value: f64) -> LocatedValue {
    LocatedValue::new(Value::Float(format!("{:?}", value)), here())
}

#[test]
fn union_compares_floats_as_floats() {
    let base = list_value(vec![float_value(0.0), float_value(f64::NAN)]);
    let overlay = list_value(vec![float_value(-0.0), float_value(f64::NAN), float_value(1.5)]);
    let out = merge_lists_via(base, overlay, ArrayStrategy::Union);
    let texts: Vec<String> = out
        .iter()
        .map(|item| match item.value() {
            Value::Float(text) => text.clone(),
            _ => panic!("not a float"),
        })
        .collect();
    assert_eq!(texts, vec!["0.0", "NaN", "NaN", "1.5"]);
}

#[test]
fn same_value_follows_float_equality() {
    assert!(Value::Float("0.0".into()).same_value(&Value::Float("-0.0".into())));
    assert!(!Value::Float("NaN".into()).same_value(&Value::Float("NaN".into())));
    assert!(Value::Float("1.5".into()).same_value(&Value::Float("1.5".into())));
}

#[test]
fn index_merge_merges_pairs_then_keeps_the_longer_tail() {
    let base = vec![string_value("a"), string_value("b"), string_value("c")];
    let overlay = vec![string_value("x")];
    let out = tanzim::merge::merge_lists(&base, &overlay, &ArrayStrategy::Index);
    let texts: Vec<&str> = out.iter().map(|v| v.value().as_string().unwrap().as_str()).collect();
    assert_eq!(texts, vec!["x", "b", "c"]);
}
