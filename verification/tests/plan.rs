use tanzim::load::Payload;
use tanzim::merge::{ArrayStrategy, DeepMerge, Merged};
use tanzim::plan::{
    deep, evaluate, last_wins, merge_with, named_value, src, value, MergePlan, Merger,
    SourceGroup,
};
use tanzim::source::{Source, SourceBuilder};
use tanzim::value::{LocatedValue, Location, Table, Value};

fn make_source(resource: &str) -> Source {
    SourceBuilder::new()
        .with_source("mock".to_string())
        .with_resource(resource.to_string())
        .build()
        .unwrap()
}

fn payload(source: &Source) -> Payload {
    Payload {
        source: source.clone(),
        maybe_name: None,
        maybe_format: Some("txt".into()),
        content: Vec::new(),
    }
}

fn string_value(text: &str) -> LocatedValue {
    LocatedValue::new(
        Value::String(text.to_string()),
        Location::at("mock", "test", None, None, None),
    )
}

fn map_value(entries: &[(&str, &str)]) -> LocatedValue {
    let mut map = Table::new();
    for (key, value) in entries {
        map.insert(key.to_string(), string_value(value));
    }
    LocatedValue::new(Value::Table(map), Location::at("mock", "test", None, None, None))
}

fn group(source: &Source, value: LocatedValue) -> SourceGroup {
    (source.clone(), vec![(payload(source), value)])
}

fn unnamed(merged: &Merged) -> &Value {
    merged.get(&None).unwrap().value.value()
}

fn text_at<'a>(map: &'a Table, key: &str) -> &'a str {
    map.get(key).unwrap().value().as_string().unwrap()
}

#[test]
fn source_leaf_resolves_only_its_source() {
    let a = make_source("a");
    let b = make_source("b");
    let groups = vec![
        group(&a, string_value("from-a")),
        group(&b, string_value("from-b")),
    ];
    let merged = evaluate(&MergePlan::Source(a.clone()), &groups).unwrap();
    assert_eq!(merged.len(), 1);
    assert_eq!(unnamed(&merged).as_string().unwrap(), "from-a");
}

#[test]
fn desugared_last_wins_over_two_sources() {
    let a = make_source("a");
    let b = make_source("b");
    let groups = vec![group(&a, string_value("first")), group(&b, string_value("second"))];
    let plan = last_wins(vec![MergePlan::Source(a.clone()), MergePlan::Source(b.clone())]);
    let merged = evaluate(&plan, &groups).unwrap();
    assert_eq!(unnamed(&merged).as_string().unwrap(), "second");
}

#[test]
fn deep_child_merges_its_sources() {
    let a = make_source("a");
    let b = make_source("b");
    let groups = vec![
        group(&a, map_value(&[("x", "A"), ("port", "1")])),
        group(&b, map_value(&[("y", "B"), ("port", "2")])),
    ];
    let plan = deep(vec![MergePlan::Source(a.clone()), MergePlan::Source(b.clone())]);
    let merged = evaluate(&plan, &groups).unwrap();
    let map = unnamed(&merged).as_table().unwrap();
    assert_eq!(text_at(map, "x"), "A");
    assert_eq!(text_at(map, "y"), "B");
    assert_eq!(text_at(map, "port"), "2");
}

#[test]
fn last_wins_of_deep_and_source() {
    let a = make_source("a");
    let b = make_source("b");
    let c = make_source("c");
    let groups = vec![
        group(&a, map_value(&[("x", "A")])),
        group(&b, map_value(&[("y", "B")])),
        group(&c, map_value(&[("z", "C")])),
    ];
    let plan = last_wins(vec![
        deep(vec![MergePlan::Source(a.clone()), MergePlan::Source(b.clone())]),
        MergePlan::Source(c.clone()),
    ]);
    let merged = evaluate(&plan, &groups).unwrap();
    let map = unnamed(&merged).as_table().unwrap();
    assert!(map.get("x").is_none());
    assert!(map.get("y").is_none());
    assert_eq!(text_at(map, "z"), "C");
}

#[test]
fn deep_of_lastwins_and_source_composes() {
    let a = make_source("a");
    let b = make_source("b");
    let c = make_source("c");
    let groups = vec![
        group(&a, map_value(&[("x", "A")])),
        group(&b, map_value(&[("y", "B")])),
        group(&c, map_value(&[("z", "C")])),
    ];
    let plan = deep(vec![
        last_wins(vec![MergePlan::Source(a.clone()), MergePlan::Source(b.clone())]),
        MergePlan::Source(c.clone()),
    ]);
    let merged = evaluate(&plan, &groups).unwrap();
    let map = unnamed(&merged).as_table().unwrap();
    assert!(map.get("x").is_none());
    assert_eq!(text_at(map, "y"), "B");
    assert_eq!(text_at(map, "z"), "C");
}

#[test]
fn src_helper_rejects_invalid_source() {
    assert!(src("bad(").is_err());
}

#[test]
fn src_helper_builds_a_source_leaf() {
    let plan = src("file(lowercase=true):conf").unwrap();
    match plan {
        MergePlan::Source(source) => {
            assert_eq!(source.source(), "file");
            assert_eq!(source.resource(), "conf");
        }
        _ => panic!("expected a source leaf"),
    }
}

#[test]
fn value_leaf_skips_source_groups() {
    let a = make_source("a");
    let groups = vec![group(&a, string_value("from-a"))];
    let plan = value(string_value("built-in"));
    let merged = evaluate(&plan, &groups).unwrap();
    assert_eq!(unnamed(&merged).as_string().unwrap(), "built-in");
}

#[test]
fn value_leaf_loses_to_later_source_under_last_wins() {
    let a = make_source("a");
    let groups = vec![group(&a, string_value("from-file"))];
    let plan = last_wins(vec![value(string_value("built-in")), MergePlan::Source(a.clone())]);
    let merged = evaluate(&plan, &groups).unwrap();
    assert_eq!(unnamed(&merged).as_string().unwrap(), "from-file");
}

#[test]
fn named_value_leaf_lands_in_named_bucket() {
    let plan = named_value("app".to_string(), string_value("defaults"));
    let merged = evaluate(&plan, &[]).unwrap();
    assert!(merged.get(&None).is_none());
    let group = merged.get(&Some("app".into())).unwrap();
    assert_eq!(group.value.value().as_string().unwrap(), "defaults");
}

#[test]
fn source_leaf_without_a_group_gives_nothing() {
    let a = make_source("a");
    let merged = evaluate(&MergePlan::Source(a), &[]).unwrap();
    assert!(merged.is_empty());
}

#[test]
fn merge_node_uses_the_array_strategy_of_its_merger() {
    let a = make_source("a");
    let b = make_source("b");
    let list = |items: &[&str]| {
        LocatedValue::new(
            Value::List(items.iter().map(|s| string_value(s)).collect()),
            Location::at("mock", "test", None, None, None),
        )
    };
    let groups = vec![group(&a, list(&["1"])), group(&b, list(&["2"]))];
    let merger = Merger::Deep(DeepMerge::new().with_array_strategy(ArrayStrategy::Concat));
    let plan = merge_with(merger, vec![MergePlan::Source(a), MergePlan::Source(b)]);
    let merged = evaluate(&plan, &groups).unwrap();
    let items: Vec<String> = unnamed(&merged)
        .as_list()
        .unwrap()
        .iter()
        .map(|v| v.value().as_string().unwrap().clone())
        .collect();
    assert_eq!(items, vec!["1".to_string(), "2".to_string()]);
}
