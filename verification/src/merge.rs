//! Merging parsed payloads into one value per entry name.
//!
//! Payloads are grouped by [`Payload::maybe_name`] (`None` is the unnamed entry), in the order
//! names first appear. [`LastWins`] keeps the last value of each group; [`DeepMerge`] folds the
//! values of a group with [`spec_deep_merge`].

use vstd::prelude::*;
use crate::load::{Payload, PayloadModel, spec_opt_chars, clone_opt_string};
use crate::value::{
    Value, ValueModel, LocatedValue, LocatedModel, Table, TableModel, spec_table_get,
    spec_table_insert, spec_index_of, lemma_index_of, spec_plain, spec_same_value, spec_no_comment,
    located_models, lemma_list_model,
};
use crate::text::str_equal;

verus! {

/// How [`DeepMerge`] combines two lists at the same place.
///
/// It applies only when both the base and the overlay value are lists; a list facing anything
/// else is replaced by the overlay like any other value.
#[derive(Debug)]
pub enum ArrayStrategy {
    /// The overlay list replaces the base list (the default).
    Replace,
    /// `base ++ overlay`.
    Concat,
    /// `overlay ++ base`.
    Prepend,
    /// `base ++ overlay`, keeping only the first of items with the same content.
    Union,
    /// Items at the same position are deep-merged; the longer list's tail is appended.
    Index,
    /// Lists of maps joined on the value under a key: each overlay item is deep-merged into the
    /// first result item whose value under the key has the same content, else appended. Items
    /// without the key are appended. Base order is kept.
    Keyed(String),
}

impl Clone for ArrayStrategy {
    fn clone(&self) -> (r: ArrayStrategy)
        ensures
            r@ == self@,
    {
        match self {
            ArrayStrategy::Replace => ArrayStrategy::Replace,
            ArrayStrategy::Concat => ArrayStrategy::Concat,
            ArrayStrategy::Prepend => ArrayStrategy::Prepend,
            ArrayStrategy::Union => ArrayStrategy::Union,
            ArrayStrategy::Index => ArrayStrategy::Index,
            ArrayStrategy::Keyed(k) => ArrayStrategy::Keyed(k.clone()),
        }
    }
}

impl Default for ArrayStrategy {
    fn default() -> (r: ArrayStrategy)
        ensures
            r@ == StrategyModel::Replace,
    {
        ArrayStrategy::Replace
    }
}

/// Model of an [`ArrayStrategy`].
pub enum StrategyModel {
    Replace,
    Concat,
    Prepend,
    Union,
    Index,
    Keyed(Seq<char>),
}

impl View for ArrayStrategy {
    type V = StrategyModel;

    open spec fn view(&self) -> StrategyModel {
        match self {
            ArrayStrategy::Replace => StrategyModel::Replace,
            ArrayStrategy::Concat => StrategyModel::Concat,
            ArrayStrategy::Prepend => StrategyModel::Prepend,
            ArrayStrategy::Union => StrategyModel::Union,
            ArrayStrategy::Index => StrategyModel::Index,
            ArrayStrategy::Keyed(k) => StrategyModel::Keyed(k@),
        }
    }
}

/// Deep merge of `overlay` onto `base`.
///
/// Two maps merge key by key ([`spec_merge_tables`]) and the result takes the overlay's location
/// and no comment. Two lists combine by the strategy: `Replace` gives the overlay itself, the
/// others give [`spec_merge_lists`] at the overlay's location with no comment. Anything else
/// gives the overlay.
pub open spec fn spec_deep_merge(base: LocatedModel, overlay: LocatedModel, s: StrategyModel) -> LocatedModel
    decreases overlay, 0int,
{
    match base.value {
        ValueModel::Table(b) => match overlay.value {
            ValueModel::Table(o) => LocatedModel {
                value: ValueModel::Table(spec_merge_tables(b, o, s)),
                location: overlay.location,
                comment: spec_no_comment(),
            },
            _ => overlay,
        },
        ValueModel::List(b) => match overlay.value {
            ValueModel::List(o) => if s is Replace {
                overlay
            } else {
                LocatedModel {
                    value: ValueModel::List(spec_merge_lists(b, o, s)),
                    location: overlay.location,
                    comment: spec_no_comment(),
                }
            },
            _ => overlay,
        },
        _ => overlay,
    }
}

/// Key-by-key merge of two maps: the base pass ([`spec_merge_base`]) followed by the overlay's
/// remaining non-null keys ([`spec_add_rest`]).
pub open spec fn spec_merge_tables(b: TableModel, o: TableModel, s: StrategyModel) -> TableModel
    decreases o, b.len() + 2,
{
    spec_add_rest(spec_merge_base(b, o, s, b.len() as int), o, o.len() as int)
}

/// The first `i` base entries, in base order: a key the overlay maps to null is dropped, a key
/// the overlay also holds is deep-merged with the overlay's value, any other key keeps the base
/// value.
pub open spec fn spec_merge_base(b: TableModel, o: TableModel, s: StrategyModel, i: int) -> TableModel
    decreases o, i,
{
    if i <= 0 || i > b.len() {
        Seq::empty()
    } else {
        let r = spec_merge_base(b, o, s, i - 1);
        let key = b[i - 1].0;
        let idx = spec_index_of(o, key);
        proof {
            lemma_index_of(o, key);
        }
        if idx >= 0 {
            if o[idx].1.value is Null {
                r
            } else {
                spec_table_insert(r, key, spec_deep_merge(b[i - 1].1, o[idx].1, s))
            }
        } else {
            spec_table_insert(r, key, b[i - 1].1)
        }
    }
}

/// `r` with the first `j` overlay entries whose key `r` lacks and whose value is not null
/// appended.
pub open spec fn spec_add_rest(r: TableModel, o: TableModel, j: int) -> TableModel
    decreases j,
{
    if j <= 0 || j > o.len() {
        r
    } else {
        let prev = spec_add_rest(r, o, j - 1);
        if spec_table_get(prev, o[j - 1].0) is None && !(o[j - 1].1.value is Null) {
            spec_table_insert(prev, o[j - 1].0, o[j - 1].1)
        } else {
            prev
        }
    }
}

/// Merge of two lists by a strategy other than `Replace`.
pub open spec fn spec_merge_lists(b: Seq<LocatedModel>, o: Seq<LocatedModel>, s: StrategyModel) -> Seq<LocatedModel>
    decreases o, o.len() + 2,
{
    match s {
        StrategyModel::Replace => o,
        StrategyModel::Concat => b + o,
        StrategyModel::Prepend => o + b,
        StrategyModel::Union => spec_union(b + o, (b + o).len() as int),
        StrategyModel::Index => {
            let m = if b.len() < o.len() { b.len() } else { o.len() };
            spec_zip(b, o, s, m as int) + b.skip(m as int) + o.skip(m as int)
        },
        StrategyModel::Keyed(key) => spec_keyed(b, o, key, s, o.len() as int),
    }
}

/// The deep merges of the first `i` pairs of items at the same position.
pub open spec fn spec_zip(b: Seq<LocatedModel>, o: Seq<LocatedModel>, s: StrategyModel, i: int) -> Seq<LocatedModel>
    decreases o, i,
{
    if i <= 0 || i > b.len() || i > o.len() {
        Seq::empty()
    } else {
        spec_zip(b, o, s, i - 1).push(spec_deep_merge(b[i - 1], o[i - 1], s))
    }
}

/// `true` when some item of `acc` has the same content as `v`.
pub open spec fn spec_has_same(acc: Seq<LocatedModel>, v: LocatedModel) -> bool {
    exists|j: int| 0 <= j < acc.len() && spec_same_value(#[trigger] acc[j].value, v.value)
}

/// The first `n` items of `items` without those whose content equals an earlier kept item.
pub open spec fn spec_union(items: Seq<LocatedModel>, n: int) -> Seq<LocatedModel>
    decreases n,
{
    if n <= 0 || n > items.len() {
        Seq::empty()
    } else {
        let acc = spec_union(items, n - 1);
        if spec_has_same(acc, items[n - 1]) {
            acc
        } else {
            acc.push(items[n - 1])
        }
    }
}

/// The content of the value a map item holds under `key`, or `None` for an item that is not a
/// map or lacks the key.
pub open spec fn spec_key_of(v: LocatedModel, key: Seq<char>) -> Option<crate::value::PlainValue> {
    match v.value {
        ValueModel::Table(e) => match spec_table_get(e, key) {
            Some(x) => Some(spec_plain(x.value)),
            None => None,
        },
        _ => None,
    }
}

/// `true` when `v` holds under `key` a value of the same content as `k` (compared as
/// [`spec_same_plain`] does).
pub open spec fn spec_key_matches(v: LocatedModel, key: Seq<char>, k: crate::value::PlainValue) -> bool {
    match spec_key_of(v, key) {
        Some(x) => crate::value::spec_same_plain(x, k),
        None => false,
    }
}

/// Position of the first item of `acc` whose value under `key` has content `k`, or `-1`.
pub open spec fn spec_first_match(acc: Seq<LocatedModel>, key: Seq<char>, k: crate::value::PlainValue) -> int
    decreases acc.len(),
{
    if acc.len() == 0 {
        -1
    } else {
        let p = spec_first_match(acc.drop_last(), key, k);
        if p >= 0 {
            p
        } else if spec_key_matches(acc.last(), key, k) {
            acc.len() - 1
        } else {
            -1
        }
    }
}

/// The base list after folding in the first `j` overlay items by the value under `key`: an
/// overlay item is deep-merged into the first base item with the same content under `key`, and
/// appended when it has no such base item or lacks the key.
pub open spec fn spec_keyed(b: Seq<LocatedModel>, o: Seq<LocatedModel>, key: Seq<char>, s: StrategyModel, j: int) -> Seq<LocatedModel>
    decreases o, j,
{
    if j <= 0 || j > o.len() {
        b
    } else {
        let acc = spec_keyed(b, o, key, s, j - 1);
        let over = o[j - 1];
        match spec_key_of(over, key) {
            Some(k) => {
                let p = spec_first_match(b, key, k);
                if 0 <= p < acc.len() {
                    acc.update(p, spec_deep_merge(acc[p], over, s))
                } else {
                    acc.push(over)
                }
            },
            None => acc.push(over),
        }
    }
}

/// Appends copies of all items of `src` to `out`.
fn push_copies(out: &mut Vec<LocatedValue>, src: &Vec<LocatedValue>)
    ensures
        located_models(final(out)@) == located_models(old(out)@) + located_models(src@),
{
    let mut i: usize = 0;
    while i < src.len()
        invariant
            0 <= i <= src@.len(),
            located_models(out@) == located_models(old(out)@) + located_models(src@.subrange(0, i as int)),
        decreases src@.len() - i,
    {
        let c = src[i].clone_located();
        let ghost prev = out@;
        out.push(c);
        assert(located_models(out@) =~= located_models(prev).push(c@));
        assert(located_models(src@.subrange(0, i + 1)) =~= located_models(src@.subrange(0, i as int)).push(
            src@[i as int]@,
        ));
        i = i + 1;
        assert(located_models(out@) =~= located_models(old(out)@) + located_models(
            src@.subrange(0, i as int),
        ));
    }
    assert(src@.subrange(0, src@.len() as int) =~= src@);
}

/// Appends copies of the items of `src` from position `from` on to `out`.
fn push_copies_from(out: &mut Vec<LocatedValue>, src: &Vec<LocatedValue>, from: usize)
    requires
        from <= src@.len(),
    ensures
        located_models(final(out)@) == located_models(old(out)@) + located_models(src@).skip(
            from as int,
        ),
{
    let mut i: usize = from;
    while i < src.len()
        invariant
            from <= i <= src@.len(),
            located_models(out@) == located_models(old(out)@) + located_models(src@).subrange(
                from as int,
                i as int,
            ),
        decreases src@.len() - i,
    {
        let c = src[i].clone_located();
        let ghost prev = out@;
        out.push(c);
        assert(located_models(out@) =~= located_models(prev).push(c@));
        assert(located_models(src@).subrange(from as int, i + 1) =~= located_models(src@).subrange(
            from as int,
            i as int,
        ).push(src@[i as int]@));
        i = i + 1;
        assert(located_models(out@) =~= located_models(old(out)@) + located_models(src@).subrange(
            from as int,
            i as int,
        ));
    }
    assert(located_models(src@).subrange(from as int, src@.len() as int) =~= located_models(
        src@,
    ).skip(from as int));
}

/// Whether some item of `acc` has the same content as `v`.
fn has_same(acc: &Vec<LocatedValue>, v: &LocatedValue) -> (r: bool)
    ensures
        r == spec_has_same(located_models(acc@), v@),
{
    let mut j: usize = 0;
    while j < acc.len()
        invariant
            0 <= j <= acc@.len(),
            forall|k: int| 0 <= k < j ==> !spec_same_value(acc@[k]@.value, v@.value),
        decreases acc@.len() - j,
    {
        if acc[j].value().same_value(v.value()) {
            assert(located_models(acc@)[j as int] == acc@[j as int]@);
            return true;
        }
        j = j + 1;
    }
    assert forall|k: int| 0 <= k < located_models(acc@).len() implies !spec_same_value(
        #[trigger] located_models(acc@)[k].value,
        v@.value,
    ) by {
        assert(located_models(acc@)[k] == acc@[k]@);
    }
    false
}

/// The value a map item holds under `key`.
fn key_value<'a>(v: &'a LocatedValue, key: &str) -> (r: Option<&'a Value>)
    ensures
        match r {
            Some(x) => spec_key_of(v@, key@) == Some(spec_plain(x@)),
            None => spec_key_of(v@, key@) is None,
        },
{
    match v.value() {
        Value::Table(t) => match t.get(key) {
            Some(x) => Some(x.value()),
            None => None,
        },
        _ => None,
    }
}

/// `spec_first_match` is the first position whose value under `key` has content `k`.
pub proof fn lemma_first_match(acc: Seq<LocatedModel>, key: Seq<char>, k: crate::value::PlainValue)
    ensures
        -1 <= spec_first_match(acc, key, k) < acc.len(),
        spec_first_match(acc, key, k) >= 0 ==> spec_key_matches(acc[spec_first_match(acc, key, k)], key, k),
        forall|i: int|
            0 <= i < acc.len() && (spec_first_match(acc, key, k) == -1 || i < spec_first_match(
                acc,
                key,
                k,
            )) ==> !spec_key_matches(#[trigger] acc[i], key, k),
    decreases acc.len(),
{
    if acc.len() > 0 {
        let d = acc.drop_last();
        lemma_first_match(d, key, k);
        assert forall|i: int|
            0 <= i < acc.len() && (spec_first_match(acc, key, k) == -1 || i < spec_first_match(
                acc,
                key,
                k,
            )) implies !spec_key_matches(#[trigger] acc[i], key, k) by {
            if i < acc.len() - 1 {
                assert(acc[i] == d[i]);
            }
        }
    }
}

/// Position of the first item of `acc` whose value under `key` has the same content as `k`.
fn first_match(acc: &Vec<LocatedValue>, key: &str, k: &Value) -> (r: Option<usize>)
    ensures
        match r {
            Some(p) => spec_first_match(located_models(acc@), key@, spec_plain(k@)) == p,
            None => spec_first_match(located_models(acc@), key@, spec_plain(k@)) == -1,
        },
{
    let ghost m = located_models(acc@);
    proof {
        lemma_first_match(m, key@, spec_plain(k@));
    }
    let mut p: usize = 0;
    while p < acc.len()
        invariant
            m == located_models(acc@),
            0 <= p <= acc@.len(),
            forall|i: int| 0 <= i < p ==> !spec_key_matches(#[trigger] m[i], key@, spec_plain(k@)),
            -1 <= spec_first_match(m, key@, spec_plain(k@)) < m.len(),
            spec_first_match(m, key@, spec_plain(k@)) >= 0 ==> spec_key_matches(
                m[spec_first_match(m, key@, spec_plain(k@))],
                key@,
                spec_plain(k@),
            ),
            forall|i: int|
                0 <= i < m.len() && (spec_first_match(m, key@, spec_plain(k@)) == -1 || i
                    < spec_first_match(m, key@, spec_plain(k@))) ==> !spec_key_matches(
                    #[trigger] m[i],
                    key@,
                    spec_plain(k@),
                ),
        decreases acc@.len() - p,
    {
        assert(m[p as int] == acc@[p as int]@);
        match key_value(&acc[p], key) {
            Some(x) => {
                if x.same_value(k) {
                    return Some(p);
                }
            },
            None => {},
        }
        p = p + 1;
    }
    None
}

/// Deep merge of `overlay` onto `base` (see [`spec_deep_merge`]).
pub fn deep_merge_value(base: &LocatedValue, overlay: &LocatedValue, s: &ArrayStrategy) -> (r: LocatedValue)
    ensures
        r@ == spec_deep_merge(base@, overlay@, s@),
    decreases overlay@, 0int,
{
    match base.value() {
        Value::Table(bt) => match overlay.value() {
            Value::Table(ot) => {
                proof {
                    assert(decreases_to!(overlay@ => overlay@.value));
                    assert(decreases_to!(overlay@.value => overlay@.value->Table_0));
                }
                let merged = merge_tables(bt, ot, s);
                LocatedValue::new(Value::Table(merged), overlay.location().clone())
            },
            _ => overlay.clone_located(),
        },
        Value::List(bl) => match overlay.value() {
            Value::List(ol) => {
                proof {
                    lemma_list_model(*bl);
                    lemma_list_model(*ol);
                    assert(decreases_to!(overlay@ => overlay@.value));
                    assert(decreases_to!(overlay@.value => overlay@.value->List_0));
                }
                match s {
                    ArrayStrategy::Replace => overlay.clone_located(),
                    _ => {
                        let items = merge_lists(bl, ol, s);
                        LocatedValue::new(Value::from_list(items), overlay.location().clone())
                    },
                }
            },
            _ => overlay.clone_located(),
        },
        _ => overlay.clone_located(),
    }
}

/// Key-by-key merge of two maps (see [`spec_merge_tables`]).
fn merge_tables(b: &Table, o: &Table, s: &ArrayStrategy) -> (r: Table)
    ensures
        r@ == spec_merge_tables(b@, o@, s@),
    decreases o@, b@.len() + 2,
{
    let be = b.entries();
    let oe = o.entries();
    let mut result = Table::new();
    let mut i: usize = 0;
    while i < be.len()
        invariant
            be@.len() == b@.len(),
            forall|k: int| 0 <= k < be@.len() ==> (#[trigger] be@[k]).0@ == b@[k].0 && be@[k].1@ == b@[k].1,
            0 <= i <= be@.len(),
            result@ == spec_merge_base(b@, o@, s@, i as int),
        decreases be@.len() - i,
    {
        let key = &be[i].0;
        let bv = &be[i].1;
        assert(be@[i as int].0@ == b@[i as int].0);
        match o.get(key.as_str()) {
            Some(ov) => {
                proof {
                    lemma_index_of(o@, key@);
                    let idx = spec_index_of(o@, key@);
                    assert(o@[idx].1 == ov@);
                    assert(decreases_to!(o@ => o@[idx]));
                    assert(decreases_to!(o@[idx] => o@[idx].1));
                }
                if !ov.value().is_null() {
                    let m = deep_merge_value(bv, ov, s);
                    result.insert(key.clone(), m);
                }
            },
            None => {
                result.insert(key.clone(), bv.clone_located());
            },
        }
        i = i + 1;
    }
    let ghost base_part = result@;
    assert(base_part == spec_merge_base(b@, o@, s@, b@.len() as int));
    let mut j: usize = 0;
    while j < oe.len()
        invariant
            oe@.len() == o@.len(),
            forall|k: int| 0 <= k < oe@.len() ==> (#[trigger] oe@[k]).0@ == o@[k].0 && oe@[k].1@ == o@[k].1,
            0 <= j <= oe@.len(),
            result@ == spec_add_rest(base_part, o@, j as int),
        decreases oe@.len() - j,
    {
        let key = &oe[j].0;
        let ov = &oe[j].1;
        assert(oe@[j as int].0@ == o@[j as int].0);
        if !result.contains_key(key.as_str()) && !ov.value().is_null() {
            result.insert(key.clone(), ov.clone_located());
        }
        j = j + 1;
    }
    result
}

/// Merge of two lists by the strategy (see [`spec_merge_lists`]): what a deep merge does where
/// a base list meets an overlay list.
pub fn merge_lists(b: &Vec<LocatedValue>, o: &Vec<LocatedValue>, s: &ArrayStrategy) -> (r: Vec<LocatedValue>)
    ensures
        located_models(r@) == spec_merge_lists(located_models(b@), located_models(o@), s@),
    decreases located_models(o@), o@.len() + 2,
{
    let ghost bm = located_models(b@);
    let ghost om = located_models(o@);
    match s {
        ArrayStrategy::Replace => {
            let mut out: Vec<LocatedValue> = Vec::new();
            push_copies(&mut out, o);
            assert(located_models(out@) =~= om);
            out
        },
        ArrayStrategy::Concat => {
            let mut out: Vec<LocatedValue> = Vec::new();
            push_copies(&mut out, b);
            push_copies(&mut out, o);
            assert(located_models(out@) =~= bm + om);
            out
        },
        ArrayStrategy::Prepend => {
            let mut out: Vec<LocatedValue> = Vec::new();
            push_copies(&mut out, o);
            push_copies(&mut out, b);
            assert(located_models(out@) =~= om + bm);
            out
        },
        ArrayStrategy::Union => {
            let mut all: Vec<LocatedValue> = Vec::new();
            push_copies(&mut all, b);
            push_copies(&mut all, o);
            let ghost items = located_models(all@);
            assert(items =~= bm + om);
            let mut out: Vec<LocatedValue> = Vec::new();
            let mut n: usize = 0;
            assert(located_models(out@) =~= spec_union(items, 0));
            while n < all.len()
                invariant
                    items == located_models(all@),
                    0 <= n <= all@.len(),
                    located_models(out@) == spec_union(items, n as int),
                decreases all@.len() - n,
            {
                assert(items[n as int] == all@[n as int]@);
                if !has_same(&out, &all[n]) {
                    let c = all[n].clone_located();
                    out.push(c);
                    assert(located_models(out@) =~= spec_union(items, n + 1));
                } else {
                    assert(located_models(out@) =~= spec_union(items, n + 1));
                }
                n = n + 1;
            }
            out
        },
        ArrayStrategy::Index => {
            let m = if b.len() < o.len() { b.len() } else { o.len() };
            let mut out: Vec<LocatedValue> = Vec::new();
            let mut i: usize = 0;
            assert(located_models(out@) =~= spec_zip(bm, om, s@, 0));
            while i < m
                invariant
                    bm == located_models(b@),
                    om == located_models(o@),
                    m <= b@.len(),
                    m <= o@.len(),
                    0 <= i <= m,
                    located_models(out@) == spec_zip(bm, om, s@, i as int),
                decreases m - i,
            {
                proof {
                    assert(om[i as int] == o@[i as int]@);
                    assert(bm[i as int] == b@[i as int]@);
                    assert(decreases_to!(om => om[i as int]));
                }
                let merged = deep_merge_value(&b[i], &o[i], s);
                out.push(merged);
                i = i + 1;
                assert(located_models(out@) =~= spec_zip(bm, om, s@, i as int));
            }
            push_copies_from(&mut out, b, m);
            push_copies_from(&mut out, o, m);
            out
        },
        ArrayStrategy::Keyed(key) => {
            let mut acc: Vec<LocatedValue> = Vec::new();
            push_copies(&mut acc, b);
            assert(located_models(acc@) =~= bm);
            let mut j: usize = 0;
            while j < o.len()
                invariant
                    bm == located_models(b@),
                    om == located_models(o@),
                    s@ == StrategyModel::Keyed(key@),
                    0 <= j <= o@.len(),
                    acc@.len() >= b@.len(),
                    located_models(acc@) == spec_keyed(bm, om, key@, s@, j as int),
                decreases o@.len() - j,
            {
                let over = &o[j];
                assert(om[j as int] == over@);
                let ghost before = located_models(acc@);
                match key_value(over, key.as_str()) {
                    Some(kv) => {
                        match first_match(b, key.as_str(), kv) {
                            Some(p) => {
                                proof {
                                    lemma_first_match(bm, key@, spec_plain(kv@));
                                    assert(decreases_to!(om => om[j as int]));
                                    assert(before[p as int] == acc@[p as int]@);
                                }
                                let merged = deep_merge_value(&acc[p], over, s);
                                acc.set(p, merged);
                                assert(located_models(acc@) =~= before.update(p as int, merged@));
                            },
                            None => {
                                acc.push(over.clone_located());
                                assert(located_models(acc@) =~= before.push(over@));
                            },
                        }
                    },
                    None => {
                        acc.push(over.clone_located());
                        assert(located_models(acc@) =~= before.push(over@));
                    },
                }
                j = j + 1;
            }
            acc
        },
    }
}

/// Errors of a merge.
#[derive(Debug)]
pub enum Error {
    /// A wrapped error (such as an invalid source string in a merge plan), by its text.
    Other(String),
}

impl Error {
    /// The display text of this error: the wrapped error's text.
    pub fn to_display_string(&self) -> (r: String)
        ensures
            match self {
                Error::Other(m) => r@ == m@,
            },
    {
        match self {
            Error::Other(m) => m.clone(),
        }
    }
}

/// One merged entry: its name, the payloads that contributed to it and the merged value.
#[derive(Debug)]
pub struct MergedGroup {
    pub name: Option<String>,
    pub payloads: Vec<Payload>,
    pub value: LocatedValue,
}

/// Model of a [`MergedGroup`].
pub struct GroupModel {
    pub name: Option<Seq<char>>,
    pub payloads: Seq<PayloadModel>,
    pub value: LocatedModel,
}

/// The models of a sequence of payloads.
pub open spec fn payload_models(s: Seq<Payload>) -> Seq<PayloadModel> {
    Seq::new(s.len(), |i: int| s[i]@)
}

impl View for MergedGroup {
    type V = GroupModel;

    open spec fn view(&self) -> GroupModel {
        GroupModel {
            name: spec_opt_chars(self.name),
            payloads: payload_models(self.payloads@),
            value: self.value@,
        }
    }
}

/// The result of a merge: one group per entry name, in the order the names first appeared.
#[derive(Debug)]
pub struct Merged {
    groups: Vec<MergedGroup>,
}

/// The models of a sequence of groups.
pub open spec fn group_models(s: Seq<MergedGroup>) -> Seq<GroupModel> {
    Seq::new(s.len(), |i: int| s[i]@)
}

impl View for Merged {
    type V = Seq<GroupModel>;

    closed spec fn view(&self) -> Seq<GroupModel> {
        group_models(self.groups@)
    }
}

/// The models of parsed `(payload, value)` pairs.
pub open spec fn parsed_models(s: Seq<(Payload, LocatedValue)>) -> Seq<(PayloadModel, LocatedModel)> {
    Seq::new(s.len(), |i: int| (s[i].0@, s[i].1@))
}

/// Index of the group named `name`, or `-1`.
pub open spec fn spec_group_index(g: Seq<GroupModel>, name: Option<Seq<char>>) -> int
    decreases g.len(),
{
    if g.len() == 0 {
        -1
    } else if g.last().name == name {
        g.len() - 1
    } else {
        spec_group_index(g.drop_last(), name)
    }
}

/// The group named `name`, if any.
pub open spec fn spec_group(g: Seq<GroupModel>, name: Option<Seq<char>>) -> Option<GroupModel> {
    let i = spec_group_index(g, name);
    if 0 <= i < g.len() {
        Some(g[i])
    } else {
        None
    }
}

/// Last-wins grouping of parsed pairs: each name keeps only its last payload and value.
pub open spec fn spec_last_wins(l: Seq<(PayloadModel, LocatedModel)>) -> Seq<GroupModel>
    decreases l.len(),
{
    if l.len() == 0 {
        Seq::empty()
    } else {
        let prev = spec_last_wins(l.drop_last());
        let p = l.last().0;
        let g = GroupModel { name: p.name, payloads: seq![p], value: l.last().1 };
        let i = spec_group_index(prev, p.name);
        if 0 <= i < prev.len() {
            prev.update(i, g)
        } else {
            prev.push(g)
        }
    }
}

/// Deep-merge grouping of parsed pairs: each name collects all its payloads, and its value is
/// the deep merge of its values in order.
pub open spec fn spec_deep_groups(l: Seq<(PayloadModel, LocatedModel)>, s: StrategyModel) -> Seq<GroupModel>
    decreases l.len(),
{
    if l.len() == 0 {
        Seq::empty()
    } else {
        let prev = spec_deep_groups(l.drop_last(), s);
        let p = l.last().0;
        let v = l.last().1;
        let i = spec_group_index(prev, p.name);
        if 0 <= i < prev.len() {
            prev.update(
                i,
                GroupModel {
                    name: p.name,
                    payloads: prev[i].payloads.push(p),
                    value: spec_deep_merge(prev[i].value, v, s),
                },
            )
        } else {
            prev.push(GroupModel { name: p.name, payloads: seq![p], value: v })
        }
    }
}

/// `spec_group_index` finds a group with the name, and no later group has it.
pub proof fn lemma_group_index(g: Seq<GroupModel>, name: Option<Seq<char>>)
    ensures
        -1 <= spec_group_index(g, name) < g.len(),
        spec_group_index(g, name) >= 0 ==> g[spec_group_index(g, name)].name == name,
        forall|j: int| spec_group_index(g, name) < j < g.len() ==> g[j].name != name,
    decreases g.len(),
{
    if g.len() > 0 && g.last().name != name {
        let d = g.drop_last();
        lemma_group_index(d, name);
        assert forall|j: int| spec_group_index(g, name) < j < g.len() implies g[j].name != name by {
            if j < g.len() - 1 {
                assert(g[j] == d[j]);
            }
        }
    }
}

/// Whether two optional names are equal.
fn same_name(a: &Option<String>, b: &Option<String>) -> (r: bool)
    ensures
        r == (spec_opt_chars(*a) == spec_opt_chars(*b)),
{
    match (a, b) {
        (Some(x), Some(y)) => str_equal(x.as_str(), y.as_str()),
        (None, None) => true,
        _ => false,
    }
}

/// Index of the group named `name`.
fn find_group(groups: &Vec<MergedGroup>, name: &Option<String>) -> (r: Option<usize>)
    ensures
        match r {
            Some(i) => spec_group_index(group_models(groups@), spec_opt_chars(*name)) == i && i
                < groups@.len(),
            None => spec_group_index(group_models(groups@), spec_opt_chars(*name)) == -1,
        },
{
    let ghost g = group_models(groups@);
    proof {
        lemma_group_index(g, spec_opt_chars(*name));
    }
    let mut i: usize = groups.len();
    assert(g.subrange(0, i as int) =~= g);
    while i > 0
        invariant
            g == group_models(groups@),
            0 <= i <= groups@.len(),
            spec_group_index(g, spec_opt_chars(*name)) == spec_group_index(
                g.subrange(0, i as int),
                spec_opt_chars(*name),
            ),
        decreases i,
    {
        let ghost sub = g.subrange(0, i as int);
        assert(sub.last() == groups@[i - 1]@);
        if same_name(&groups[i - 1].name, name) {
            return Some(i - 1);
        }
        assert(sub.drop_last() =~= g.subrange(0, i - 1));
        i = i - 1;
    }
    None
}

/// A copy of a vector of payloads.
fn clone_payloads(v: &Vec<Payload>) -> (r: Vec<Payload>)
    ensures
        payload_models(r@) == payload_models(v@),
{
    let mut out: Vec<Payload> = Vec::new();
    let mut i: usize = 0;
    while i < v.len()
        invariant
            0 <= i <= v@.len(),
            out@.len() == i,
            forall|k: int| 0 <= k < i ==> out@[k]@ == v@[k]@,
        decreases v@.len() - i,
    {
        out.push(v[i].clone());
        i = i + 1;
    }
    assert(payload_models(out@) =~= payload_models(v@));
    out
}

impl Merged {
    /// Number of groups.
    pub fn len(&self) -> (r: usize)
        ensures
            r == self@.len(),
    {
        self.groups.len()
    }

    /// `true` when there is no group.
    pub fn is_empty(&self) -> (r: bool)
        ensures
            r == (self@.len() == 0),
    {
        self.groups.len() == 0
    }

    /// The group named `name` (`None` is the unnamed entry).
    pub fn get(&self, name: &Option<String>) -> (r: Option<&MergedGroup>)
        ensures
            match r {
                Some(g) => spec_group(self@, spec_opt_chars(*name)) == Some(g@),
                None => spec_group(self@, spec_opt_chars(*name)) is None,
            },
    {
        match find_group(&self.groups, name) {
            Some(i) => Some(&self.groups[i]),
            None => None,
        }
    }

    /// The groups, in the order their names first appeared.
    pub fn groups(&self) -> (r: &[MergedGroup])
        ensures
            group_models(r@) == self@,
    {
        self.groups.as_slice()
    }

    /// The groups, by value.
    pub fn into_groups(self) -> (r: Vec<MergedGroup>)
        ensures
            group_models(r@) == self@,
    {
        self.groups
    }
}

/// Folds parsed `(payload, value)` pairs into merged groups.
///
/// Implement this to define another merge strategy.
pub trait Merge {
    /// Merge `parsed_list` into one group per entry name.
    fn merge(&self, parsed_list: &[(Payload, LocatedValue)]) -> Result<Merged, Error>;
}

/// Last-write-wins merger: each name keeps only its last payload and value.
#[derive(Debug)]
pub struct LastWins;

impl LastWins {
    /// Last-wins grouping of `parsed_list` (see [`spec_last_wins`]).
    pub fn merge_all(&self, parsed_list: &[(Payload, LocatedValue)]) -> (r: Merged)
        ensures
            r@ == spec_last_wins(parsed_models(parsed_list@)),
    {
        let ghost l = parsed_models(parsed_list@);
        let mut groups: Vec<MergedGroup> = Vec::new();
        let mut i: usize = 0;
        assert(group_models(groups@) =~= spec_last_wins(l.take(0)));
        while i < parsed_list.len()
            invariant
                l == parsed_models(parsed_list@),
                0 <= i <= parsed_list@.len(),
                group_models(groups@) == spec_last_wins(l.take(i as int)),
            decreases parsed_list@.len() - i,
        {
            let payload = &parsed_list[i].0;
            let value = &parsed_list[i].1;
            let ghost prev = group_models(groups@);
            assert(l.take(i + 1).drop_last() =~= l.take(i as int));
            assert(l.take(i + 1).last() == (payload@, value@));
            let group = MergedGroup {
                name: clone_opt_string(&payload.maybe_name),
                payloads: vec![payload.clone()],
                value: value.clone_located(),
            };
            assert(group@.payloads =~= seq![payload@]);
            match find_group(&groups, &payload.maybe_name) {
                Some(k) => {
                    groups.set(k, group);
                    assert(group_models(groups@) =~= prev.update(k as int, group@));
                },
                None => {
                    groups.push(group);
                    assert(group_models(groups@) =~= prev.push(group@));
                },
            }
            i = i + 1;
        }
        assert(l.take(parsed_list@.len() as int) =~= l);
        Merged { groups }
    }
}

impl Merge for LastWins {
    fn merge(&self, parsed_list: &[(Payload, LocatedValue)]) -> (r: Result<Merged, Error>)
        ensures
            r matches Ok(m) && m@ == spec_last_wins(parsed_models(parsed_list@)),
    {
        Ok(self.merge_all(parsed_list))
    }
}

/// Deep-merge merger: the values of each name are deep-merged in order, with the configured
/// [`ArrayStrategy`] for lists.
#[derive(Debug)]
pub struct DeepMerge {
    array_strategy: ArrayStrategy,
}

impl Default for DeepMerge {
    fn default() -> (r: DeepMerge)
        ensures
            r.strategy() == StrategyModel::Replace,
    {
        DeepMerge { array_strategy: ArrayStrategy::Replace }
    }
}

impl DeepMerge {
    /// The strategy this merger combines lists with.
    pub closed spec fn strategy(&self) -> StrategyModel {
        self.array_strategy@
    }

    /// A deep merger with the default `Replace` array strategy.
    pub fn new() -> (r: DeepMerge)
        ensures
            r.strategy() == StrategyModel::Replace,
    {
        DeepMerge { array_strategy: ArrayStrategy::Replace }
    }

    /// Set how lists at the same place are combined.
    pub fn with_array_strategy(self, array_strategy: ArrayStrategy) -> (r: DeepMerge)
        ensures
            r.strategy() == array_strategy@,
    {
        DeepMerge { array_strategy }
    }

    /// The configured array strategy.
    pub fn array_strategy(&self) -> (r: &ArrayStrategy)
        ensures
            r@ == self.strategy(),
    {
        &self.array_strategy
    }

    /// Deep-merge grouping of `parsed_list` (see [`spec_deep_groups`]).
    pub fn merge_all(&self, parsed_list: &[(Payload, LocatedValue)]) -> (r: Merged)
        ensures
            r@ == spec_deep_groups(parsed_models(parsed_list@), self.strategy()),
    {
        let ghost l = parsed_models(parsed_list@);
        let ghost s = self.strategy();
        let mut groups: Vec<MergedGroup> = Vec::new();
        let mut i: usize = 0;
        assert(group_models(groups@) =~= spec_deep_groups(l.take(0), s));
        while i < parsed_list.len()
            invariant
                l == parsed_models(parsed_list@),
                s == self.strategy(),
                s == self.array_strategy@,
                0 <= i <= parsed_list@.len(),
                group_models(groups@) == spec_deep_groups(l.take(i as int), s),
            decreases parsed_list@.len() - i,
        {
            let payload = &parsed_list[i].0;
            let value = &parsed_list[i].1;
            let ghost prev = group_models(groups@);
            assert(l.take(i + 1).drop_last() =~= l.take(i as int));
            assert(l.take(i + 1).last() == (payload@, value@));
            match find_group(&groups, &payload.maybe_name) {
                Some(k) => {
                    let mut payloads = clone_payloads(&groups[k].payloads);
                    payloads.push(payload.clone());
                    let merged = deep_merge_value(&groups[k].value, value, &self.array_strategy);
                    let group = MergedGroup {
                        name: clone_opt_string(&payload.maybe_name),
                        payloads,
                        value: merged,
                    };
                    assert(group@.payloads =~= prev[k as int].payloads.push(payload@));
                    groups.set(k, group);
                    assert(group_models(groups@) =~= prev.update(k as int, group@));
                },
                None => {
                    let group = MergedGroup {
                        name: clone_opt_string(&payload.maybe_name),
                        payloads: vec![payload.clone()],
                        value: value.clone_located(),
                    };
                    assert(group@.payloads =~= seq![payload@]);
                    groups.push(group);
                    assert(group_models(groups@) =~= prev.push(group@));
                },
            }
            i = i + 1;
        }
        assert(l.take(parsed_list@.len() as int) =~= l);
        Merged { groups }
    }
}

impl Merge for DeepMerge {
    fn merge(&self, parsed_list: &[(Payload, LocatedValue)]) -> (r: Result<Merged, Error>)
        ensures
            r matches Ok(m) && m@ == spec_deep_groups(parsed_models(parsed_list@), self.strategy()),
    {
        Ok(self.merge_all(parsed_list))
    }
}

} // verus!
