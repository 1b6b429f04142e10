//! Properties of merging that hold for every input.

use vstd::prelude::*;
use crate::load::PayloadModel;
use crate::value::{
    ValueModel, LocatedModel, TableModel, spec_table_get, spec_table_insert, spec_index_of,
    lemma_index_of, spec_keys_unique, spec_same_value,
};
use crate::merge::{
    StrategyModel, GroupModel, spec_deep_merge, spec_merge_tables, spec_merge_base, spec_add_rest,
    spec_merge_lists, spec_zip, spec_union, spec_keyed, spec_has_same, spec_last_wins, spec_deep_groups,
    spec_group, spec_group_index, lemma_group_index, spec_key_of, spec_first_match,
    lemma_first_match,
};

verus! {

// ----- tables -----

/// `spec_index_of` is the last position holding the key.
proof fn lemma_index_of_last(e: TableModel, key: Seq<char>, i: int)
    requires
        0 <= i < e.len(),
        e[i].0 == key,
        forall|j: int| i < j < e.len() ==> e[j].0 != key,
    ensures
        spec_index_of(e, key) == i,
    decreases e.len(),
{
    if i < e.len() - 1 {
        let d = e.drop_last();
        assert forall|j: int| i < j < d.len() implies d[j].0 != key by {
            assert(d[j] == e[j]);
        }
        lemma_index_of_last(d, key, i);
    }
}

/// Tables with the same keys in the same places find a key at the same position.
proof fn lemma_index_of_same_keys(e1: TableModel, e2: TableModel, key: Seq<char>)
    requires
        e1.len() == e2.len(),
        forall|j: int| 0 <= j < e1.len() ==> e1[j].0 == e2[j].0,
    ensures
        spec_index_of(e1, key) == spec_index_of(e2, key),
    decreases e1.len(),
{
    if e1.len() > 0 {
        let d1 = e1.drop_last();
        let d2 = e2.drop_last();
        assert forall|j: int| 0 <= j < d1.len() implies d1[j].0 == d2[j].0 by {
            assert(d1[j] == e1[j]);
            assert(d2[j] == e2[j]);
        }
        lemma_index_of_same_keys(d1, d2, key);
    }
}

/// A read of the key just inserted gives the inserted value.
pub proof fn lemma_get_insert_same(e: TableModel, key: Seq<char>, v: LocatedModel)
    ensures
        spec_table_get(spec_table_insert(e, key, v), key) == Some(v),
{
    lemma_index_of(e, key);
    let i = spec_index_of(e, key);
    let r = spec_table_insert(e, key, v);
    if i >= 0 {
        assert forall|j: int| i < j < r.len() implies r[j].0 != key by {
            assert(r[j] == e[j]);
        }
        lemma_index_of_last(r, key, i);
    } else {
        assert(r.last().0 == key);
    }
}

/// Inserting under another key leaves a read of `key` unchanged.
pub proof fn lemma_get_insert_other(e: TableModel, other: Seq<char>, v: LocatedModel, key: Seq<char>)
    requires
        other != key,
    ensures
        spec_table_get(spec_table_insert(e, other, v), key) == spec_table_get(e, key),
{
    lemma_index_of(e, other);
    lemma_index_of(e, key);
    let i = spec_index_of(e, other);
    let r = spec_table_insert(e, other, v);
    if i >= 0 {
        lemma_index_of_same_keys(r, e, key);
        let k = spec_index_of(e, key);
        if k >= 0 {
            assert(k != i);
            assert(r[k] == e[k]);
        }
    } else {
        assert(r.drop_last() =~= e);
    }
}

/// What a key reads after the base pass over the first `i` base entries.
proof fn lemma_merge_base_get(b: TableModel, o: TableModel, s: StrategyModel, i: int, key: Seq<char>)
    requires
        0 <= i <= b.len(),
    ensures
        ({
            let jb = spec_index_of(b.take(i), key);
            let oi = spec_index_of(o, key);
            let got = spec_table_get(spec_merge_base(b, o, s, i), key);
            if jb < 0 {
                got is None
            } else if oi >= 0 && o[oi].1.value is Null {
                got is None
            } else if oi >= 0 {
                got == Some(spec_deep_merge(b[jb].1, o[oi].1, s))
            } else {
                got == Some(b[jb].1)
            }
        }),
    decreases i,
{
    lemma_index_of(o, key);
    let t = b.take(i);
    if i == 0 {
        assert(t.len() == 0);
    } else {
        lemma_merge_base_get(b, o, s, i - 1, key);
        let prev = spec_merge_base(b, o, s, i - 1);
        let k2 = b[i - 1].0;
        assert(t.drop_last() =~= b.take(i - 1));
        assert(t.last() == b[i - 1]);
        lemma_index_of(t, key);
        let oi2 = spec_index_of(o, k2);
        if k2 == key {
            assert(spec_index_of(t, key) == i - 1);
            if oi2 >= 0 && !(o[oi2].1.value is Null) {
                lemma_get_insert_same(prev, key, spec_deep_merge(b[i - 1].1, o[oi2].1, s));
            } else if oi2 < 0 {
                lemma_get_insert_same(prev, key, b[i - 1].1);
            }
        } else {
            assert(spec_index_of(t, key) == spec_index_of(b.take(i - 1), key));
            let jb = spec_index_of(t, key);
            if jb >= 0 {
                assert(t[jb] == b[jb]);
                assert(b.take(i - 1)[jb] == b[jb]);
            }
            if oi2 >= 0 && !(o[oi2].1.value is Null) {
                lemma_get_insert_other(prev, k2, spec_deep_merge(b[i - 1].1, o[oi2].1, s), key);
            } else if oi2 < 0 {
                lemma_get_insert_other(prev, k2, b[i - 1].1, key);
            }
        }
    }
}

/// What a key reads after adding the first `j` remaining overlay entries.
proof fn lemma_add_rest_get(r: TableModel, o: TableModel, j: int, key: Seq<char>)
    requires
        0 <= j <= o.len(),
        spec_keys_unique(o),
    ensures
        ({
            let q = spec_index_of(o, key);
            let got = spec_table_get(spec_add_rest(r, o, j), key);
            if spec_table_get(r, key) is Some {
                got == spec_table_get(r, key)
            } else if 0 <= q < j && !(o[q].1.value is Null) {
                got == Some(o[q].1)
            } else {
                got is None
            }
        }),
    decreases j,
{
    lemma_index_of(o, key);
    if j > 0 {
        lemma_add_rest_get(r, o, j - 1, key);
        let prev = spec_add_rest(r, o, j - 1);
        let k2 = o[j - 1].0;
        if k2 == key {
            crate::value::lemma_index_of_unique(o, key, j - 1);
            if spec_table_get(prev, k2) is None && !(o[j - 1].1.value is Null) {
                lemma_get_insert_same(prev, key, o[j - 1].1);
            }
        } else {
            if spec_table_get(prev, k2) is None && !(o[j - 1].1.value is Null) {
                lemma_get_insert_other(prev, k2, o[j - 1].1, key);
            }
        }
    }
}

/// What a key reads after a deep merge of two maps: a key the overlay maps to null is gone; a
/// key in both maps holds the deep merge of the two values; a key in one map holds that map's
/// value; a key in neither is absent.
pub proof fn law_deep_merge_table_get(b: TableModel, o: TableModel, s: StrategyModel, key: Seq<char>)
    requires
        spec_keys_unique(o),
    ensures
        spec_table_get(spec_merge_tables(b, o, s), key) == match spec_table_get(o, key) {
            Some(ov) => if ov.value is Null {
                None
            } else {
                match spec_table_get(b, key) {
                    Some(bv) => Some(spec_deep_merge(bv, ov, s)),
                    None => Some(ov),
                }
            },
            None => spec_table_get(b, key),
        },
{
    assert(b.take(b.len() as int) =~= b);
    lemma_merge_base_get(b, o, s, b.len() as int, key);
    lemma_add_rest_get(spec_merge_base(b, o, s, b.len() as int), o, o.len() as int, key);
    lemma_index_of(o, key);
    lemma_index_of(b, key);
}

// ----- values -----

/// An overlay replaces the base wholesale unless both are maps or both are lists.
pub proof fn law_overlay_wins(base: LocatedModel, overlay: LocatedModel, s: StrategyModel)
    requires
        !(base.value is Table && overlay.value is Table),
        !(base.value is List && overlay.value is List),
    ensures
        spec_deep_merge(base, overlay, s) == overlay,
{
}

/// Under the `Replace` strategy an overlay list replaces a base list.
pub proof fn law_replace_lists(base: LocatedModel, overlay: LocatedModel)
    requires
        base.value is List,
        overlay.value is List,
    ensures
        spec_deep_merge(base, overlay, StrategyModel::Replace) == overlay,
{
}

/// Two maps merge into a map at the overlay's location.
pub proof fn law_tables_merge_into_table(base: LocatedModel, overlay: LocatedModel, s: StrategyModel)
    requires
        base.value is Table,
        overlay.value is Table,
    ensures
        spec_deep_merge(base, overlay, s).value == ValueModel::Table(
            spec_merge_tables(base.value->Table_0, overlay.value->Table_0, s),
        ),
        spec_deep_merge(base, overlay, s).location == overlay.location,
{
}

/// Zipping pairs up to the shorter length.
proof fn lemma_zip_len(b: Seq<LocatedModel>, o: Seq<LocatedModel>, s: StrategyModel, i: int)
    requires
        0 <= i <= b.len(),
        i <= o.len(),
    ensures
        spec_zip(b, o, s, i).len() == i,
    decreases i,
{
    if i > 0 {
        lemma_zip_len(b, o, s, i - 1);
    }
}

/// The zip of the first `i` pairs holds at each position the deep merge of that pair.
proof fn lemma_zip_index(b: Seq<LocatedModel>, o: Seq<LocatedModel>, s: StrategyModel, i: int)
    requires
        0 <= i <= b.len(),
        i <= o.len(),
    ensures
        forall|k: int| 0 <= k < i ==> #[trigger] spec_zip(b, o, s, i)[k] == spec_deep_merge(b[k], o[k], s),
    decreases i,
{
    if i > 0 {
        lemma_zip_index(b, o, s, i - 1);
        lemma_zip_len(b, o, s, i - 1);
    }
}

/// Index merging gives as many items as the longer list: at each position both lists have, the
/// deep merge of the two items; past the shorter list, the longer list's own items.
pub proof fn law_index_len(b: Seq<LocatedModel>, o: Seq<LocatedModel>, s: StrategyModel)
    requires
        s is Index,
    ensures
        spec_merge_lists(b, o, s).len() == if b.len() < o.len() { o.len() } else { b.len() },
        forall|k: int|
            0 <= k < b.len() && k < o.len() ==> #[trigger] spec_merge_lists(b, o, s)[k]
                == spec_deep_merge(b[k], o[k], s),
        forall|k: int|
            o.len() <= k < b.len() ==> #[trigger] spec_merge_lists(b, o, s)[k] == b[k],
        forall|k: int|
            b.len() <= k < o.len() ==> #[trigger] spec_merge_lists(b, o, s)[k] == o[k],
{
    let m = if b.len() < o.len() { b.len() } else { o.len() };
    lemma_zip_len(b, o, s, m as int);
    lemma_zip_index(b, o, s, m as int);
    let r = spec_merge_lists(b, o, s);
    assert forall|k: int| 0 <= k < b.len() && k < o.len() implies #[trigger] r[k] == spec_deep_merge(b[k], o[k], s) by {
        assert(r[k] == spec_zip(b, o, s, m as int)[k]);
    }
    assert forall|k: int| o.len() <= k < b.len() implies #[trigger] r[k] == b[k] by {
        assert(o.skip(m as int).len() == 0);
        assert(r[k] == b.skip(m as int)[k - m]);
    }
    assert forall|k: int| b.len() <= k < o.len() implies #[trigger] r[k] == o[k] by {
        assert(b.skip(m as int).len() == 0);
        assert(r[k] == o.skip(m as int)[k - m]);
    }
}

/// Concatenating keeps both lists whole, base first; prepending puts the overlay first.
pub proof fn law_concat_prepend(b: Seq<LocatedModel>, o: Seq<LocatedModel>)
    ensures
        spec_merge_lists(b, o, StrategyModel::Concat) == b + o,
        spec_merge_lists(b, o, StrategyModel::Prepend) == o + b,
{
}

/// The union of the first `n` items holds no two items of the same content, and every one of
/// those items is in it or has an item of the same content in it.
proof fn lemma_union(items: Seq<LocatedModel>, n: int)
    requires
        0 <= n <= items.len(),
    ensures
        forall|i: int, j: int|
            0 <= i < j < spec_union(items, n).len() ==> !spec_same_value(
                #[trigger] spec_union(items, n)[i].value,
                #[trigger] spec_union(items, n)[j].value,
            ),
        forall|m: int|
            0 <= m < n ==> spec_union(items, n).contains(#[trigger] items[m]) || spec_has_same(
                spec_union(items, n),
                items[m],
            ),
    decreases n,
{
    if n > 0 {
        lemma_union(items, n - 1);
        let acc = spec_union(items, n - 1);
        let r = spec_union(items, n);
        if !spec_has_same(acc, items[n - 1]) {
            assert forall|i: int, j: int| 0 <= i < j < r.len() implies !spec_same_value(
                #[trigger] r[i].value,
                #[trigger] r[j].value,
            ) by {
                if j == r.len() - 1 {
                    assert(r[i] == acc[i]);
                    if spec_same_value(r[i].value, r[j].value) {
                        assert(spec_same_value(acc[i].value, items[n - 1].value));
                    }
                } else {
                    assert(r[i] == acc[i]);
                    assert(r[j] == acc[j]);
                }
            }
            assert forall|m: int| 0 <= m < n implies r.contains(#[trigger] items[m]) || spec_has_same(
                r,
                items[m],
            ) by {
                if m == n - 1 {
                    assert(r[r.len() - 1] == items[m]);
                } else if acc.contains(items[m]) {
                    let w = choose|w: int| 0 <= w < acc.len() && acc[w] == items[m];
                    assert(r[w] == acc[w]);
                } else {
                    assert(spec_has_same(acc, items[m]));
                    let w = choose|w: int| 0 <= w < acc.len() && spec_same_value(
                        #[trigger] acc[w].value,
                        items[m].value,
                    );
                    assert(r[w] == acc[w]);
                }
            }
        }
    }
}

/// A union of lists holds no two items of the same content, and every item of either list is in
/// it or has an item of the same content in it (an item equal to nothing, such as a `NaN` float,
/// is kept itself).
pub proof fn law_union(b: Seq<LocatedModel>, o: Seq<LocatedModel>)
    ensures
        forall|i: int, j: int|
            0 <= i < j < spec_merge_lists(b, o, StrategyModel::Union).len() ==> !spec_same_value(
                #[trigger] spec_merge_lists(b, o, StrategyModel::Union)[i].value,
                #[trigger] spec_merge_lists(b, o, StrategyModel::Union)[j].value,
            ),
        forall|m: int|
            0 <= m < (b + o).len() ==> spec_merge_lists(b, o, StrategyModel::Union).contains(
                #[trigger] (b + o)[m],
            ) || spec_has_same(spec_merge_lists(b, o, StrategyModel::Union), (b + o)[m]),
{
    lemma_union(b + o, (b + o).len() as int);
}

// ----- groups -----

/// The position of the last pair whose payload is named `name`, or `-1`.
pub open spec fn spec_last_named(l: Seq<(PayloadModel, LocatedModel)>, name: Option<Seq<char>>) -> int
    decreases l.len(),
{
    if l.len() == 0 {
        -1
    } else if l.last().0.name == name {
        l.len() - 1
    } else {
        spec_last_named(l.drop_last(), name)
    }
}

proof fn lemma_last_named_range(l: Seq<(PayloadModel, LocatedModel)>, name: Option<Seq<char>>)
    ensures
        -1 <= spec_last_named(l, name) < l.len(),
    decreases l.len(),
{
    if l.len() > 0 {
        lemma_last_named_range(l.drop_last(), name);
    }
}

/// The pairs whose payload is named `name`, in order.
pub open spec fn spec_named(l: Seq<(PayloadModel, LocatedModel)>, name: Option<Seq<char>>) -> Seq<(PayloadModel, LocatedModel)>
    decreases l.len(),
{
    if l.len() == 0 {
        Seq::empty()
    } else if l.last().0.name == name {
        spec_named(l.drop_last(), name).push(l.last())
    } else {
        spec_named(l.drop_last(), name)
    }
}

/// The deep merge of the values of `l`, first to last (the value of a single pair is itself).
pub open spec fn spec_fold(l: Seq<(PayloadModel, LocatedModel)>, s: StrategyModel) -> LocatedModel
    decreases l.len(),
{
    if l.len() <= 1 {
        l[0].1
    } else {
        spec_deep_merge(spec_fold(l.drop_last(), s), l.last().1, s)
    }
}

/// No two groups share a name.
pub open spec fn spec_names_unique(g: Seq<GroupModel>) -> bool {
    forall|i: int, j: int| 0 <= i < j < g.len() ==> g[i].name != g[j].name
}

/// Groups with the same names in the same places find a name at the same position.
proof fn lemma_group_index_same_names(g1: Seq<GroupModel>, g2: Seq<GroupModel>, name: Option<Seq<char>>)
    requires
        g1.len() == g2.len(),
        forall|j: int| 0 <= j < g1.len() ==> g1[j].name == g2[j].name,
    ensures
        spec_group_index(g1, name) == spec_group_index(g2, name),
    decreases g1.len(),
{
    if g1.len() > 0 {
        let d1 = g1.drop_last();
        let d2 = g2.drop_last();
        assert forall|j: int| 0 <= j < d1.len() implies d1[j].name == d2[j].name by {
            assert(d1[j] == g1[j]);
            assert(d2[j] == g2[j]);
        }
        lemma_group_index_same_names(d1, d2, name);
    }
}

/// Replacing or appending the group of one name: a read of that name gives the new group, a read
/// of another name is unchanged.
proof fn lemma_group_step(prev: Seq<GroupModel>, g: GroupModel, name: Option<Seq<char>>)
    ensures
        ({
            let i = spec_group_index(prev, g.name);
            let next = if 0 <= i < prev.len() {
                prev.update(i, g)
            } else {
                prev.push(g)
            };
            &&& name == g.name ==> spec_group(next, name) == Some(g)
            &&& name != g.name ==> spec_group(next, name) == spec_group(prev, name)
            &&& spec_names_unique(prev) ==> spec_names_unique(next)
        }),
{
    lemma_group_index(prev, g.name);
    lemma_group_index(prev, name);
    let i = spec_group_index(prev, g.name);
    if 0 <= i < prev.len() {
        let next = prev.update(i, g);
        lemma_group_index_same_names(next, prev, name);
        let k = spec_group_index(prev, name);
        if name == g.name {
            assert(k == i);
        } else if 0 <= k {
            assert(next[k] == prev[k]);
        }
    } else {
        let next = prev.push(g);
        assert(next.drop_last() =~= prev);
        if spec_names_unique(prev) {
            assert forall|a: int, c: int| 0 <= a < c < next.len() implies next[a].name
                != next[c].name by {
                if c == next.len() - 1 {
                    assert(next[a] == prev[a]);
                } else {
                    assert(next[a] == prev[a]);
                    assert(next[c] == prev[c]);
                }
            }
        }
    }
}

/// Last-wins merging gives one group per name; the group of a name holds the last payload with
/// that name and its value, and a name no payload has gets no group.
pub proof fn law_last_wins(l: Seq<(PayloadModel, LocatedModel)>, name: Option<Seq<char>>)
    ensures
        spec_names_unique(spec_last_wins(l)),
        spec_last_named(l, name) < 0 ==> spec_group(spec_last_wins(l), name) is None,
        spec_last_named(l, name) >= 0 ==> spec_group(spec_last_wins(l), name) == Some(
            GroupModel {
                name,
                payloads: seq![l[spec_last_named(l, name)].0],
                value: l[spec_last_named(l, name)].1,
            },
        ),
    decreases l.len(),
{
    if l.len() > 0 {
        let d = l.drop_last();
        law_last_wins(d, name);
        let p = l.last().0;
        let g = GroupModel { name: p.name, payloads: seq![p], value: l.last().1 };
        lemma_group_step(spec_last_wins(d), g, name);
        if p.name != name {
            lemma_last_named_range(d, name);
            let k = spec_last_named(d, name);
            if k >= 0 {
                assert(l[k] == d[k]);
            }
        }
    }
}

/// The payloads of a sequence of pairs.
pub open spec fn spec_payloads_of(l: Seq<(PayloadModel, LocatedModel)>) -> Seq<PayloadModel> {
    Seq::new(l.len(), |i: int| l[i].0)
}

/// Deep-merge merging gives one group per name; the group of a name holds every payload with
/// that name, in order, and the deep merge of their values, first to last; a name no payload has
/// gets no group.
pub proof fn law_deep_groups(l: Seq<(PayloadModel, LocatedModel)>, s: StrategyModel, name: Option<Seq<char>>)
    ensures
        spec_names_unique(spec_deep_groups(l, s)),
        spec_named(l, name).len() == 0 ==> spec_group(spec_deep_groups(l, s), name) is None,
        spec_named(l, name).len() > 0 ==> spec_group(spec_deep_groups(l, s), name) == Some(
            GroupModel {
                name,
                payloads: spec_payloads_of(spec_named(l, name)),
                value: spec_fold(spec_named(l, name), s),
            },
        ),
    decreases l.len(),
{
    if l.len() > 0 {
        let d = l.drop_last();
        law_deep_groups(d, s, name);
        let prev = spec_deep_groups(d, s);
        let p = l.last().0;
        let v = l.last().1;
        lemma_group_index(prev, p.name);
        let i = spec_group_index(prev, p.name);
        law_deep_groups(d, s, p.name);
        let g = if 0 <= i < prev.len() {
            GroupModel {
                name: p.name,
                payloads: prev[i].payloads.push(p),
                value: spec_deep_merge(prev[i].value, v, s),
            }
        } else {
            GroupModel { name: p.name, payloads: seq![p], value: v }
        };
        lemma_group_step(prev, g, name);
        if p.name == name {
            let nd = spec_named(d, name);
            let n = spec_named(l, name);
            assert(n == nd.push(l.last()));
            assert(n.drop_last() =~= nd);
            if 0 <= i < prev.len() {
                assert(spec_group(prev, name) == Some(prev[i]));
                assert(spec_payloads_of(n) =~= spec_payloads_of(nd).push(p));
            } else {
                assert(nd.len() == 0);
                assert(spec_payloads_of(n) =~= seq![p]);
            }
        }
    }
}

// ----- keyed lists -----

/// `y` is `x` after deep-merging into it, in order, some of the first `j` overlay items.
pub open spec fn spec_merged_from(x: LocatedModel, y: LocatedModel, o: Seq<LocatedModel>, s: StrategyModel, j: int) -> bool
    decreases j,
{
    if j <= 0 {
        y == x
    } else {
        spec_merged_from(x, y, o, s, j - 1) || exists|z: LocatedModel|
            spec_merged_from(x, z, o, s, j - 1) && y == #[trigger] spec_deep_merge(z, o[j - 1], s)
    }
}

/// The keyed fold after `j` overlay items keeps every base item at its position.
proof fn lemma_keyed_base(b: Seq<LocatedModel>, o: Seq<LocatedModel>, key: Seq<char>, s: StrategyModel, j: int)
    requires
        0 <= j <= o.len(),
    ensures
        spec_keyed(b, o, key, s, j).len() >= b.len(),
        forall|i: int| 0 <= i < b.len() ==> spec_merged_from(b[i], #[trigger] spec_keyed(b, o, key, s, j)[i], o, s, j),
    decreases j,
{
    if j > 0 {
        lemma_keyed_base(b, o, key, s, j - 1);
        let acc = spec_keyed(b, o, key, s, j - 1);
        let r = spec_keyed(b, o, key, s, j);
        assert forall|i: int| 0 <= i < b.len() implies spec_merged_from(b[i], #[trigger] r[i], o, s, j) by {
            assert(spec_merged_from(b[i], acc[i], o, s, j - 1));
            if r[i] != acc[i] {
                assert(r[i] == spec_deep_merge(acc[i], o[j - 1], s));
            }
        }
    }
}

/// Keyed merging keeps the base list's order: the result is at least as long as the base, and
/// the item at each base position is that base item after deep-merging into it, in order, some of
/// the overlay items.
pub proof fn law_keyed_keeps_base_order(b: Seq<LocatedModel>, o: Seq<LocatedModel>, key: Seq<char>, s: StrategyModel)
    ensures
        spec_merge_lists(b, o, StrategyModel::Keyed(key)).len() >= b.len(),
        forall|i: int|
            0 <= i < b.len() ==> spec_merged_from(
                b[i],
                #[trigger] spec_merge_lists(b, o, StrategyModel::Keyed(key))[i],
                o,
                StrategyModel::Keyed(key),
                o.len() as int,
            ),
{
    lemma_keyed_base(b, o, key, StrategyModel::Keyed(key), o.len() as int);
}

/// The base position an overlay item merges into under keyed merging: the first base item whose
/// value under `key` has the same content as the overlay item's, or `-1` when there is none or
/// the overlay item lacks the key.
pub open spec fn spec_target(b: Seq<LocatedModel>, over: LocatedModel, key: Seq<char>) -> int {
    match spec_key_of(over, key) {
        Some(k) => spec_first_match(b, key, k),
        None => -1,
    }
}

/// The base item at `i` after deep-merging into it, in order, the overlay items among the first
/// `j` whose target is `i`.
pub open spec fn spec_fold_into(b: Seq<LocatedModel>, o: Seq<LocatedModel>, key: Seq<char>, s: StrategyModel, i: int, j: int) -> LocatedModel
    decreases j,
{
    if j <= 0 || j > o.len() {
        b[i]
    } else {
        let acc = spec_fold_into(b, o, key, s, i, j - 1);
        if spec_target(b, o[j - 1], key) == i {
            spec_deep_merge(acc, o[j - 1], s)
        } else {
            acc
        }
    }
}

/// The overlay items among the first `j` that have no target, in order.
pub open spec fn spec_unmatched(b: Seq<LocatedModel>, o: Seq<LocatedModel>, key: Seq<char>, j: int) -> Seq<LocatedModel>
    decreases j,
{
    if j <= 0 || j > o.len() {
        Seq::empty()
    } else {
        let u = spec_unmatched(b, o, key, j - 1);
        if spec_target(b, o[j - 1], key) >= 0 {
            u
        } else {
            u.push(o[j - 1])
        }
    }
}

/// The keyed fold after `j` overlay items: the base items, each with its own overlay items merged
/// in, then the unmatched overlay items.
proof fn lemma_keyed_exact(b: Seq<LocatedModel>, o: Seq<LocatedModel>, key: Seq<char>, s: StrategyModel, j: int)
    requires
        0 <= j <= o.len(),
    ensures
        spec_keyed(b, o, key, s, j) == Seq::new(b.len(), |i: int| spec_fold_into(b, o, key, s, i, j))
            + spec_unmatched(b, o, key, j),
    decreases j,
{
    let f = Seq::new(b.len(), |i: int| spec_fold_into(b, o, key, s, i, j));
    if j == 0 {
        assert(spec_keyed(b, o, key, s, j) =~= f + spec_unmatched(b, o, key, j));
    } else {
        lemma_keyed_exact(b, o, key, s, j - 1);
        let f0 = Seq::new(b.len(), |i: int| spec_fold_into(b, o, key, s, i, j - 1));
        let acc = spec_keyed(b, o, key, s, j - 1);
        let over = o[j - 1];
        let t = spec_target(b, over, key);
        match spec_key_of(over, key) {
            Some(k) => lemma_first_match(b, key, k),
            None => {},
        }
        if t >= 0 {
            assert(acc[t] == f0[t]);
            assert(spec_keyed(b, o, key, s, j) =~= f + spec_unmatched(b, o, key, j));
        } else {
            assert(spec_keyed(b, o, key, s, j) =~= f + spec_unmatched(b, o, key, j));
        }
    }
}

/// Keyed merging is the base list, each base item with the overlay items whose key matches it
/// (and no earlier base item) deep-merged into it in overlay order, followed by the overlay items
/// that match no base item or lack the key, in order.
pub proof fn law_keyed_exact(b: Seq<LocatedModel>, o: Seq<LocatedModel>, key: Seq<char>)
    ensures
        spec_merge_lists(b, o, StrategyModel::Keyed(key)) == Seq::new(
            b.len(),
            |i: int| spec_fold_into(b, o, key, StrategyModel::Keyed(key), i, o.len() as int),
        ) + spec_unmatched(b, o, key, o.len() as int),
{
    lemma_keyed_exact(b, o, key, StrategyModel::Keyed(key), o.len() as int);
}

} // verus!

