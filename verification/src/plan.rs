//! A composable merge tree.
//!
//! A [`MergePlan`] is a source leaf (the payloads parsed from one configured [`Source`]), a value
//! leaf (a pre-built value that skips loading and parsing), or a merge of child plans under a
//! [`Merger`]. This expresses folds such as `last_wins(deep(A, B), C)`: deep-merge `A` and `B`,
//! then let `C` win. [`evaluate`] runs a tree against the parsed pairs grouped by configured
//! source.

use vstd::prelude::*;
use crate::source::{Source, SourceModel};
use crate::source_parse::{parse, spec_parse_result, spec_error_display, ParseErrorModel};
use crate::load::{Payload, PayloadModel, spec_opt_chars};
use crate::value::{LocatedValue, LocatedModel};
use crate::merge::{
    Merge, Merged, MergedGroup, Error, LastWins, DeepMerge, GroupModel, spec_last_wins,
    spec_deep_groups, parsed_models, group_models, payload_models,
};

verus! {

/// A configured source paired with the parsed `(payload, value)` pairs attributed to it.
pub type SourceGroup = (Source, Vec<(Payload, LocatedValue)>);

/// A pre-built value leaf: the carrier payload (which supplies the entry name) and the value.
pub struct ValueLeaf {
    pub payload: Payload,
    pub value: LocatedValue,
}

/// The strategy of a merge node: one of the built-in mergers, or one of the caller's own.
pub enum Merger {
    /// [`LastWins`].
    LastWins(LastWins),
    /// [`DeepMerge`] with its array strategy.
    Deep(DeepMerge),
    /// A merger of the caller's own.
    Custom(Box<dyn Merge>),
}

/// A node in a merge tree.
pub enum MergePlan {
    /// Leaf: the parsed payloads that came from this source, unmerged.
    Source(Source),
    /// Leaf: a pre-built value that skips loading and parsing.
    Value(Box<ValueLeaf>),
    /// Merge each child, in order, and fold the results with `merger`.
    Merge { merger: Merger, children: Vec<MergePlan> },
}

/// The models of source groups.
pub open spec fn source_group_models(g: Seq<SourceGroup>) -> Seq<(SourceModel, Seq<(PayloadModel, LocatedModel)>)> {
    Seq::new(g.len(), |i: int| (g[i].0@, parsed_models(g[i].1@)))
}

/// The pairs of the first group whose configured source is `source`, or none.
pub open spec fn spec_find_source(g: Seq<(SourceModel, Seq<(PayloadModel, LocatedModel)>)>, source: SourceModel) -> Seq<(PayloadModel, LocatedModel)>
    decreases g.len(),
{
    if g.len() == 0 {
        Seq::empty()
    } else if g[0].0 == source {
        g[0].1
    } else {
        spec_find_source(g.drop_first(), source)
    }
}

/// One carrier pair per group, in group order: the group's first payload, renamed to the
/// group's name, with the group's value. A group without payloads gives nothing.
pub open spec fn spec_flatten(g: Seq<GroupModel>) -> Seq<(PayloadModel, LocatedModel)>
    decreases g.len(),
{
    if g.len() == 0 {
        Seq::empty()
    } else {
        let rest = spec_flatten(g.drop_last());
        let last = g.last();
        if last.payloads.len() > 0 {
            rest.push((PayloadModel { name: last.name, ..last.payloads[0] }, last.value))
        } else {
            rest
        }
    }
}

/// `true` when no merge node of the tree uses a merger of the caller's own.
pub open spec fn spec_builtin(plan: MergePlan) -> bool
    decreases plan,
{
    match plan {
        MergePlan::Merge { merger, children } => !(merger is Custom) && forall|i: int|
            0 <= i < children@.len() ==> spec_builtin(#[trigger] children@[i]),
        _ => true,
    }
}

/// What a built-in merger makes of a list of pairs.
pub open spec fn spec_apply(merger: Merger, l: Seq<(PayloadModel, LocatedModel)>) -> Seq<GroupModel> {
    match merger {
        Merger::LastWins(_) => spec_last_wins(l),
        Merger::Deep(d) => spec_deep_groups(l, d.strategy()),
        Merger::Custom(_) => Seq::empty(),
    }
}

/// The flat pairs a node stands for: a source leaf gives the pairs of its group, a value leaf its
/// own pair, a merge node the flattened result of merging its children's pairs.
pub open spec fn spec_eval_tuples(plan: MergePlan, groups: Seq<(SourceModel, Seq<(PayloadModel, LocatedModel)>)>) -> Seq<(PayloadModel, LocatedModel)>
    decreases plan, 1int,
{
    match plan {
        MergePlan::Source(s) => spec_find_source(groups, s@),
        MergePlan::Value(leaf) => seq![(leaf.payload@, leaf.value@)],
        MergePlan::Merge { merger, children } => spec_flatten(
            spec_apply(merger, spec_children(children@, groups, children@.len() as int)),
        ),
    }
}

/// The pairs of the first `n` children, concatenated in order.
pub open spec fn spec_children(children: Seq<MergePlan>, groups: Seq<(SourceModel, Seq<(PayloadModel, LocatedModel)>)>, n: int) -> Seq<(PayloadModel, LocatedModel)>
    decreases children, n,
{
    if n <= 0 || n > children.len() {
        Seq::empty()
    } else {
        spec_children(children, groups, n - 1) + spec_eval_tuples(children[n - 1], groups)
    }
}

/// The result of evaluating a built-in tree: a bare leaf is grouped last-wins; a merge node
/// folds its children's pairs with its merger.
pub open spec fn spec_evaluate(plan: MergePlan, groups: Seq<(SourceModel, Seq<(PayloadModel, LocatedModel)>)>) -> Seq<GroupModel> {
    match plan {
        MergePlan::Merge { merger, children } => spec_apply(
            merger,
            spec_children(children@, groups, children@.len() as int),
        ),
        _ => spec_last_wins(spec_eval_tuples(plan, groups)),
    }
}

/// A source-leaf node, parsing `s` as a source declaration now; an invalid declaration gives
/// [`Error::Other`] with the parse error's text.
pub fn src(s: &str) -> (r: Result<MergePlan, Error>)
    ensures
        match spec_parse_result(s@) {
            Ok(m) => r matches Ok(MergePlan::Source(source)) && source@ == m,
            Err(e) => r matches Err(Error::Other(t)) && t@ == spec_error_display(s@, e, false),
        },
{
    match parse(s) {
        Ok(source) => Ok(MergePlan::Source(source)),
        Err(error) => Err(Error::Other(error.to_display_string(false))),
    }
}

/// The payload that carries a value leaf: the value's source, the given name, no format and no
/// bytes.
pub open spec fn spec_carrier(value: LocatedModel, name: Option<Seq<char>>) -> PayloadModel {
    PayloadModel { source: value.location.source, name, format: None, content: Seq::empty() }
}

/// A value-leaf node in the unnamed entry; its carrier payload's source is the value's source.
pub fn value(located: LocatedValue) -> (r: MergePlan)
    ensures
        r matches MergePlan::Value(leaf) && leaf.payload@ == spec_carrier(located@, None)
            && leaf.value@ == located@,
{
    let payload = Payload {
        source: located.location().source.clone(),
        maybe_name: None,
        maybe_format: None,
        content: Vec::new(),
    };
    MergePlan::Value(Box::new(ValueLeaf { payload, value: located }))
}

/// A value-leaf node in the entry named `name`.
pub fn named_value(name: String, located: LocatedValue) -> (r: MergePlan)
    ensures
        r matches MergePlan::Value(leaf) && leaf.payload@ == spec_carrier(located@, Some(name@))
            && leaf.value@ == located@,
{
    let payload = Payload {
        source: located.location().source.clone(),
        maybe_name: Some(name),
        maybe_format: None,
        content: Vec::new(),
    };
    MergePlan::Value(Box::new(ValueLeaf { payload, value: located }))
}

/// A merge node folding `children` with `merger`.
pub fn merge_with(merger: Merger, children: Vec<MergePlan>) -> (r: MergePlan)
    ensures
        r == (MergePlan::Merge { merger, children }),
{
    MergePlan::Merge { merger, children }
}

/// A merge node folding `children` with [`DeepMerge`] and its default array strategy.
pub fn deep(children: Vec<MergePlan>) -> (r: MergePlan)
    ensures
        r matches MergePlan::Merge { merger: Merger::Deep(d), children: c } && c == children
            && d.strategy() == crate::merge::StrategyModel::Replace,
{
    merge_with(Merger::Deep(DeepMerge::new()), children)
}

/// A merge node folding `children` with [`LastWins`].
pub fn last_wins(children: Vec<MergePlan>) -> (r: MergePlan)
    ensures
        r matches MergePlan::Merge { merger: Merger::LastWins(_), children: c } && c == children,
{
    merge_with(Merger::LastWins(LastWins), children)
}

/// Runs a merger on a list of pairs.
fn apply(merger: &Merger, l: &[(Payload, LocatedValue)]) -> (r: Result<Merged, Error>)
    ensures
        !(merger is Custom) ==> (r matches Ok(m) && m@ == spec_apply(*merger, parsed_models(l@))),
{
    match merger {
        Merger::LastWins(m) => Ok(m.merge_all(l)),
        Merger::Deep(m) => Ok(m.merge_all(l)),
        Merger::Custom(m) => m.merge(l),
    }
}

/// Appends copies of the pairs of `src` to `out`.
fn push_pairs(out: &mut Vec<(Payload, LocatedValue)>, src: &Vec<(Payload, LocatedValue)>)
    ensures
        parsed_models(final(out)@) == parsed_models(old(out)@) + parsed_models(src@),
{
    let mut i: usize = 0;
    while i < src.len()
        invariant
            0 <= i <= src@.len(),
            parsed_models(out@) == parsed_models(old(out)@) + parsed_models(src@.subrange(0, i as int)),
        decreases src@.len() - i,
    {
        let pair = (src[i].0.clone(), src[i].1.clone_located());
        let ghost prev = out@;
        out.push(pair);
        assert(parsed_models(out@) =~= parsed_models(prev).push((src@[i as int].0@, src@[i as int].1@)));
        assert(parsed_models(src@.subrange(0, i + 1)) =~= parsed_models(src@.subrange(0, i as int)).push(
            (src@[i as int].0@, src@[i as int].1@),
        ));
        i = i + 1;
    }
    assert(src@.subrange(0, src@.len() as int) =~= src@);
}

/// The pairs of the first group whose configured source equals `source`.
fn find_source(groups: &[SourceGroup], source: &Source) -> (r: Vec<(Payload, LocatedValue)>)
    ensures
        parsed_models(r@) == spec_find_source(source_group_models(groups@), source@),
{
    let ghost gm = source_group_models(groups@);
    let mut i: usize = 0;
    assert(gm.skip(0) =~= gm);
    while i < groups.len()
        invariant
            gm == source_group_models(groups@),
            0 <= i <= groups@.len(),
            spec_find_source(gm, source@) == spec_find_source(gm.skip(i as int), source@),
        decreases groups@.len() - i,
    {
        let ghost rest = gm.skip(i as int);
        assert(rest[0] == gm[i as int]);
        if groups[i].0.same_source(source) {
            let mut out: Vec<(Payload, LocatedValue)> = Vec::new();
            push_pairs(&mut out, &groups[i].1);
            assert(parsed_models(out@) =~= parsed_models(groups@[i as int].1@));
            return out;
        }
        assert(rest.drop_first() =~= gm.skip(i + 1));
        i = i + 1;
    }
    let out: Vec<(Payload, LocatedValue)> = Vec::new();
    assert(gm.skip(i as int).len() == 0);
    assert(parsed_models(out@) =~= Seq::<(PayloadModel, LocatedModel)>::empty());
    out
}

/// One carrier pair per group (see [`spec_flatten`]).
fn flatten(merged: Merged) -> (r: Vec<(Payload, LocatedValue)>)
    ensures
        parsed_models(r@) == spec_flatten(merged@),
{
    let groups = merged.into_groups();
    let ghost gm = group_models(groups@);
    let mut out: Vec<(Payload, LocatedValue)> = Vec::new();
    let mut i: usize = 0;
    assert(gm.take(0) =~= Seq::<GroupModel>::empty());
    while i < groups.len()
        invariant
            gm == group_models(groups@),
            0 <= i <= groups@.len(),
            parsed_models(out@) == spec_flatten(gm.take(i as int)),
        decreases groups@.len() - i,
    {
        let group = &groups[i];
        assert(gm.take(i + 1).drop_last() =~= gm.take(i as int));
        assert(gm.take(i + 1).last() == group@);
        if group.payloads.len() > 0 {
            let first = &group.payloads[0];
            assert(group@.payloads[0] == first@);
            let carrier = Payload {
                source: first.source.clone(),
                maybe_name: crate::load::clone_opt_string(&group.name),
                maybe_format: crate::load::clone_opt_string(&first.maybe_format),
                content: first.content.clone(),
            };
            let ghost prev = out@;
            out.push((carrier, group.value.clone_located()));
            assert(parsed_models(out@) =~= parsed_models(prev).push((carrier@, group@.value)));
        }
        i = i + 1;
    }
    assert(gm.take(groups@.len() as int) =~= gm);
    out
}

/// The flat pairs a node stands for (see [`spec_eval_tuples`]).
fn eval_tuples(node: &MergePlan, groups: &[SourceGroup]) -> (r: Result<Vec<(Payload, LocatedValue)>, Error>)
    ensures
        spec_builtin(*node) ==> (r matches Ok(v) && parsed_models(v@) == spec_eval_tuples(
            *node,
            source_group_models(groups@),
        )),
    decreases *node, 1int,
{
    match node {
        MergePlan::Source(source) => Ok(find_source(groups, source)),
        MergePlan::Value(leaf) => {
            let pair = (leaf.payload.clone(), leaf.value.clone_located());
            let out = vec![pair];
            assert(parsed_models(out@) =~= seq![(leaf.payload@, leaf.value@)]);
            Ok(out)
        },
        MergePlan::Merge { merger, children } => {
            let concat = eval_children(node, children, groups)?;
            let merged = apply(merger, concat.as_slice())?;
            Ok(flatten(merged))
        },
    }
}

/// The pairs of all children of `node`, concatenated in order.
fn eval_children(node: &MergePlan, children: &Vec<MergePlan>, groups: &[SourceGroup]) -> (r: Result<Vec<(Payload, LocatedValue)>, Error>)
    requires
        node matches MergePlan::Merge { children: c, .. } && c == *children,
    ensures
        spec_builtin(*node) ==> (r matches Ok(v) && parsed_models(v@) == spec_children(
            children@,
            source_group_models(groups@),
            children@.len() as int,
        )),
    decreases *node, 0int,
{
    let ghost gm = source_group_models(groups@);
    let mut concat: Vec<(Payload, LocatedValue)> = Vec::new();
    let mut i: usize = 0;
    assert(parsed_models(concat@) =~= spec_children(children@, gm, 0));
    while i < children.len()
        invariant
            node matches MergePlan::Merge { children: c, .. } && c == *children,
            gm == source_group_models(groups@),
            0 <= i <= children@.len(),
            spec_builtin(*node) ==> parsed_models(concat@) == spec_children(children@, gm, i as int),
        decreases children@.len() - i,
    {
        proof {
            assert(decreases_to!(*node => node->children));
            assert(decreases_to!(node->children => node->children@));
            assert(decreases_to!(node->children@ => children@[i as int]));
        }
        let part = eval_tuples(&children[i], groups)?;
        let ghost prev = concat@;
        push_pairs(&mut concat, &part);
        proof {
            if spec_builtin(*node) {
                assert(spec_builtin(children@[i as int]));
            }
        }
        i = i + 1;
    }
    Ok(concat)
}

/// Evaluate a merge tree against parsed pairs grouped by configured source.
///
/// A source leaf resolves to the pairs of the group whose configured source equals it; a value
/// leaf yields its own pair; a merge node merges its children's pairs with its merger, and an
/// inner merge node passes its result up as one carrier pair per group. A bare leaf at the root
/// is grouped last-wins.
pub fn evaluate(plan: &MergePlan, groups: &[SourceGroup]) -> (r: Result<Merged, Error>)
    ensures
        spec_builtin(*plan) ==> (r matches Ok(m) && m@ == spec_evaluate(
            *plan,
            source_group_models(groups@),
        )),
{
    match plan {
        MergePlan::Merge { merger, children } => {
            let concat = eval_children(plan, children, groups)?;
            apply(merger, concat.as_slice())
        },
        _ => {
            let tuples = eval_tuples(plan, groups)?;
            Ok(LastWins.merge_all(tuples.as_slice()))
        },
    }
}

/// A source leaf stands for the pairs of the first group configured with that source, and for
/// none when no group is.
pub proof fn law_find_source_first(g: Seq<(SourceModel, Seq<(PayloadModel, LocatedModel)>)>, source: SourceModel, i: int)
    ensures
        0 <= i < g.len() && g[i].0 == source && (forall|j: int| 0 <= j < i ==> (#[trigger] g[j]).0 != source)
            ==> spec_find_source(g, source) == g[i].1,
        (forall|j: int| 0 <= j < g.len() ==> (#[trigger] g[j]).0 != source) ==> spec_find_source(g, source).len() == 0,
    decreases g.len(),
{
    if g.len() > 0 {
        let d = g.drop_first();
        law_find_source_first(d, source, i - 1);
        if 0 < i < g.len() && g[i].0 == source && (forall|j: int| 0 <= j < i ==> (#[trigger] g[j]).0 != source) {
            assert(g[0].0 != source);
            assert(d[i - 1] == g[i]);
            assert forall|j: int| 0 <= j < i - 1 implies (#[trigger] d[j]).0 != source by {
                assert(d[j] == g[j + 1]);
            }
        }
        if forall|j: int| 0 <= j < g.len() ==> (#[trigger] g[j]).0 != source {
            assert(g[0].0 != source);
            assert forall|j: int| 0 <= j < d.len() implies (#[trigger] d[j]).0 != source by {
                assert(d[j] == g[j + 1]);
            }
        }
    }
}

/// Flattening merged groups that all have payloads gives one pair per group, in order: the
/// group's first payload under the group's name, with the group's value.
pub proof fn law_flatten_groups(g: Seq<GroupModel>)
    requires
        forall|i: int| 0 <= i < g.len() ==> (#[trigger] g[i]).payloads.len() > 0,
    ensures
        spec_flatten(g).len() == g.len(),
        forall|i: int|
            0 <= i < g.len() ==> (#[trigger] spec_flatten(g)[i]).0 == (PayloadModel { name: g[i].name, ..g[i].payloads[0] })
                && spec_flatten(g)[i].1 == g[i].value,
    decreases g.len(),
{
    if g.len() > 0 {
        let d = g.drop_last();
        assert forall|i: int| 0 <= i < d.len() implies (#[trigger] d[i]).payloads.len() > 0 by {
            assert(d[i] == g[i]);
        }
        law_flatten_groups(d);
        assert(g.last().payloads.len() > 0);
        let f = spec_flatten(g);
        assert forall|i: int| 0 <= i < g.len() implies (#[trigger] f[i]).0 == (PayloadModel { name: g[i].name, ..g[i].payloads[0] })
            && f[i].1 == g[i].value by {
            if i < g.len() - 1 {
                assert(f[i] == spec_flatten(d)[i]);
                assert(d[i] == g[i]);
            }
        }
    }
}

} // verus!

