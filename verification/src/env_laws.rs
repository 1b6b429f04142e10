//! Laws of the env format: what parsing gives back of the text `unparse` writes.

use vstd::prelude::*;
use crate::parse_env::{
    spec_dq, spec_env_escape, spec_env_escape_char, spec_scalar_text, spec_needs_quote,
    spec_value_and_comment, spec_hash_comment, spec_env_line, EnvState, EnvContext,
    spec_env_lines, spec_write_entries, spec_entry_text, spec_before_lines, spec_unparse,
    spec_env_parse, spec_env_settings, spec_env_sources, spec_separator_of, spec_lowercase_of,
    spec_insert_nested,
};
use crate::merge_laws::{lemma_get_insert_same, lemma_get_insert_other};
use crate::source::SourceModel;
use crate::value::{
    ValueModel, LocatedModel, LocationModel, CommentModel, TableModel, PlainValue, spec_table_insert,
    spec_no_comment, spec_plain, spec_index_of, lemma_index_of, spec_table_get,
};
use crate::text::{
    spec_is_whitespace, spec_trim, spec_trim_start, spec_find_char, spec_find_seq, spec_starts_with,
    lowercase_text, lemma_trim_unchanged, lemma_find_seq_none, lemma_find_char_at,
    lemma_find_char_none, lemma_find_seq_at, lemma_trim_start_space, spec_occurs_at,
};
use crate::parse_env::{spec_single_quoted, spec_split};

verus! {

/// Decoding a double-quoted value steps over the escape of `u`, adding `u` to what was decoded.
proof fn lemma_dq_escape(x: Seq<char>, i: int, u: Seq<char>, out: Seq<char>)
    requires
        0 <= i,
        i + spec_env_escape(u).len() <= x.len(),
        x.subrange(i, i + spec_env_escape(u).len()) == spec_env_escape(u),
    ensures
        spec_dq(x, i, out) == spec_dq(x, i + spec_env_escape(u).len(), out + u),
    decreases u.len(),
{
    let e = spec_env_escape(u);
    if u.len() == 0 {
        assert(out + u =~= out);
    } else {
        let w = u.drop_last();
        let c = u.last();
        let ew = spec_env_escape(w);
        let ec = spec_env_escape_char(c);
        assert(e == ew + ec);
        assert(x.subrange(i, i + ew.len()) =~= ew) by {
            assert forall|k: int| 0 <= k < ew.len() implies x.subrange(i, i + ew.len())[k] == ew[k] by {
                assert(x.subrange(i, i + e.len())[k] == e[k]);
            }
        }
        lemma_dq_escape(x, i, w, out);
        let j = i + ew.len();
        assert forall|k: int| 0 <= k < ec.len() implies x[j + k] == ec[k] by {
            assert(x.subrange(i, i + e.len())[ew.len() + k] == e[ew.len() + k]);
        }
        let o2 = out + w;
        assert(o2.push(c) =~= out + u);
        if c == '"' || c == '\\' || c == '\n' || c == '\r' || c == '\t' {
            assert(ec.len() == 2 && ec[0] == '\\');
            assert(x[j + 0] == ec[0]);
            assert(x[j + 1] == ec[1]);
            assert(j + 1 < x.len());
            assert(spec_dq(x, j, o2) == spec_dq(x, j + 2, o2.push(c)));
        } else {
            assert(ec == seq![c]);
            assert(x[j + 0] == ec[0]);
            assert(spec_dq(x, j, o2) == spec_dq(x, j + 1, o2.push(c)));
        }
    }
}

/// A quoted escape decodes to the text it escapes, leaving what follows the closing quote.
proof fn lemma_dq_quoted(u: Seq<char>, rest: Seq<char>)
    ensures
        spec_dq(seq!['"'] + spec_env_escape(u) + seq!['"'] + rest, 1, Seq::empty()) == Some((u, rest)),
{
    let e = spec_env_escape(u);
    let x = seq!['"'] + e + seq!['"'] + rest;
    assert(x.subrange(1, 1 + e.len() as int) =~= e);
    lemma_dq_escape(x, 1, u, Seq::empty());
    assert(Seq::<char>::empty() + u =~= u);
    assert(x[1 + e.len() as int] == '"');
    assert(x.skip(1 + e.len() as int + 1) =~= rest);
}

/// No character of an escape is a newline.
proof fn lemma_escape_no_newline(u: Seq<char>)
    ensures
        forall|k: int| 0 <= k < spec_env_escape(u).len() ==> #[trigger] spec_env_escape(u)[k] != '\n',
    decreases u.len(),
{
    if u.len() > 0 {
        lemma_escape_no_newline(u.drop_last());
        let ew = spec_env_escape(u.drop_last());
        let ec = spec_env_escape_char(u.last());
        assert forall|k: int| 0 <= k < spec_env_escape(u).len() implies #[trigger] spec_env_escape(u)[k] != '\n' by {
            if k >= ew.len() {
                assert(spec_env_escape(u)[k] == ec[k - ew.len()]);
            } else {
                assert(spec_env_escape(u)[k] == ew[k]);
            }
        }
    }
}

/// What is written after `=` for a string: not empty, neither starting nor ending with white
/// space, free of newlines, and read back as the string with no comment.
proof fn lemma_scalar_reads_back(t: Seq<char>)
    ensures
        spec_scalar_text(ValueModel::Str(t)).len() > 0,
        !spec_is_whitespace(spec_scalar_text(ValueModel::Str(t))[0]),
        !spec_is_whitespace(spec_scalar_text(ValueModel::Str(t)).last()),
        forall|k: int| 0 <= k < spec_scalar_text(ValueModel::Str(t)).len()
            ==> #[trigger] spec_scalar_text(ValueModel::Str(t))[k] != '\n',
        spec_value_and_comment(spec_scalar_text(ValueModel::Str(t))) == (t, None::<Seq<char>>),
{
    let sc = spec_scalar_text(ValueModel::Str(t));
    if spec_needs_quote(t) {
        let e = spec_env_escape(t);
        assert(sc == seq!['"'] + e + seq!['"']);
        lemma_escape_no_newline(t);
        assert forall|k: int| 0 <= k < sc.len() implies #[trigger] sc[k] != '\n' by {
            if 0 < k < sc.len() - 1 {
                assert(sc[k] == e[k - 1]);
            }
        }
        lemma_trim_unchanged(sc);
        lemma_dq_quoted(t, Seq::empty());
        assert(sc + Seq::<char>::empty() =~= sc);
        assert(spec_trim(Seq::<char>::empty()).len() == 0);
        assert(spec_hash_comment(Seq::<char>::empty()) is None);
    } else {
        assert(sc == t);
        assert(t.len() > 0);
        assert forall|k: int| 0 <= k < t.len() implies !spec_is_whitespace(#[trigger] t[k]) && t[k] != '"'
            && t[k] != '\'' by {
            if spec_is_whitespace(t[k]) || t[k] == '"' || t[k] == '\'' {
                assert(spec_needs_quote(t));
            }
        }
        assert(!spec_is_whitespace(t.last()));
        lemma_trim_unchanged(t);
        reveal_strlit(" #");
        lemma_find_seq_none(t, " #"@);
    }
}

/// A key that `unparse` writes and `parse` reads back unchanged: not empty, free of white space
/// and `=`, and not starting with `#`.
pub open spec fn spec_plain_env_key(k: Seq<char>) -> bool {
    k.len() > 0 && k[0] != '#' && forall|i: int| 0 <= i < k.len() ==> !spec_is_whitespace(#[trigger] k[i]) && k[i] != '='
}

/// The line `unparse` writes for key `k` and string `t`, without its newline.
pub open spec fn spec_line_of(k: Seq<char>, t: Seq<char>) -> Seq<char> {
    k + seq!['='] + spec_scalar_text(ValueModel::Str(t))
}

/// The key a line's key is stored under: lower-cased when the parser lower-cases.
pub open spec fn spec_read_key(lowercase: bool, k: Seq<char>) -> Seq<char> {
    if lowercase {
        lowercase_text(k)
    } else {
        k
    }
}

/// A written line holds no newline.
proof fn lemma_line_no_newline(k: Seq<char>, t: Seq<char>)
    requires
        spec_plain_env_key(k),
    ensures
        forall|x: int| 0 <= x < spec_line_of(k, t).len() ==> #[trigger] spec_line_of(k, t)[x] != '\n',
{
    lemma_scalar_reads_back(t);
    let l = spec_line_of(k, t);
    let sc = spec_scalar_text(ValueModel::Str(t));
    assert forall|x: int| 0 <= x < l.len() implies #[trigger] l[x] != '\n' by {
        if x < k.len() {
            assert(l[x] == k[x]);
        } else if x > k.len() {
            assert(l[x] == sc[x - k.len() - 1]);
        }
    }
}

/// Reading a written line stores the string under the line's key, with the waiting comment lines
/// before it and no comment after it.
proof fn lemma_line_reads_back(st: EnvState, k: Seq<char>, t: Seq<char>, n: nat, ctx: EnvContext)
    requires
        spec_plain_env_key(k),
        ctx.separator is None,
    ensures
        spec_env_line(st, spec_line_of(k, t), n, ctx).pending.len() == 0,
        exists|lv: LocatedModel|
            lv.value == ValueModel::Str(t) && lv.comment == (CommentModel { before: st.pending, after: None })
                && #[trigger] spec_env_line(st, spec_line_of(k, t), n, ctx).map == spec_table_insert(
                st.map,
                spec_read_key(ctx.lowercase, k),
                lv,
            ),
{
    let l = spec_line_of(k, t);
    let sc = spec_scalar_text(ValueModel::Str(t));
    lemma_scalar_reads_back(t);
    assert(l[0] == k[0]);
    assert(l.last() == sc.last());
    lemma_trim_unchanged(l);
    reveal_strlit("export ");
    assert(!spec_starts_with(l, "export "@)) by {
        if spec_starts_with(l, "export "@) {
            if k.len() >= 7 {
                assert(l.take(7)[6] == l[6]);
                assert(l[6] == k[6]);
            } else {
                assert(l.take(7)[k.len() as int] == l[k.len() as int]);
                assert(l[k.len() as int] == '=');
            }
        }
    }
    assert forall|x: int| 0 <= x < k.len() implies l[x] != '=' by {
        assert(l[x] == k[x]);
    }
    lemma_find_char_at(l, '=', k.len() as int);
    assert(l.take(k.len() as int) =~= k);
    assert(!spec_is_whitespace(k.last()));
    lemma_trim_unchanged(k);
    assert(l.skip(k.len() as int + 1) =~= sc);
    lemma_trim_unchanged(sc);
    let found = spec_find_seq(l, k);
    let column = (if found >= 0 { found } else { 0 }) + 1;
    let location = if ctx.single_line {
        LocationModel { source: ctx.source, line: None, column: None, length: None }
    } else {
        LocationModel { source: ctx.source, line: Some(n as usize), column: Some(column as usize), length: None }
    };
    let lv = LocatedModel {
        value: ValueModel::Str(t),
        location,
        comment: CommentModel { before: st.pending, after: None },
    };
    assert(spec_env_line(st, l, n, ctx).map == spec_table_insert(st.map, spec_read_key(ctx.lowercase, k), lv));
}

/// A map that `unparse` writes as one `KEY=value` line per entry: every value a string, no
/// comments, every key plain.
pub open spec fn spec_plain_env_map(e: TableModel) -> bool {
    forall|i: int|
        0 <= i < e.len() ==> (#[trigger] e[i]).1.value is Str && e[i].1.comment == spec_no_comment()
            && spec_plain_env_key(e[i].0)
}

/// The lines written for the entries `j..n` of `e`, each ended by a newline.
pub open spec fn spec_flat_lines(e: TableModel, j: int, n: int) -> Seq<char>
    decreases n - j,
{
    if j < 0 || j >= n {
        Seq::empty()
    } else {
        spec_line_of(e[j].0, e[j].1.value->Str_0) + seq!['\n'] + spec_flat_lines(e, j + 1, n)
    }
}

/// One more entry adds its line at the end.
proof fn lemma_flat_lines_push(e: TableModel, j: int, n: int)
    requires
        0 <= j <= n,
    ensures
        spec_flat_lines(e, j, n + 1) == spec_flat_lines(e, j, n) + spec_line_of(e[n].0, e[n].1.value->Str_0)
            + seq!['\n'],
    decreases n - j,
{
    if j < n {
        lemma_flat_lines_push(e, j + 1, n);
        assert(spec_flat_lines(e, j, n + 1) =~= spec_flat_lines(e, j, n) + spec_line_of(e[n].0, e[n].1.value->Str_0)
            + seq!['\n']);
    } else {
        assert(spec_flat_lines(e, n + 1, n + 1) == Seq::<char>::empty());
        assert(spec_flat_lines(e, j, n + 1) =~= spec_flat_lines(e, j, n) + spec_line_of(e[n].0, e[n].1.value->Str_0)
            + seq!['\n']);
    }
}

/// Writing the first `n` entries of such a map gives their lines.
proof fn lemma_write_flat(e: TableModel, n: int)
    requires
        spec_plain_env_map(e),
        0 <= n <= e.len(),
    ensures
        spec_write_entries(e, Seq::empty(), None, n) == Ok::<Seq<char>, Seq<char>>(spec_flat_lines(e, 0, n)),
    decreases n,
{
    if n > 0 {
        lemma_write_flat(e, n - 1);
        lemma_flat_lines_push(e, 0, n - 1);
        let item = e[n - 1].1;
        let key = e[n - 1].0;
        assert(Seq::<char>::empty() + key =~= key);
        assert(spec_before_lines(item.comment.before) == Seq::<char>::empty());
        assert(spec_entry_text(item, key) =~= spec_line_of(key, item.value->Str_0) + seq!['\n']);
        assert(item.value is Str);
        assert(spec_write_entries(e, Seq::empty(), None, n) == Ok::<Seq<char>, Seq<char>>(
            spec_flat_lines(e, 0, n - 1) + spec_entry_text(item, Seq::<char>::empty() + key),
        ));
        assert(spec_flat_lines(e, 0, n - 1) + spec_entry_text(item, key) =~= spec_flat_lines(e, 0, n));
    }
}

/// `true` when the entries of `m` are, in order, the keys read back from the first `j` entries of
/// `e` with their strings.
pub open spec fn spec_read_prefix(m: TableModel, e: TableModel, lowercase: bool, j: int) -> bool {
    m.len() == j && forall|i: int|
        0 <= i < j ==> (#[trigger] m[i]).0 == spec_read_key(lowercase, e[i].0) && m[i].1.value
            == ValueModel::Str(e[i].1.value->Str_0)
}

/// Reading the lines of entries `j..` after the first `j` were read gives all entries.
proof fn lemma_lines_read_back(e: TableModel, j: int, st: EnvState, n0: nat, ctx: EnvContext)
    requires
        spec_plain_env_map(e),
        0 <= j <= e.len(),
        ctx.separator is None,
        st.pending.len() == 0,
        forall|a: int, b: int|
            0 <= a < b < e.len() ==> spec_read_key(ctx.lowercase, #[trigger] e[a].0) != spec_read_key(
                ctx.lowercase,
                #[trigger] e[b].0,
            ),
        spec_read_prefix(st.map, e, ctx.lowercase, j),
    ensures
        spec_read_prefix(
            spec_env_lines(st, spec_flat_lines(e, j, e.len() as int), n0, ctx).map,
            e,
            ctx.lowercase,
            e.len() as int,
        ),
    decreases e.len() - j,
{
    if j < e.len() {
        let k = e[j].0;
        let t = e[j].1.value->Str_0;
        let l = spec_line_of(k, t);
        let rest = spec_flat_lines(e, j + 1, e.len() as int);
        let text = spec_flat_lines(e, j, e.len() as int);
        assert(text == l + seq!['\n'] + rest);
        lemma_line_no_newline(k, t);
        assert forall|x: int| 0 <= x < l.len() implies text[x] != '\n' by {
            assert(text[x] == l[x]);
        }
        lemma_find_char_at(text, '\n', l.len() as int);
        assert(text.take(l.len() as int) =~= l);
        assert(text.skip(l.len() as int + 1) =~= rest);
        lemma_line_reads_back(st, k, t, n0 + 1, ctx);
        let st2 = spec_env_line(st, l, n0 + 1, ctx);
        let key = spec_read_key(ctx.lowercase, k);
        let lv = choose|lv: LocatedModel|
            lv.value == ValueModel::Str(t) && lv.comment == (CommentModel { before: st.pending, after: None })
                && #[trigger] spec_env_line(st, l, n0 + 1, ctx).map == spec_table_insert(st.map, key, lv);
        lemma_index_of(st.map, key);
        assert(spec_index_of(st.map, key) == -1) by {
            let idx = spec_index_of(st.map, key);
            if idx >= 0 {
                assert(st.map[idx].0 == spec_read_key(ctx.lowercase, e[idx].0));
            }
        }
        assert(st2.map == st.map.push((key, lv)));
        assert(spec_read_prefix(st2.map, e, ctx.lowercase, j + 1)) by {
            assert forall|i: int| 0 <= i < j + 1 implies (#[trigger] st2.map[i]).0 == spec_read_key(
                ctx.lowercase,
                e[i].0,
            ) && st2.map[i].1.value == ValueModel::Str(e[i].1.value->Str_0) by {
                if i < j {
                    assert(st2.map[i] == st.map[i]);
                }
            }
        }
        lemma_lines_read_back(e, j + 1, st2, n0 + 1, ctx);
    }
}

/// Parsing what `unparse` wrote gives the map back. For a map of strings with plain keys (not
/// empty, free of white space and `=`, not starting with `#`) and no comments, written and read
/// with no separator: `unparse` writes one `KEY=value` line per entry, and parsing those lines
/// gives a map with the same keys (lower-cased when the parser lower-cases), in the same order,
/// each holding its string; without lower-casing it has the content of the written map.
pub proof fn law_env_parse_unparse(source: SourceModel, e: TableModel)
    requires
        spec_plain_env_map(e),
        spec_separator_of(source.options) is None,
        forall|a: int, b: int|
            0 <= a < b < e.len() ==> spec_read_key(spec_lowercase_of(source.options), #[trigger] e[a].0)
                != spec_read_key(spec_lowercase_of(source.options), #[trigger] e[b].0),
    ensures
        spec_unparse(source, ValueModel::Table(e)) == Ok::<Seq<char>, Seq<char>>(
            spec_flat_lines(e, 0, e.len() as int),
        ),
        spec_env_parse(source, Seq::empty(), vstd::utf8::encode_utf8(spec_flat_lines(e, 0, e.len() as int)))
            matches Ok(r) && spec_plain(r.value) == PlainValue::Table(
            Seq::new(
                e.len(),
                |i: int| (spec_read_key(spec_lowercase_of(source.options), e[i].0), PlainValue::Str(e[i].1.value->Str_0)),
            ),
        ) && (!spec_lowercase_of(source.options) ==> spec_plain(r.value) == spec_plain(ValueModel::Table(e))),
{
    let lc = spec_lowercase_of(source.options);
    let text = spec_flat_lines(e, 0, e.len() as int);
    lemma_write_flat(e, e.len() as int);
    assert(spec_env_sources(Seq::<SourceModel>::empty()) == Seq::<SourceModel>::empty());
    assert(spec_env_settings(source, Seq::empty()) == Some((None::<Seq<char>>, lc)));
    let bytes = vstd::utf8::encode_utf8(text);
    vstd::utf8::encode_utf8_valid_utf8(text);
    vstd::utf8::encode_utf8_decode_utf8(text);
    let ctx = EnvContext {
        source,
        single_line: crate::span::spec_is_single_line(bytes),
        separator: None,
        lowercase: lc,
    };
    let st0 = EnvState { map: Seq::empty(), pending: Seq::empty() };
    lemma_lines_read_back(e, 0, st0, 0, ctx);
    let m = spec_env_lines(st0, text, 0, ctx).map;
    let r = spec_env_parse(source, Seq::empty(), bytes)->Ok_0;
    assert(r.value == ValueModel::Table(m));
    assert(spec_read_prefix(m, e, lc, e.len() as int));
    let want = Seq::new(
        e.len(),
        |i: int| (spec_read_key(lc, e[i].0), PlainValue::Str(e[i].1.value->Str_0)),
    );
    assert(spec_plain(r.value)->Table_0 =~= want) by {
        assert forall|i: int| 0 <= i < want.len() implies spec_plain(r.value)->Table_0[i] == want[i] by {
            assert(m[i].0 == spec_read_key(lc, e[i].0));
            assert(spec_plain(m[i].1.value) == PlainValue::Str(e[i].1.value->Str_0));
        }
    }
    if !lc {
        assert(spec_plain(ValueModel::Table(e))->Table_0 =~= want) by {
            assert forall|i: int| 0 <= i < want.len() implies spec_plain(ValueModel::Table(e))->Table_0[i] == want[i] by {
                assert(e[i].1.value is Str);
            }
        }
    }
}

/// The value reached from `m` by the keys `q[from..]`, each but the last naming a nested map.
pub open spec fn spec_get_path(m: TableModel, q: Seq<Seq<char>>, from: int) -> Option<LocatedModel>
    decreases q.len() - from,
{
    if from < 0 || from >= q.len() {
        None
    } else {
        match spec_table_get(m, q[from]) {
            None => None,
            Some(x) => if from == q.len() - 1 {
                Some(x)
            } else {
                match x.value {
                    ValueModel::Table(inner) => spec_get_path(inner, q, from + 1),
                    _ => None,
                }
            },
        }
    }
}

/// Inserting under a path makes the value reachable by that path.
pub proof fn law_insert_nested_reaches(m: TableModel, parts: Seq<Seq<char>>, from: int, v: LocatedModel)
    requires
        0 <= from < parts.len(),
    ensures
        spec_get_path(spec_insert_nested(m, parts, from, v), parts, from) == Some(v),
    decreases parts.len() - from,
{
    let r = spec_insert_nested(m, parts, from, v);
    let head = parts[from];
    if from == parts.len() - 1 {
        lemma_get_insert_same(m, head, v);
    } else {
        let x: TableModel = match spec_table_get(m, head) {
            Some(existing) => match existing.value {
                ValueModel::Table(inner) => inner,
                _ => Seq::empty(),
            },
            None => Seq::empty(),
        };
        law_insert_nested_reaches(x, parts, from + 1, v);
        let sub = spec_insert_nested(x, parts, from + 1, v);
        match spec_table_get(m, head) {
            Some(existing) => match existing.value {
                ValueModel::Table(inner) => {
                    lemma_get_insert_same(m, head, LocatedModel { value: ValueModel::Table(sub), ..existing });
                },
                _ => {
                    lemma_get_insert_same(
                        m,
                        head,
                        LocatedModel { value: ValueModel::Table(sub), location: v.location, comment: existing.comment },
                    );
                },
            },
            None => {
                lemma_get_insert_same(
                    m,
                    head,
                    LocatedModel { value: ValueModel::Table(sub), location: v.location, comment: spec_no_comment() },
                );
            },
        }
    }
}

/// Inserting under a path keeps every other path: a value reached by keys `q` that part from
/// the inserted path at some key is still reached by `q` afterwards. In particular, inserting
/// into an existing nested map keeps all its other entries.
pub proof fn law_insert_nested_keeps_other_paths(
    m: TableModel,
    parts: Seq<Seq<char>>,
    from: int,
    v: LocatedModel,
    q: Seq<Seq<char>>,
    i: int,
)
    requires
        0 <= from <= i,
        i < parts.len(),
        i < q.len(),
        forall|j: int| from <= j < i ==> q[j] == parts[j],
        q[i] != parts[i],
        spec_get_path(m, q, from) is Some,
    ensures
        spec_get_path(spec_insert_nested(m, parts, from, v), q, from) == spec_get_path(m, q, from),
    decreases i - from,
{
    let r = spec_insert_nested(m, parts, from, v);
    let head = parts[from];
    if i == from {
        // Every branch stores a new value under `head` alone.
        if from == parts.len() - 1 {
            lemma_get_insert_other(m, head, v, q[from]);
        } else {
            let sub_existing = match spec_table_get(m, head) {
                Some(existing) => match existing.value {
                    ValueModel::Table(inner) => LocatedModel {
                        value: ValueModel::Table(spec_insert_nested(inner, parts, from + 1, v)),
                        ..existing
                    },
                    _ => LocatedModel {
                        value: ValueModel::Table(spec_insert_nested(Seq::empty(), parts, from + 1, v)),
                        location: v.location,
                        comment: existing.comment,
                    },
                },
                None => LocatedModel {
                    value: ValueModel::Table(spec_insert_nested(Seq::empty(), parts, from + 1, v)),
                    location: v.location,
                    comment: spec_no_comment(),
                },
            };
            assert(r == crate::value::spec_table_insert(m, head, sub_existing));
            lemma_get_insert_other(m, head, sub_existing, q[from]);
        }
    } else {
        assert(q[from] == head);
        let x = spec_table_get(m, head)->Some_0;
        let inner = x.value->Table_0;
        law_insert_nested_keeps_other_paths(inner, parts, from + 1, v, q, i);
        let y = LocatedModel { value: ValueModel::Table(spec_insert_nested(inner, parts, from + 1, v)), ..x };
        lemma_get_insert_same(m, head, y);
    }
}

/// A `#` comment after a space reads as its text: `" # note"` gives the comment `note` (for a
/// note that is not empty and neither starts nor ends with white space).
pub proof fn law_hash_comment_text(c: Seq<char>)
    requires
        c.len() > 0,
        !spec_is_whitespace(c[0]),
        !spec_is_whitespace(c.last()),
    ensures
        spec_hash_comment(seq![' ', '#', ' '] + c) == Some(c),
{
    let line = seq![' ', '#', ' '] + c;
    let t = seq!['#', ' '] + c;
    assert(line =~= seq![' '] + t);
    assert(t.last() == c.last());
    lemma_trim_unchanged(t);
    lemma_trim_start_space(t);
    assert(spec_trim(line) == t);
    assert(t.drop_first() =~= seq![' '] + c);
    lemma_trim_start_space(c);
}

/// An unquoted value with a `#` comment after a space reads as the value and the comment: for a
/// value without white space that does not start with a quote, `VALUE # note` gives `VALUE` and
/// the comment `note`.
pub proof fn law_unquoted_value_and_comment(v: Seq<char>, c: Seq<char>)
    requires
        v.len() > 0,
        v[0] != '"' && v[0] != '\'',
        forall|j: int| 0 <= j < v.len() ==> !spec_is_whitespace(#[trigger] v[j]),
        c.len() > 0,
        !spec_is_whitespace(c[0]),
        !spec_is_whitespace(c.last()),
    ensures
        spec_value_and_comment(v + seq![' ', '#', ' '] + c) == (v, Some(c)),
{
    let t = v + seq![' ', '#', ' '] + c;
    assert(t[0] == v[0]);
    assert(t.last() == c.last());
    lemma_trim_unchanged(t);
    reveal_strlit(" #");
    assert(t.subrange(v.len() as int, v.len() as int + 2) =~= " #"@);
    assert(spec_occurs_at(t, " #"@, v.len() as int));
    assert forall|j: int| 0 <= j < v.len() implies t[j] != " #"@[0] by {
        assert(t[j] == v[j]);
    }
    lemma_find_seq_at(t, " #"@, v.len() as int);
    let after = t.skip(v.len() as int + 1);
    assert(after =~= seq!['#', ' '] + c);
    assert(after.last() == c.last());
    lemma_trim_unchanged(after);
    assert(t.take(v.len() as int) =~= v);
    assert(!spec_is_whitespace(v.last()));
    lemma_trim_unchanged(v);
    assert(after.drop_first() =~= seq![' '] + c);
    lemma_trim_start_space(c);
}

/// A single-quoted value reads as the text between the quotes, with a `#` comment after a space
/// read as its text: `'text'` gives `text`, and `'text' # note` gives `text` and `note`.
pub proof fn law_single_quoted_value(v: Seq<char>, c: Seq<char>)
    requires
        forall|j: int| 0 <= j < v.len() ==> #[trigger] v[j] != '\'',
        c.len() > 0,
        !spec_is_whitespace(c[0]),
        !spec_is_whitespace(c.last()),
    ensures
        spec_value_and_comment(seq!['\''] + v + seq!['\'']) == (v, None::<Seq<char>>),
        spec_value_and_comment(seq!['\''] + v + seq!['\'', ' ', '#', ' '] + c) == (v, Some(c)),
{
    let q = seq!['\''] + v + seq!['\''];
    let t = seq!['\''] + v + seq!['\'', ' ', '#', ' '] + c;
    assert(q.last() == '\'');
    lemma_trim_unchanged(q);
    assert(t.last() == c.last());
    lemma_trim_unchanged(t);
    assert forall|j: int| 0 <= j < v.len() implies q.drop_first()[j] != '\'' by {
        assert(q.drop_first()[j] == v[j]);
    }
    lemma_find_char_at(q.drop_first(), '\'', v.len() as int);
    assert forall|j: int| 0 <= j < v.len() implies t.drop_first()[j] != '\'' by {
        assert(t.drop_first()[j] == v[j]);
    }
    lemma_find_char_at(t.drop_first(), '\'', v.len() as int);
    assert(q.subrange(1, v.len() as int + 1) =~= v);
    assert(t.subrange(1, v.len() as int + 1) =~= v);
    assert(q.skip(v.len() as int + 2) =~= Seq::<char>::empty());
    assert(spec_trim(Seq::<char>::empty()).len() == 0);
    assert(t.skip(v.len() as int + 2) =~= seq![' ', '#', ' '] + c);
    law_hash_comment_text(c);
}

/// A comment line adds its text to the comments waiting for the next entry and leaves the map:
/// `# note` gives `note`.
pub proof fn law_env_comment_line(st: EnvState, c: Seq<char>, n: nat, ctx: EnvContext)
    requires
        c.len() > 0,
        !spec_is_whitespace(c[0]),
        !spec_is_whitespace(c.last()),
    ensures
        spec_env_line(st, seq!['#', ' '] + c, n, ctx) == (EnvState { map: st.map, pending: st.pending.push(c) }),
{
    let l = seq!['#', ' '] + c;
    assert(l.last() == c.last());
    lemma_trim_unchanged(l);
    assert(l.drop_first() =~= seq![' '] + c);
    lemma_trim_start_space(c);
}

/// A line written as an assignment stores the written string under its key, takes the waiting
/// comments as the comments before the value, and clears them.
pub proof fn law_env_assignment_takes_comments(st: EnvState, k: Seq<char>, t: Seq<char>, n: nat, ctx: EnvContext)
    requires
        spec_plain_env_key(k),
        ctx.separator is None,
    ensures
        spec_env_line(st, spec_line_of(k, t), n, ctx).pending.len() == 0,
        spec_table_get(spec_env_line(st, spec_line_of(k, t), n, ctx).map, spec_read_key(ctx.lowercase, k)) matches Some(
            lv,
        ) && lv.value == ValueModel::Str(t) && lv.comment.before == st.pending && lv.comment.after is None,
{
    lemma_line_reads_back(st, k, t, n, ctx);
    let key = spec_read_key(ctx.lowercase, k);
    let lv = choose|lv: LocatedModel|
        lv.value == ValueModel::Str(t) && lv.comment == (CommentModel { before: st.pending, after: None })
            && #[trigger] spec_env_line(st, spec_line_of(k, t), n, ctx).map == spec_table_insert(st.map, key, lv);
    lemma_get_insert_same(st.map, key, lv);
}

/// Splitting a key at the separator: a key part free of the separator's first character is one
/// part, and such a part, the separator and a rest split into that part followed by the parts of
/// the rest.
pub proof fn law_split_at_separator(a: Seq<char>, sep: Seq<char>, b: Seq<char>)
    requires
        sep.len() > 0,
        forall|j: int| 0 <= j < a.len() ==> #[trigger] a[j] != sep[0],
    ensures
        spec_split(a, sep) == seq![a],
        spec_split(a + sep + b, sep) == seq![a] + spec_split(b, sep),
{
    lemma_find_seq_none(a, sep);
    let s = a + sep + b;
    assert(s.subrange(a.len() as int, a.len() as int + sep.len()) =~= sep);
    assert(spec_occurs_at(s, sep, a.len() as int));
    assert forall|j: int| 0 <= j < a.len() implies s[j] != sep[0] by {
        assert(s[j] == a[j]);
    }
    lemma_find_seq_at(s, sep, a.len() as int);
    assert(s.take(a.len() as int) =~= a);
    assert(s.skip(a.len() as int + sep.len()) =~= b);
}

} // verus!






