//! Dotenv / env-file parser: `KEY=VALUE` lines into a map of strings.
//!
//! - The UTF-8 input is split into lines; blank lines are skipped. Full-line `#` comments are kept
//!   as the "before" comments of the next entry, an inline `# ...` after a value as its "after"
//!   comment. A leading `export ` is dropped.
//! - Values may be double-quoted (with `\n`, `\r`, `\t`, `\"`, `\\` escapes), single-quoted
//!   (taken literally) or bare (up to an inline ` #` comment).
//! - With a `separator` option, keys are split on it and nested into sub-maps. A non-`env` source
//!   takes `separator` and `lowercase` from the `env` sources among the other configured sources.
//! - Keys are lower-cased unless the `lowercase` option is `false`. Each entry carries its line and
//!   column, except in single-line input; the root map carries neither.

use vstd::prelude::*;
use crate::source::{Source, SourceModel, EntriesModel, OptionModel, OptionValue, spec_get};
use crate::value::{
    Value, ValueModel, LocatedValue, LocatedModel, Location, LocationModel, Table, TableModel,
    Comment, CommentModel, Error, spec_table_insert, spec_table_get, spec_texts, spec_opt_text,
    spec_no_comment,
};
use crate::text::{
    push_chars, spec_trim, spec_trim_start, spec_trim_end, spec_find_char, spec_find_seq, spec_starts_with,
    spec_occurs_at, trim_chars, trim_start_chars, trim_end_chars, find_char, find_seq,
    starts_with_chars, starts_with_char, sub_chars, chars_of, string_from_chars, to_lowercase,
    lowercase_text, utf8_text, find_char_from, str_equal,
};
use crate::span::{is_single_line, spec_is_single_line};

verus! {

/// The `separator` option: its string, when it is one.
pub open spec fn spec_separator_of(o: EntriesModel) -> Option<Seq<char>> {
    match spec_get(o, "separator"@) {
        Some(OptionModel::Str(s)) => Some(s),
        _ => None,
    }
}

/// The `lowercase` option: its boolean, `true` when absent or not a boolean.
pub open spec fn spec_lowercase_of(o: EntriesModel) -> bool {
    match spec_get(o, "lowercase"@) {
        Some(OptionModel::Bool(b)) => b,
        _ => true,
    }
}

/// The sources named `env`, in order.
pub open spec fn spec_env_sources(others: Seq<SourceModel>) -> Seq<SourceModel>
    decreases others.len(),
{
    if others.len() == 0 {
        Seq::empty()
    } else if others.last().source == "env"@ {
        spec_env_sources(others.drop_last()).push(others.last())
    } else {
        spec_env_sources(others.drop_last())
    }
}

/// The separator and lower-casing an env payload is parsed with, or `None` when the `env` sources
/// among `others` disagree on the separator (for a source that is not itself `env`).
pub open spec fn spec_env_settings(source: SourceModel, others: Seq<SourceModel>) -> Option<(Option<Seq<char>>, bool)> {
    let envs = spec_env_sources(others);
    if source.source == "env"@ || envs.len() == 0 {
        Some((spec_separator_of(source.options), spec_lowercase_of(source.options)))
    } else if forall|i: int|
        0 <= i < envs.len() ==> spec_separator_of(#[trigger] envs[i].options) == spec_separator_of(
            envs[0].options,
        ) {
        Some((spec_separator_of(envs[0].options), spec_lowercase_of(envs[0].options)))
    } else {
        None
    }
}

/// The body of a `#` comment line, without the `#` and the white space after it.
pub open spec fn spec_hash_comment(line: Seq<char>) -> Option<Seq<char>> {
    let t = spec_trim(line);
    if t.len() > 0 && t[0] == '#' {
        Some(spec_trim_start(t.drop_first()))
    } else {
        None
    }
}

/// Scanning a double-quoted value from index `i` with `out` decoded so far: the value and the
/// text after the closing quote, or `None` when the quote is not closed.
pub open spec fn spec_dq(input: Seq<char>, i: int, out: Seq<char>) -> Option<(Seq<char>, Seq<char>)>
    decreases input.len() - i,
{
    if i < 0 || i >= input.len() {
        None
    } else if input[i] == '"' {
        Some((out, input.skip(i + 1)))
    } else if input[i] == '\\' {
        if i + 1 >= input.len() {
            None
        } else {
            let next = input[i + 1];
            let decoded = if next == 'n' {
                out.push('\n')
            } else if next == 'r' {
                out.push('\r')
            } else if next == 't' {
                out.push('\t')
            } else if next == '"' {
                out.push('"')
            } else if next == '\\' {
                out.push('\\')
            } else {
                out.push('\\').push(next)
            };
            spec_dq(input, i + 2, decoded)
        }
    } else {
        spec_dq(input, i + 1, out.push(input[i]))
    }
}

/// A single-quoted value: the text up to the next `'` and the text after it.
pub open spec fn spec_single_quoted(input: Seq<char>) -> Option<(Seq<char>, Seq<char>)> {
    let j = spec_find_char(input.drop_first(), '\'');
    if j < 0 {
        None
    } else {
        Some((input.subrange(1, j + 1), input.skip(j + 2)))
    }
}

/// The value and the inline comment of the text after `=`.
pub open spec fn spec_value_and_comment(value_part: Seq<char>) -> (Seq<char>, Option<Seq<char>>) {
    let t = spec_trim_start(value_part);
    if t.len() > 0 && t[0] == '"' && spec_dq(t, 1, Seq::empty()) is Some {
        let (v, rest) = spec_dq(t, 1, Seq::empty())->0;
        (v, spec_hash_comment(rest))
    } else if t.len() > 0 && t[0] == '\'' && spec_single_quoted(t) is Some {
        let (v, rest) = spec_single_quoted(t)->0;
        (v, spec_hash_comment(rest))
    } else {
        let i = spec_find_seq(t, " #"@);
        if i >= 0 && spec_trim(t.skip(i + 1)).len() > 0 && spec_trim(t.skip(i + 1))[0] == '#' {
            (spec_trim_end(t.take(i)), spec_hash_comment(spec_trim(t.skip(i + 1))))
        } else {
            (t, None)
        }
    }
}

/// `s` split at every occurrence of `sep`.
pub open spec fn spec_split(s: Seq<char>, sep: Seq<char>) -> Seq<Seq<char>>
    decreases s.len(),
{
    let i = spec_find_seq(s, sep);
    if sep.len() == 0 || i < 0 || i + sep.len() > s.len() {
        seq![s]
    } else {
        seq![s.take(i)] + spec_split(s.skip(i + sep.len()), sep)
    }
}

/// `v` stored under the path `parts[from..]`: the last part holds `v`; earlier parts are maps,
/// an existing map is descended into, an existing non-map entry becomes a map at `v`'s location
/// (keeping its comment), and a missing entry is created at `v`'s location.
pub open spec fn spec_insert_nested(m: TableModel, parts: Seq<Seq<char>>, from: int, v: LocatedModel) -> TableModel
    decreases parts.len() - from,
{
    if from < 0 || from >= parts.len() {
        m
    } else if from == parts.len() - 1 {
        spec_table_insert(m, parts[from], v)
    } else {
        let head = parts[from];
        match spec_table_get(m, head) {
            Some(existing) => match existing.value {
                ValueModel::Table(inner) => spec_table_insert(
                    m,
                    head,
                    LocatedModel {
                        value: ValueModel::Table(spec_insert_nested(inner, parts, from + 1, v)),
                        ..existing
                    },
                ),
                _ => spec_table_insert(
                    m,
                    head,
                    LocatedModel {
                        value: ValueModel::Table(
                            spec_insert_nested(Seq::empty(), parts, from + 1, v),
                        ),
                        location: v.location,
                        comment: existing.comment,
                    },
                ),
            },
            None => spec_table_insert(
                m,
                head,
                LocatedModel {
                    value: ValueModel::Table(spec_insert_nested(Seq::empty(), parts, from + 1, v)),
                    location: v.location,
                    comment: spec_no_comment(),
                },
            ),
        }
    }
}

/// What parsing a payload depends on besides its lines.
pub struct EnvContext {
    pub source: SourceModel,
    pub single_line: bool,
    pub separator: Option<Seq<char>>,
    pub lowercase: bool,
}

/// The entries read so far and the comment lines waiting for the next entry.
pub struct EnvState {
    pub map: TableModel,
    pub pending: Seq<Seq<char>>,
}

/// One line, number `n`, applied to the state.
pub open spec fn spec_env_line(st: EnvState, line: Seq<char>, n: nat, ctx: EnvContext) -> EnvState {
    let trimmed = spec_trim(line);
    if trimmed.len() == 0 {
        st
    } else if trimmed[0] == '#' {
        EnvState { map: st.map, pending: st.pending.push(spec_trim_start(trimmed.drop_first())) }
    } else {
        let body = if spec_starts_with(trimmed, "export "@) {
            spec_trim_start(trimmed.skip(7))
        } else {
            trimmed
        };
        let eq = spec_find_char(body, '=');
        if eq < 0 {
            st
        } else {
            let key = spec_trim(body.take(eq));
            if key.len() == 0 {
                st
            } else {
                let found = spec_find_seq(line, key);
                let column = (if found >= 0 { found } else { 0 }) + 1;
                let (value, after) = spec_value_and_comment(spec_trim(body.skip(eq + 1)));
                let location = if ctx.single_line {
                    LocationModel { source: ctx.source, line: None, column: None, length: None }
                } else {
                    LocationModel {
                        source: ctx.source,
                        line: Some(n as usize),
                        column: Some(column as usize),
                        length: None,
                    }
                };
                let final_key = if ctx.lowercase {
                    lowercase_text(key)
                } else {
                    key
                };
                let lv = LocatedModel {
                    value: ValueModel::Str(value),
                    location,
                    comment: CommentModel { before: st.pending, after },
                };
                let map = match ctx.separator {
                    None => spec_table_insert(st.map, final_key, lv),
                    Some(sep) => spec_insert_nested(st.map, spec_split(final_key, sep), 0, lv),
                };
                EnvState { map, pending: Seq::empty() }
            }
        }
    }
}

/// The lines of `t` applied in order, the first numbered `n + 1`.
pub open spec fn spec_env_lines(st: EnvState, t: Seq<char>, n: nat, ctx: EnvContext) -> EnvState
    decreases t.len(),
{
    if t.len() == 0 {
        st
    } else {
        let i = spec_find_char(t, '\n');
        if i < 0 || i >= t.len() {
            spec_env_line(st, t, n + 1, ctx)
        } else {
            spec_env_lines(spec_env_line(st, t.take(i), n + 1, ctx), t.skip(i + 1), n + 1, ctx)
        }
    }
}

/// Why an env payload could not be parsed.
pub enum EnvFault {
    /// The `env` sources disagree on the separator.
    Conflict,
    /// The bytes are not UTF-8.
    InvalidUtf8,
}

/// What parsing `bytes` of `source` gives: the root map at the source, without line.
pub open spec fn spec_env_parse(source: SourceModel, others: Seq<SourceModel>, bytes: Seq<u8>) -> Result<LocatedModel, EnvFault> {
    match spec_env_settings(source, others) {
        None => Err(EnvFault::Conflict),
        Some((separator, lowercase)) => if !vstd::utf8::valid_utf8(bytes) {
            Err(EnvFault::InvalidUtf8)
        } else {
            let ctx = EnvContext {
                source,
                single_line: spec_is_single_line(bytes),
                separator,
                lowercase,
            };
            let st = spec_env_lines(
                EnvState { map: Seq::empty(), pending: Seq::empty() },
                vstd::utf8::decode_utf8(bytes),
                0,
                ctx,
            );
            Ok(
                LocatedModel {
                    value: ValueModel::Table(st.map),
                    location: LocationModel { source, line: None, column: None, length: None },
                    comment: spec_no_comment(),
                },
            )
        },
    }
}

/// The separator is not empty (an empty one would split a key forever).
pub open spec fn spec_separator_ok(source: SourceModel, others: Seq<SourceModel>) -> bool {
    match spec_env_settings(source, others) {
        Some((Some(sep), _)) => sep.len() > 0,
        _ => true,
    }
}

/// `true` when some line of `t` is an assignment: not blank, not a comment, and holding `=`.
pub open spec fn spec_has_assignment(t: Seq<char>) -> bool
    decreases t.len(),
{
    let i = spec_find_char(t, '\n');
    let line = if 0 <= i < t.len() { t.take(i) } else { t };
    let tl = spec_trim(line);
    if tl.len() > 0 && tl[0] != '#' && spec_find_char(tl, '=') >= 0 {
        true
    } else if 0 <= i < t.len() {
        spec_has_assignment(t.skip(i + 1))
    } else {
        false
    }
}

/// The models of a sequence of sources.
pub open spec fn source_models(s: Seq<Source>) -> Seq<SourceModel> {
    Seq::new(s.len(), |i: int| s[i]@)
}

/// Parser for the `env` format. Stateless.
pub struct Env;

impl Env {
    /// An env-format parser.
    pub fn new() -> (r: Env) {
        Env
    }

    /// Human-readable name used in error messages.
    pub fn name(&self) -> (r: &'static str)
        ensures
            r@ == "Environment-Variables"@,
    {
        "Environment-Variables"
    }

    /// The format extensions this parser handles: `env`.
    pub fn supported_format_list(&self) -> (r: Vec<String>)
        ensures
            r@.len() == 1 && r@[0]@ == "env"@,
    {
        vec!["env".to_owned()]
    }

    /// `Some(true)` when the bytes are UTF-8 text with some line an assignment, else
    /// `Some(false)`.
    pub fn is_format_supported(&self, bytes: &[u8]) -> (r: Option<bool>)
        ensures
            r == Some(vstd::utf8::valid_utf8(bytes@) && spec_has_assignment(vstd::utf8::decode_utf8(bytes@))),
    {
        let text = match utf8_text(bytes) {
            Some(t) => t,
            None => return Some(false),
        };
        let chars = chars_of(text);
        let n = chars.len();
        let mut offset: usize = 0;
        assert(chars@.skip(0) =~= chars@);
        while offset < n
            invariant
                vstd::utf8::valid_utf8(bytes@),
                chars@ == vstd::utf8::decode_utf8(bytes@),
                n == chars@.len(),
                0 <= offset <= n,
                spec_has_assignment(chars@) == spec_has_assignment(chars@.skip(offset as int)),
            decreases n - offset,
        {
            let end = find_char_from(&chars, '\n', offset);
            let line = sub_chars(&chars, offset, end);
            let tl = trim_chars(&line);
            let ghost t = chars@.skip(offset as int);
            let ghost i = spec_find_char(t, '\n');
            assert(end < n ==> t.take(end - offset) =~= line@);
            assert(end == n ==> t =~= line@);
            assert(line@ == if 0 <= i < t.len() { t.take(i) } else { t });
            let hit = tl.len() > 0 && tl[0] != '#' && find_char(&tl, '=').is_some();
            assert(hit == (spec_trim(line@).len() > 0 && spec_trim(line@)[0] != '#' && spec_find_char(spec_trim(line@), '=') >= 0));
            if hit {
                assert(spec_has_assignment(t));
                return Some(true);
            }
            if end >= n {
                assert(!spec_has_assignment(t));
                return Some(false);
            }
            assert(t.skip(end - offset + 1) =~= chars@.skip(end + 1));
            assert(spec_has_assignment(t) == spec_has_assignment(chars@.skip(end + 1)));
            offset = end + 1;
        }
        assert(chars@.skip(offset as int).len() == 0);
        Some(false)
    }

    /// Parse the env-format `bytes` of `source`; `other_source_list` is consulted for the
    /// separator and lower-casing of a payload whose own source is not `env`.
    pub fn parse(&self, source: &Source, bytes: &[u8], other_source_list: &[Source]) -> (r: Result<LocatedValue, Error>)
        requires
            spec_separator_ok(source@, source_models(other_source_list@)),
        ensures
            match spec_env_parse(source@, source_models(other_source_list@), bytes@) {
                Ok(m) => r matches Ok(v) && v@ == m,
                Err(EnvFault::Conflict) => r matches Err(Error::Parse { location: Some(l), message })
                    && l@ == (LocationModel { source: source@, line: None, column: None, length: None })
                    && message@ == "cannot determine env separator: multiple env sources with different separator options"@,
                Err(EnvFault::InvalidUtf8) => r matches Err(Error::InvalidUtf8 { location })
                    && location@ == (LocationModel { source: source@, line: None, column: None, length: None }),
            },
    {
        let settings = env_settings(source, other_source_list);
        let (separator, lowercase) = match settings {
            Some(s) => s,
            None => {
                return Err(Error::Parse {
                    location: Some(Location::in_source(source.clone(), None, None, None)),
                    message: "cannot determine env separator: multiple env sources with different separator options".to_owned(),
                });
            },
        };
        let text = match utf8_text(bytes) {
            Some(t) => t,
            None => {
                return Err(Error::InvalidUtf8 {
                    location: Location::in_source(source.clone(), None, None, None),
                });
            },
        };
        let single_line = is_single_line(bytes);
        let sep_chars: Option<Vec<char>> = match &separator {
            Some(s) => Some(chars_of(s.as_str())),
            None => None,
        };
        let ghost ctx = EnvContext {
            source: source@,
            single_line: spec_is_single_line(bytes@),
            separator: match separator {
                Some(s) => Some(s@),
                None => None,
            },
            lowercase,
        };
        let chars = chars_of(text);
        let n = chars.len();
        let mut map = Table::new();
        let mut pending: Vec<String> = Vec::new();
        let mut line_number: usize = 0;
        let mut offset: usize = 0;
        let ghost init = EnvState { map: Seq::empty(), pending: Seq::empty() };
        assert(spec_texts(pending@) =~= Seq::<Seq<char>>::empty());
        assert(chars@.skip(0) =~= chars@);
        while offset < n
            invariant
                chars@ == vstd::utf8::decode_utf8(bytes@),
                n == chars@.len(),
                0 <= offset <= n,
                line_number <= offset,
                ctx.source == source@,
                ctx.single_line == single_line,
                ctx.lowercase == lowercase,
                match sep_chars {
                    Some(s) => ctx.separator == Some(s@) && s@.len() > 0,
                    None => ctx.separator is None,
                },
                spec_env_lines(init, chars@, 0, ctx) == spec_env_lines(
                    EnvState { map: map@, pending: spec_texts(pending@) },
                    chars@.skip(offset as int),
                    line_number as nat,
                    ctx,
                ),
            decreases n - offset,
        {
            let end = find_char_from(&chars, '\n', offset);
            let line = sub_chars(&chars, offset, end);
            let ghost t = chars@.skip(offset as int);
            assert(end < n ==> t.take(end - offset) =~= line@);
            assert(end == n ==> t =~= line@);
            line_number = line_number + 1;
            env_line(&mut map, &mut pending, &line, line_number, source, single_line, &sep_chars, lowercase, Ghost(ctx));
            if end < n {
                assert(t.skip(end - offset + 1) =~= chars@.skip(end + 1));
                offset = end + 1;
            } else {
                assert(chars@.skip(n as int).len() == 0);
                offset = n;
            }
        }
        assert(chars@.skip(offset as int).len() == 0);
        Ok(LocatedValue::new(Value::Table(map), Location::in_source(source.clone(), None, None, None)))
    }
}

/// Whether two optional strings are equal.
fn same_opt(a: &Option<String>, b: &Option<String>) -> (r: bool)
    ensures
        r == (spec_opt_text(*a) == spec_opt_text(*b)),
{
    match (a, b) {
        (Some(x), Some(y)) => str_equal(x.as_str(), y.as_str()),
        (None, None) => true,
        _ => false,
    }
}

/// The `separator` option of a source.
fn separator_of(source: &Source) -> (r: Option<String>)
    ensures
        spec_opt_text(r) == spec_separator_of(source@.options),
{
    match source.options().get("separator") {
        Some(v) => match v.as_string() {
            Some(s) => Some(s.clone()),
            None => None,
        },
        None => None,
    }
}

/// The `lowercase` option of a source.
fn lowercase_of(source: &Source) -> (r: bool)
    ensures
        r == spec_lowercase_of(source@.options),
{
    match source.options().get("lowercase") {
        Some(v) => match v.as_bool() {
            Some(b) => b,
            None => true,
        },
        None => true,
    }
}

/// `spec_env_sources` of a prefix grows by the next source when it is `env`.
proof fn lemma_env_sources_step(others: Seq<SourceModel>, i: int)
    requires
        0 <= i < others.len(),
    ensures
        spec_env_sources(others.take(i + 1)) == if others[i].source == "env"@ {
            spec_env_sources(others.take(i)).push(others[i])
        } else {
            spec_env_sources(others.take(i))
        },
{
    assert(others.take(i + 1).drop_last() =~= others.take(i));
    assert(others.take(i + 1).last() == others[i]);
}

/// Whether the separator that applies to `source` is usable (see [`spec_separator_ok`]): what
/// a caller checks before [`Env::parse`].
pub fn separator_ok(source: &Source, other_source_list: &[Source]) -> (r: bool)
    ensures
        r == spec_separator_ok(source@, source_models(other_source_list@)),
{
    match env_settings(source, other_source_list) {
        Some((Some(sep), _)) => chars_of(sep.as_str()).len() > 0,
        _ => true,
    }
}

/// The separator and lower-casing for `source` (see [`spec_env_settings`]).
fn env_settings(source: &Source, others: &[Source]) -> (r: Option<(Option<String>, bool)>)
    ensures
        match spec_env_settings(source@, source_models(others@)) {
            Some((sep, lc)) => r matches Some((s, l)) && spec_opt_text(s) == sep && l == lc,
            None => r is None,
        },
{
    let ghost om = source_models(others@);
    let is_env = str_equal(source.source(), "env");
    // Collect the env sources first.
    let mut first: Option<usize> = None;
    let mut first_sep: Option<String> = None;
    let mut agree = true;
    let mut i: usize = 0;
    assert(om.take(0) =~= Seq::<SourceModel>::empty());
    while i < others.len()
        invariant
            om == source_models(others@),
            0 <= i <= others@.len(),
            first is None <==> spec_env_sources(om.take(i as int)).len() == 0,
            first matches Some(f) ==> f < others@.len() && spec_env_sources(om.take(i as int))[0]
                == others@[f as int]@ && spec_opt_text(first_sep) == spec_separator_of(
                others@[f as int]@.options,
            ),
            agree ==> forall|k: int|
                0 <= k < spec_env_sources(om.take(i as int)).len() ==> spec_separator_of(
                    #[trigger] spec_env_sources(om.take(i as int))[k].options,
                ) == spec_separator_of(spec_env_sources(om.take(i as int))[0].options),
            !agree ==> exists|k: int|
                0 <= k < spec_env_sources(om.take(i as int)).len() && spec_separator_of(
                    #[trigger] spec_env_sources(om.take(i as int))[k].options,
                ) != spec_separator_of(spec_env_sources(om.take(i as int))[0].options),
        decreases others@.len() - i,
    {
        proof {
            lemma_env_sources_step(om, i as int);
        }
        let ghost before = spec_env_sources(om.take(i as int));
        let ghost after = spec_env_sources(om.take(i + 1));
        assert(om[i as int] == others@[i as int]@);
        if str_equal(others[i].source(), "env") {
            let sep = separator_of(&others[i]);
            match first {
                None => {
                    first = Some(i);
                    first_sep = sep;
                    assert(after =~= seq![others@[i as int]@]);
                },
                Some(f) => {
                    assert(after =~= before.push(others@[i as int]@));
                    assert(after[0] == before[0]);
                    assert forall|k: int| 0 <= k < before.len() implies after[k] == before[k] by {}
                    if !same_opt(&first_sep, &sep) {
                        agree = false;
                        assert(spec_separator_of(after[before.len() as int].options) != spec_separator_of(after[0].options));
                    } else {
                        proof {
                            if !agree {
                                let k = choose|k: int| 0 <= k < before.len() && spec_separator_of(
                                    #[trigger] before[k].options,
                                ) != spec_separator_of(before[0].options);
                                assert(after[k] == before[k]);
                            }
                        }
                    }
                    proof {
                        if agree {
                            assert forall|k: int| 0 <= k < after.len() implies spec_separator_of(
                                #[trigger] after[k].options,
                            ) == spec_separator_of(after[0].options) by {
                                if k < before.len() {
                                    assert(after[k] == before[k]);
                                }
                            }
                        }
                    }
                },
            }
        } else {
            assert(after == before);
        }
        i = i + 1;
    }
    assert(om.take(others@.len() as int) =~= om);
    if is_env {
        return Some((separator_of(source), lowercase_of(source)));
    }
    match first {
        None => Some((separator_of(source), lowercase_of(source))),
        Some(f) => {
            if agree {
                Some((first_sep, lowercase_of(&others[f])))
            } else {
                None
            }
        },
    }
}

/// The body of a `#` comment line.
fn hash_comment_body(line: &Vec<char>) -> (r: Option<Vec<char>>)
    ensures
        match r {
            Some(b) => spec_hash_comment(line@) == Some(b@),
            None => spec_hash_comment(line@) is None,
        },
{
    let t = trim_chars(line);
    if starts_with_char(&t, '#') {
        let rest = sub_chars(&t, 1, t.len());
        assert(rest@ =~= t@.drop_first());
        Some(trim_start_chars(&rest))
    } else {
        None
    }
}

/// A double-quoted value starting at `input[0]`: the decoded value and the rest of the line.
fn parse_double_quoted_value(input: &Vec<char>) -> (r: Option<(Vec<char>, Vec<char>)>)
    ensures
        match r {
            Some((v, rest)) => spec_dq(input@, 1, Seq::empty()) == Some((v@, rest@)),
            None => spec_dq(input@, 1, Seq::empty()) is None,
        },
{
    let n = input.len();
    let mut out: Vec<char> = Vec::new();
    let mut i: usize = 1;
    while i < n
        invariant
            n == input@.len(),
            1 <= i,
            spec_dq(input@, 1, Seq::empty()) == spec_dq(input@, i as int, out@),
        decreases n - i,
    {
        let ch = input[i];
        if ch == '"' {
            let rest = sub_chars(input, i + 1, n);
            assert(rest@ =~= input@.skip(i + 1));
            return Some((out, rest));
        }
        if ch == '\\' {
            if i + 1 >= n {
                return None;
            }
            let next = input[i + 1];
            if next == 'n' {
                out.push('\n');
            } else if next == 'r' {
                out.push('\r');
            } else if next == 't' {
                out.push('\t');
            } else if next == '"' {
                out.push('"');
            } else if next == '\\' {
                out.push('\\');
            } else {
                out.push('\\');
                out.push(next);
            }
            i = i + 2;
        } else {
            out.push(ch);
            i = i + 1;
        }
    }
    None
}

/// A single-quoted value starting at `input[0]`: the literal value and the rest of the line.
fn parse_single_quoted_value(input: &Vec<char>) -> (r: Option<(Vec<char>, Vec<char>)>)
    requires
        input@.len() > 0,
    ensures
        match r {
            Some((v, rest)) => spec_single_quoted(input@) == Some((v@, rest@)),
            None => spec_single_quoted(input@) is None,
        },
{
    let n = input.len();
    let tail = sub_chars(input, 1, n);
    assert(tail@ =~= input@.drop_first());
    match find_char(&tail, '\'') {
        Some(j) => {
            let v = sub_chars(input, 1, j + 1);
            let rest = sub_chars(input, j + 2, n);
            assert(rest@ =~= input@.skip(j + 2));
            Some((v, rest))
        },
        None => None,
    }
}

/// The value and inline comment of the text after `=`.
#[verifier::rlimit(40)]
fn parse_env_value_and_comment(value_part: &Vec<char>) -> (r: (Vec<char>, Option<Vec<char>>))
    ensures
        spec_value_and_comment(value_part@) == (r.0@, match r.1 {
            Some(c) => Some(c@),
            None => None,
        }),
{
    let t = trim_start_chars(value_part);
    if starts_with_char(&t, '"') {
        match parse_double_quoted_value(&t) {
            Some((v, rest)) => {
                return (v, hash_comment_body(&rest));
            },
            None => {},
        }
    } else if starts_with_char(&t, '\'') {
        match parse_single_quoted_value(&t) {
            Some((v, rest)) => {
                return (v, hash_comment_body(&rest));
            },
            None => {},
        }
    }
    let pat = vec![' ', '#'];
    assert(pat@ =~= " #"@) by {
        reveal_strlit(" #");
    }
    match find_seq(&t, &pat) {
        Some(i) => {
            let t_len = t.len();
            assert(spec_occurs_at(t@, pat@, i as int));
            assert(i + 2 <= t_len);
            let after = sub_chars(&t, i + 1, t_len);
            assert(after@ =~= t@.skip(i + 1));
            let comment = trim_chars(&after);
            if starts_with_char(&comment, '#') {
                let head = sub_chars(&t, 0, i);
                assert(head@ =~= t@.take(i as int));
                let value = trim_end_chars(&head);
                return (value, hash_comment_body(&comment));
            }
        },
        None => {},
    }
    (t, None)
}

/// `s` split at every occurrence of `sep`, as strings.
#[verifier::rlimit(40)]
fn split_key(s: &Vec<char>, sep: &Vec<char>) -> (r: Vec<String>)
    requires
        sep@.len() > 0,
    ensures
        spec_texts(r@) == spec_split(s@, sep@),
{
    let mut parts: Vec<String> = Vec::new();
    let mut rest = sub_chars(s, 0, s.len());
    assert(rest@ =~= s@);
    loop
        invariant
            sep@.len() > 0,
            spec_split(s@, sep@) == spec_texts(parts@) + spec_split(rest@, sep@),
        decreases rest@.len(),
    {
        match find_seq(&rest, sep) {
            Some(i) => {
                let rest_len = rest.len();
                let sep_len = sep.len();
                assert(spec_occurs_at(rest@, sep@, i as int));
                assert(i + sep_len <= rest_len);
                let head = sub_chars(&rest, 0, i);
                let tail = sub_chars(&rest, i + sep_len, rest_len);
                assert(head@ =~= rest@.take(i as int));
                assert(tail@ =~= rest@.skip(i + sep@.len()));
                let ghost before = spec_texts(parts@);
                parts.push(string_from_chars(head.as_slice()));
                assert(spec_texts(parts@) =~= before.push(head@));
                assert(spec_split(rest@, sep@) =~= seq![head@] + spec_split(tail@, sep@));
                assert(spec_texts(parts@) + spec_split(tail@, sep@) =~= before + spec_split(rest@, sep@));
                rest = tail;
            },
            None => {
                let ghost before = spec_texts(parts@);
                parts.push(string_from_chars(rest.as_slice()));
                assert(spec_texts(parts@) =~= before.push(rest@));
                assert(spec_split(rest@, sep@) =~= seq![rest@]);
                assert(spec_texts(parts@) =~= before + spec_split(rest@, sep@));
                return parts;
            },
        }
    }
}

/// `value` stored under the path `parts[from..]` of `map` (see [`spec_insert_nested`]).
fn insert_nested(map: Table, parts: &Vec<String>, from: usize, value: LocatedValue) -> (r: Table)
    requires
        from < parts@.len(),
    ensures
        r@ == spec_insert_nested(map@, spec_texts(parts@), from as int, value@),
    decreases parts@.len() - from,
{
    let mut map = map;
    if from == parts.len() - 1 {
        map.insert(parts[from].clone(), value);
        return map;
    }
    let head = &parts[from];
    let location = value.location().clone();
    match map.get(head.as_str()) {
        Some(existing) => {
            match existing.value() {
                Value::Table(inner) => {
                    let nested = insert_nested(inner.clone_table(), parts, from + 1, value);
                    let replaced = LocatedValue::new(Value::Table(nested), existing.location().clone())
                        .with_comment(existing.comment().clone());
                    map.insert(head.clone(), replaced);
                },
                _ => {
                    let nested = insert_nested(Table::new(), parts, from + 1, value);
                    let replaced = LocatedValue::new(Value::Table(nested), location).with_comment(
                        existing.comment().clone(),
                    );
                    map.insert(head.clone(), replaced);
                },
            }
        },
        None => {
            let nested = insert_nested(Table::new(), parts, from + 1, value);
            map.insert(head.clone(), LocatedValue::new(Value::Table(nested), location));
        },
    }
    map
}

/// Applies line number `n` to the map and the pending comments (see [`spec_env_line`]).
#[verifier::rlimit(60)]
fn env_line(
    map: &mut Table,
    pending: &mut Vec<String>,
    line: &Vec<char>,
    n: usize,
    source: &Source,
    single_line: bool,
    separator: &Option<Vec<char>>,
    lowercase: bool,
    Ghost(ctx): Ghost<EnvContext>,
)
    requires
        ctx.source == source@,
        ctx.single_line == single_line,
        ctx.lowercase == lowercase,
        match separator {
            Some(s) => ctx.separator == Some(s@) && s@.len() > 0,
            None => ctx.separator is None,
        },
    ensures
        (EnvState { map: final(map)@, pending: spec_texts(final(pending)@) }) == spec_env_line(
            EnvState { map: old(map)@, pending: spec_texts(old(pending)@) },
            line@,
            n as nat,
            ctx,
        ),
{
    let trimmed = trim_chars(line);
    if trimmed.len() == 0 {
        return;
    }
    if trimmed[0] == '#' {
        let rest = sub_chars(&trimmed, 1, trimmed.len());
        assert(rest@ =~= trimmed@.drop_first());
        let body = trim_start_chars(&rest);
        let ghost before = spec_texts(pending@);
        pending.push(string_from_chars(body.as_slice()));
        assert(spec_texts(pending@) =~= before.push(body@));
        return;
    }
    let export = vec!['e', 'x', 'p', 'o', 'r', 't', ' '];
    assert(export@ =~= "export "@) by {
        reveal_strlit("export ");
    }
    let body = if starts_with_chars(&trimmed, &export) {
        let rest = sub_chars(&trimmed, 7, trimmed.len());
        assert(rest@ =~= trimmed@.skip(7));
        trim_start_chars(&rest)
    } else {
        trimmed
    };
    let eq = match find_char(&body, '=') {
        Some(i) => i,
        None => {
            return;
        },
    };
    let key_part = sub_chars(&body, 0, eq);
    assert(key_part@ =~= body@.take(eq as int));
    let key = trim_chars(&key_part);
    if key.len() == 0 {
        return;
    }
    let body_len = body.len();
    let value_raw = sub_chars(&body, eq + 1, body_len);
    assert(value_raw@ =~= body@.skip(eq + 1));
    let value_part = trim_chars(&value_raw);
    let column: usize = match find_seq(line, &key) {
        Some(c) => {
            let line_len = line.len();
            assert(spec_occurs_at(line@, key@, c as int));
            assert(c < line_len);
            c + 1
        },
        None => 1,
    };
    let (value, after) = parse_env_value_and_comment(&value_part);
    let location = if single_line {
        Location::in_source(source.clone(), None, None, None)
    } else {
        Location::in_source(source.clone(), Some(n), Some(column), None)
    };
    let key_text = string_from_chars(key.as_slice());
    let final_key = if lowercase {
        to_lowercase(key_text.as_str())
    } else {
        key_text
    };
    let mut taken: Vec<String> = Vec::new();
    std::mem::swap(pending, &mut taken);
    assert(spec_texts(pending@) =~= Seq::<Seq<char>>::empty());
    let after_text = match after {
        Some(a) => Some(string_from_chars(a.as_slice())),
        None => None,
    };
    let comment = Comment::new().with_before(taken).with_after(after_text);
    let lv = LocatedValue::new(Value::String(string_from_chars(value.as_slice())), location)
        .with_comment(comment);
    match separator {
        None => {
            map.insert(final_key, lv);
        },
        Some(sep) => {
            let key_chars = chars_of(final_key.as_str());
            let parts = split_key(&key_chars, sep);
            proof {
                lemma_split_nonempty(key_chars@, sep@);
            }
            let mut whole = Table::new();
            std::mem::swap(map, &mut whole);
            let updated = insert_nested(whole, &parts, 0, lv);
            *map = updated;
        },
    }
}

/// Splitting gives at least one part.
proof fn lemma_split_nonempty(s: Seq<char>, sep: Seq<char>)
    ensures
        spec_split(s, sep).len() >= 1,
    decreases s.len(),
{
    let i = spec_find_seq(s, sep);
    if !(sep.len() == 0 || i < 0 || i + sep.len() > s.len()) {
        lemma_split_nonempty(s.skip(i + sep.len()), sep);
    }
}

/// `true` when an env value must be written in double quotes: it is empty or holds white space,
/// a quote, `#` or `=`.
pub open spec fn spec_needs_quote(v: Seq<char>) -> bool {
    v.len() == 0 || exists|i: int|
        0 <= i < v.len() && (crate::text::spec_is_whitespace(#[trigger] v[i]) || v[i] == '"' || v[i]
            == '\'' || v[i] == '#' || v[i] == '=')
}

/// The escaped form of one character inside double quotes.
pub open spec fn spec_env_escape_char(c: char) -> Seq<char> {
    if c == '"' {
        seq!['\\', '"']
    } else if c == '\\' {
        seq!['\\', '\\']
    } else if c == '\n' {
        seq!['\\', 'n']
    } else if c == '\r' {
        seq!['\\', 'r']
    } else if c == '\t' {
        seq!['\\', 't']
    } else {
        seq![c]
    }
}

/// The escaped form of a string inside double quotes.
pub open spec fn spec_env_escape(v: Seq<char>) -> Seq<char>
    decreases v.len(),
{
    if v.len() == 0 {
        Seq::empty()
    } else {
        spec_env_escape(v.drop_last()) + spec_env_escape_char(v.last())
    }
}

/// How a scalar is written after `=`.
pub open spec fn spec_scalar_text(v: ValueModel) -> Seq<char> {
    match v {
        ValueModel::Bool(b) => if b {
            "true"@
        } else {
            "false"@
        },
        ValueModel::Int(i) => crate::text::spec_int_text(i as int),
        ValueModel::Float(t) => t,
        ValueModel::Str(s) => if spec_needs_quote(s) {
            seq!['"'] + spec_env_escape(s) + seq!['"']
        } else {
            s
        },
        _ => Seq::empty(),
    }
}

/// The comment lines written before an entry: `# ` and the text, ended by a newline unless the
/// text already ends with one.
pub open spec fn spec_before_lines(before: Seq<Seq<char>>) -> Seq<char>
    decreases before.len(),
{
    if before.len() == 0 {
        Seq::empty()
    } else {
        let b = before.last();
        spec_before_lines(before.drop_last()) + "# "@ + b + if b.len() > 0 && b.last() == '\n' {
            Seq::empty()
        } else {
            seq!['\n']
        }
    }
}

/// The lines of one scalar entry under its full key.
pub open spec fn spec_entry_text(item: LocatedModel, full_key: Seq<char>) -> Seq<char> {
    spec_before_lines(item.comment.before) + full_key + seq!['='] + spec_scalar_text(item.value)
        + match item.comment.after {
        Some(a) => " # "@ + a,
        None => Seq::empty(),
    } + seq!['\n']
}

/// The env text of the first `i` entries of a map under `prefix`, or the error text of the first
/// entry that cannot be written: a list, or a nested map when there is no separator. Null entries
/// are left out; nested maps are flattened with the separator between keys.
pub open spec fn spec_write_entries(e: TableModel, prefix: Seq<char>, sep: Option<Seq<char>>, i: int) -> Result<Seq<char>, Seq<char>>
    decreases e, i,
{
    if i <= 0 || i > e.len() {
        Ok(Seq::empty())
    } else {
        match spec_write_entries(e, prefix, sep, i - 1) {
            Err(m) => Err(m),
            Ok(text) => {
                let key = e[i - 1].0;
                let item = e[i - 1].1;
                let full_key = prefix + key;
                match item.value {
                    ValueModel::Null => Ok(text),
                    ValueModel::Table(inner) => match sep {
                        None => Err(
                            "cannot serialize nested map at key "@ + crate::text::debug_text(full_key)
                                + " to env without a separator option"@,
                        ),
                        Some(s) => match spec_write_entries(inner, full_key + s, sep, inner.len() as int) {
                            Ok(t) => Ok(text + t),
                            Err(m) => Err(m),
                        },
                    },
                    ValueModel::List(_) => Err(
                        "cannot serialize list at key "@ + crate::text::debug_text(full_key)
                            + " to env: env has no list representation"@,
                    ),
                    _ => Ok(text + spec_entry_text(item, full_key)),
                }
            },
        }
    }
}

/// The env text of a value: its map written with the `separator` option of `source`, or an error
/// for a root that is not a map.
pub open spec fn spec_unparse(source: SourceModel, v: ValueModel) -> Result<Seq<char>, Seq<char>> {
    match v {
        ValueModel::Table(e) => spec_write_entries(e, Seq::empty(), spec_separator_of(source.options), e.len() as int),
        _ => Err("env root must be a map, found "@ + crate::value::spec_kind_name(v)),
    }
}

/// Once writing fails at some entry, writing any longer prefix fails the same way.
proof fn lemma_write_err(e: TableModel, prefix: Seq<char>, sep: Option<Seq<char>>, i: int, j: int)
    requires
        0 <= i <= j <= e.len(),
        spec_write_entries(e, prefix, sep, i) is Err,
    ensures
        spec_write_entries(e, prefix, sep, j) == spec_write_entries(e, prefix, sep, i),
    decreases j - i,
{
    if i < j {
        lemma_write_err(e, prefix, sep, i, j - 1);
    }
}

/// Whether `v` must be quoted.
fn needs_quote(v: &Vec<char>) -> (r: bool)
    ensures
        r == spec_needs_quote(v@),
{
    if v.len() == 0 {
        return true;
    }
    let mut i: usize = 0;
    while i < v.len()
        invariant
            0 <= i <= v@.len(),
            forall|j: int|
                0 <= j < i ==> !(crate::text::spec_is_whitespace(#[trigger] v@[j]) || v@[j] == '"'
                    || v@[j] == '\'' || v@[j] == '#' || v@[j] == '='),
        decreases v@.len() - i,
    {
        let c = v[i];
        if crate::text::is_whitespace(c) || c == '"' || c == '\'' || c == '#' || c == '=' {
            return true;
        }
        i = i + 1;
    }
    false
}

/// Appends the escaped form of `v` to `out`.
fn push_escaped(out: &mut String, v: &Vec<char>)
    ensures
        final(out)@ == old(out)@ + spec_env_escape(v@),
{
    let mut i: usize = 0;
    while i < v.len()
        invariant
            0 <= i <= v@.len(),
            out@ == old(out)@ + spec_env_escape(v@.take(i as int)),
        decreases v@.len() - i,
    {
        let c = v[i];
        assert(v@.take(i + 1).drop_last() =~= v@.take(i as int));
        if c == '"' {
            out.append("\\\"");
            assert("\\\""@ =~= seq!['\\', '"']) by { reveal_strlit("\\\""); }
        } else if c == '\\' {
            out.append("\\\\");
            assert("\\\\"@ =~= seq!['\\', '\\']) by { reveal_strlit("\\\\"); }
        } else if c == '\n' {
            out.append("\\n");
            assert("\\n"@ =~= seq!['\\', 'n']) by { reveal_strlit("\\n"); }
        } else if c == '\r' {
            out.append("\\r");
            assert("\\r"@ =~= seq!['\\', 'r']) by { reveal_strlit("\\r"); }
        } else if c == '\t' {
            out.append("\\t");
            assert("\\t"@ =~= seq!['\\', 't']) by { reveal_strlit("\\t"); }
        } else {
            crate::text::push_char(out, c);
        }
        i = i + 1;
        assert(out@ =~= old(out)@ + spec_env_escape(v@.take(i as int)));
    }
    assert(v@.take(v@.len() as int) =~= v@);
}

/// Appends how a scalar is written after `=`.
fn push_scalar(out: &mut String, v: &Value)
    ensures
        final(out)@ == old(out)@ + spec_scalar_text(v@),
{
    match v {
        Value::Bool(b) => {
            if *b {
                out.append("true");
            } else {
                out.append("false");
            }
        },
        Value::Int(i) => {
            let digits = crate::text::i64_text(*i as i64);
            crate::text::push_chars(out, digits.as_slice());
        },
        Value::Float(t) => {
            out.append(t.as_str());
        },
        Value::String(s) => {
            let chars = chars_of(s.as_str());
            if needs_quote(&chars) {
                crate::text::push_char(out, '"');
                push_escaped(out, &chars);
                crate::text::push_char(out, '"');
                assert(out@ =~= old(out)@ + spec_scalar_text(v@));
            } else {
                out.append(s.as_str());
            }
        },
        _ => {
            assert(old(out)@ + spec_scalar_text(v@) =~= old(out)@);
        },
    }
}

/// Appends the comment lines written before an entry.
fn push_before(out: &mut String, before: &[String])
    ensures
        final(out)@ == old(out)@ + spec_before_lines(spec_texts(before@)),
{
    let mut i: usize = 0;
    while i < before.len()
        invariant
            0 <= i <= before@.len(),
            out@ == old(out)@ + spec_before_lines(spec_texts(before@.take(i as int))),
        decreases before@.len() - i,
    {
        let b = &before[i];
        out.append("# ");
        out.append(b.as_str());
        let chars = chars_of(b.as_str());
        let ends_newline = chars.len() > 0 && chars[chars.len() - 1] == '\n';
        if !ends_newline {
            crate::text::push_char(out, '\n');
        }
        proof {
            let t = spec_texts(before@.take(i + 1));
            assert(t.drop_last() =~= spec_texts(before@.take(i as int)));
            assert(t.last() == b@);
        }
        i = i + 1;
        assert(out@ =~= old(out)@ + spec_before_lines(spec_texts(before@.take(i as int))));
    }
    assert(before@.take(before@.len() as int) =~= before@);
}

/// Appends the env text of `table` under `prefix` (see [`spec_write_entries`]).
fn write_env(out: &mut String, table: &Table, prefix: &Vec<char>, separator: &Option<Vec<char>>) -> (r: Result<(), String>)
    ensures
        match spec_write_entries(table@, prefix@, match separator {
            Some(s) => Some(s@),
            None => None,
        }, table@.len() as int) {
            Ok(t) => r is Ok && final(out)@ == old(out)@ + t,
            Err(m) => r matches Err(e) && e@ == m,
        },
    decreases table@,
{
    let ghost sep = match separator {
        Some(s) => Some(s@),
        None => None,
    };
    let entries = table.entries();
    let mut i: usize = 0;
    assert(old(out)@ + Seq::<char>::empty() =~= old(out)@);
    while i < entries.len()
        invariant
            entries@.len() == table@.len(),
            forall|k: int| 0 <= k < entries@.len() ==> (#[trigger] entries@[k]).0@ == table@[k].0 && entries@[k].1@ == table@[k].1,
            0 <= i <= entries@.len(),
            sep == match separator {
                Some(s) => Some(s@),
                None => None,
            },
            spec_write_entries(table@, prefix@, sep, i as int) matches Ok(t) && out@ == old(out)@ + t,
        decreases entries@.len() - i,
    {
        let key = &entries[i].0;
        let item = &entries[i].1;
        let ghost text = spec_write_entries(table@, prefix@, sep, i as int)->Ok_0;
        let mut full_key = prefix.clone();
        let key_chars = chars_of(key.as_str());
        let mut k: usize = 0;
        while k < key_chars.len()
            invariant
                0 <= k <= key_chars@.len(),
                full_key@ == prefix@ + key_chars@.take(k as int),
            decreases key_chars@.len() - k,
        {
            full_key.push(key_chars[k]);
            k = k + 1;
            assert(full_key@ =~= prefix@ + key_chars@.take(k as int));
        }
        assert(key_chars@.take(key_chars@.len() as int) =~= key_chars@);
        assert(full_key@ == prefix@ + table@[i as int].0);
        match item.value() {
            Value::Null => {},
            Value::Table(inner) => {
                match separator {
                    None => {
                        let mut msg = "cannot serialize nested map at key ".to_owned();
                        let shown = crate::text::debug_string(string_from_chars(full_key.as_slice()).as_str());
                        msg.append(shown.as_str());
                        msg.append(" to env without a separator option");
                        proof {
                            lemma_write_err(table@, prefix@, sep, i + 1, table@.len() as int);
                        }
                        return Err(msg);
                    },
                    Some(s) => {
                        let mut nested_prefix = full_key.clone();
                        let mut k2: usize = 0;
                        while k2 < s.len()
                            invariant
                                0 <= k2 <= s@.len(),
                                nested_prefix@ == full_key@ + s@.take(k2 as int),
                            decreases s@.len() - k2,
                        {
                            nested_prefix.push(s[k2]);
                            k2 = k2 + 1;
                            assert(nested_prefix@ =~= full_key@ + s@.take(k2 as int));
                        }
                        assert(s@.take(s@.len() as int) =~= s@);
                        proof {
                            assert(decreases_to!(table@ => table@[i as int]));
                            assert(decreases_to!(table@[i as int] => table@[i as int].1));
                            assert(decreases_to!(table@[i as int].1 => table@[i as int].1.value));
                            assert(decreases_to!(table@[i as int].1.value => table@[i as int].1.value->Table_0));
                        }
                        match write_env(out, inner, &nested_prefix, separator) {
                            Ok(()) => {},
                            Err(m) => {
                                proof {
                                    lemma_write_err(table@, prefix@, sep, i + 1, table@.len() as int);
                                }
                                return Err(m);
                            },
                        }
                    },
                }
            },
            Value::List(_) => {
                let mut msg = "cannot serialize list at key ".to_owned();
                let shown = crate::text::debug_string(string_from_chars(full_key.as_slice()).as_str());
                msg.append(shown.as_str());
                msg.append(" to env: env has no list representation");
                proof {
                    lemma_write_err(table@, prefix@, sep, i + 1, table@.len() as int);
                }
                return Err(msg);
            },
            _ => {
                let ghost before_out = out@;
                push_before(out, item.comment().before());
                push_chars(out, full_key.as_slice());
                crate::text::push_char(out, '=');
                push_scalar(out, item.value());
                match item.comment().after() {
                    Some(a) => {
                        out.append(" # ");
                        out.append(a);
                    },
                    None => {},
                }
                crate::text::push_char(out, '\n');
                assert(out@ =~= before_out + spec_entry_text(table@[i as int].1, full_key@));
            },
        }
        i = i + 1;
    }
    Ok(())
}

/// Serialize a map value into env `KEY=VALUE` lines. Nested maps are flattened with the
/// `separator` option of `source`; a nested map without a separator, a list, or a root that is
/// not a map is an error.
pub fn unparse(source: &Source, value: &Value) -> (r: Result<String, String>)
    ensures
        match spec_unparse(source@, value@) {
            Ok(t) => r matches Ok(s) && s@ == t,
            Err(m) => r matches Err(e) && e@ == m,
        },
{
    match value {
        Value::Table(map) => {
            let separator: Option<Vec<char>> = match separator_of(source) {
                Some(s) => Some(chars_of(s.as_str())),
                None => None,
            };
            let mut out = String::new();
            let prefix: Vec<char> = Vec::new();
            assert(prefix@ =~= Seq::<char>::empty());
            match write_env(&mut out, map, &prefix, &separator) {
                Ok(()) => Ok(out),
                Err(m) => Err(m),
            }
        },
        _ => {
            let mut msg = "env root must be a map, found ".to_owned();
            msg.append(value.kind_name());
            Err(msg)
        },
    }
}

} // verus!
