//! Laws of source strings: what parsing gives back of the canonical text.

use vstd::prelude::*;
use crate::text::{
    spec_is_ident_char, spec_is_ident_start, spec_is_digit, spec_nat_text, spec_int_text,
    spec_digit_char,
};
use crate::source::{OptionModel, EntriesModel, SourceModel, spec_keys_unique};
use crate::source_parse::{
    spec_ident_end, spec_digits_value, spec_all_digits, spec_is_int_token, spec_int_value,
    spec_strip_minus,
};
use crate::source_text::{
    spec_all_ident, spec_escape, spec_escape_char, spec_needs_quotes, spec_option_text,
    spec_items_text, spec_entries_text, spec_string_form, spec_source_text,
};
use crate::source_parse::{
    spec_quoted, spec_unescape, spec_is_float_token, spec_canonical_float, spec_contains,
    spec_first_index, spec_token_value, spec_bool_text, lemma_first_index, spec_value, spec_list,
    spec_list_items, spec_table, spec_entries, spec_peek, spec_is_value_stop, spec_key, spec_expect,
    spec_open_message, spec_equals_message, ParseErrorModel,
};
use crate::source::{spec_insert, spec_remove, spec_last_index, lemma_last_index, spec_get};
use crate::source_parse::{spec_trim_leading_zeros, spec_trim_trailing_zeros, lemma_ident_end};
use crate::source_parse::{
    spec_parse, spec_options_part, spec_validate_on_error, spec_check_stages, spec_is_stage_name,
    spec_is_policy,
};
use crate::text::spec_eq_ignore_ascii_case;

verus! {

/// A run of identifier characters ends where the text says it does.
pub proof fn lemma_ident_run(s: Seq<char>, i: int, n: int)
    requires
        0 <= i,
        0 <= n,
        i + n <= s.len(),
        forall|k: int| i <= k < i + n ==> spec_is_ident_char(#[trigger] s[k]),
        i + n == s.len() || !spec_is_ident_char(s[i + n]),
    ensures
        spec_ident_end(s, i) == i + n,
    decreases n,
{
    if n > 0 {
        lemma_ident_run(s, i + 1, n - 1);
    }
}

/// The decimal text of `n` is a non-empty run of digits whose value is `n`.
pub proof fn lemma_nat_text(n: nat)
    ensures
        spec_nat_text(n).len() > 0,
        spec_all_digits(spec_nat_text(n)),
        spec_digits_value(spec_nat_text(n)) == n,
    decreases n,
{
    if n >= 10 {
        lemma_nat_text(n / 10);
        let t = spec_nat_text(n);
        assert(t.drop_last() =~= spec_nat_text(n / 10));
        assert(spec_is_digit(spec_digit_char(n % 10)));
        assert(((spec_digit_char(n % 10) as u32) - 48) as nat == n % 10);
        assert(n == (n / 10) * 10 + n % 10) by (nonlinear_arith);
        assert(t.last() == spec_digit_char(n % 10));
        assert(spec_digits_value(t) == spec_digits_value(t.drop_last()) * 10 + ((t.last() as u32) - 48) as nat);
        assert forall|k: int| 0 <= k < t.len() implies spec_is_digit(#[trigger] t[k]) by {
            if k < t.len() - 1 {
                assert(t[k] == spec_nat_text(n / 10)[k]);
            }
        }
    } else {
        assert(((spec_digit_char(n) as u32) - 48) as nat == n);
        let t = spec_nat_text(n);
        assert(t.drop_last() =~= Seq::<char>::empty());
        assert(spec_digits_value(Seq::<char>::empty()) == 0);
        assert(spec_digits_value(t) == spec_digits_value(t.drop_last()) * 10 + ((t.last() as u32) - 48) as nat);
    }
}

/// The decimal text of an integer is an integer token with that value, made of identifier
/// characters and not starting with a letter.
pub proof fn lemma_int_text(i: int)
    ensures
        spec_is_int_token(spec_int_text(i)),
        spec_int_value(spec_int_text(i)) == i,
        spec_all_ident(spec_int_text(i)),
        spec_int_text(i).len() > 0,
        spec_int_text(i)[0] == '-' || spec_is_digit(spec_int_text(i)[0]),
{
    let t = spec_int_text(i);
    if i < 0 {
        let d = spec_nat_text((-i) as nat);
        lemma_nat_text((-i) as nat);
        assert(t.drop_first() =~= d);
        assert(spec_strip_minus(t) =~= d);
        assert forall|k: int| 0 <= k < t.len() implies spec_is_ident_char(#[trigger] t[k]) by {
            if k > 0 {
                assert(t[k] == d[k - 1]);
                assert(spec_is_digit(d[k - 1]));
            }
        }
    } else {
        lemma_nat_text(i as nat);
        assert(spec_is_digit(t[0]));
        assert forall|k: int| 0 <= k < t.len() implies spec_is_ident_char(#[trigger] t[k]) by {
            assert(spec_is_digit(t[k]));
        }
    }
}


/// Escaping distributes over concatenation.
pub proof fn lemma_escape_append(a: Seq<char>, b: Seq<char>)
    ensures
        spec_escape(a + b) == spec_escape(a) + spec_escape(b),
    decreases b.len(),
{
    if b.len() == 0 {
        assert(a + b =~= a);
        assert(spec_escape(a) + spec_escape(b) =~= spec_escape(a));
    } else {
        lemma_escape_append(a, b.drop_last());
        assert((a + b).drop_last() =~= a + b.drop_last());
        assert((a + b).last() == b.last());
        assert(spec_escape(a + b) =~= spec_escape(a) + spec_escape(b));
    }
}

/// Escaping, seen from the front.
pub proof fn lemma_escape_front(u: Seq<char>)
    requires
        u.len() > 0,
    ensures
        spec_escape(u) == spec_escape_char(u[0]) + spec_escape(u.drop_first()),
{
    let a = seq![u[0]];
    lemma_escape_append(a, u.drop_first());
    assert(a + u.drop_first() =~= u);
    assert(a.drop_last() =~= Seq::<char>::empty());
    assert(spec_escape(Seq::<char>::empty()) =~= Seq::<char>::empty());
    assert(a.last() == u[0]);
    assert(spec_escape(a) == spec_escape(a.drop_last()) + spec_escape_char(a.last()));
    assert(spec_escape(a) =~= spec_escape_char(u[0]));
}

/// Reading back an escaped string up to its closing quote gives the string.
pub proof fn lemma_quoted_escape(s: Seq<char>, start: int, k: int, acc: Seq<char>, u: Seq<char>)
    requires
        0 <= k,
        k + spec_escape(u).len() < s.len(),
        s.subrange(k, k + spec_escape(u).len()) == spec_escape(u),
        s[k + spec_escape(u).len()] == '"',
    ensures
        spec_quoted(s, start, k, acc) == Ok::<(Seq<char>, int), crate::source_parse::ParseErrorModel>((acc + u, k + spec_escape(u).len() + 1)),
    decreases u.len(),
{
    if u.len() == 0 {
        assert(acc + u =~= acc);
    } else {
        lemma_escape_front(u);
        let c = u[0];
        let e = spec_escape_char(c);
        let rest = u.drop_first();
        let n = spec_escape(u).len();
        assert(s.subrange(k, k + n)[0] == s[k]);
        if c == '"' || c == '\\' || c == '\n' || c == '\r' || c == '\t' {
            assert(s[k] == e[0]);
            assert(s[k + 1] == s.subrange(k, k + n)[1]);
            assert(s[k + 1] == e[1]);
            assert(spec_unescape(s[k + 1]) == c);
            assert(s.subrange(k + 2, k + 2 + spec_escape(rest).len()) =~= spec_escape(rest)) by {
                assert forall|x: int| 0 <= x < spec_escape(rest).len() implies
                    s.subrange(k + 2, k + 2 + spec_escape(rest).len())[x] == spec_escape(rest)[x] by {
                    assert(s.subrange(k, k + n)[x + 2] == spec_escape(u)[x + 2]);
                }
            }
            lemma_quoted_escape(s, start, k + 2, acc.push(c), rest);
            assert(acc.push(c) + rest =~= acc + u);
        } else {
            assert(s[k] == c);
            assert(s.subrange(k + 1, k + 1 + spec_escape(rest).len()) =~= spec_escape(rest)) by {
                assert forall|x: int| 0 <= x < spec_escape(rest).len() implies
                    s.subrange(k + 1, k + 1 + spec_escape(rest).len())[x] == spec_escape(rest)[x] by {
                    assert(s.subrange(k, k + n)[x + 1] == spec_escape(u)[x + 1]);
                }
            }
            lemma_quoted_escape(s, start, k + 1, acc.push(c), rest);
            assert(acc.push(c) + rest =~= acc + u);
        }
    }
}


/// `t` is an identifier: non-empty, identifier characters, not starting with a digit.
pub open spec fn spec_is_identifier(t: Seq<char>) -> bool {
    t.len() > 0 && spec_is_ident_start(t[0]) && spec_all_ident(t)
}

/// An option value whose canonical text reads back as itself: floats in canonical form; lists
/// and maps of such values, map keys unique identifiers.
pub open spec fn spec_option_wf(v: OptionModel) -> bool
    decreases v, 0int,
{
    match v {
        OptionModel::Float(t) => spec_is_float_token(t) && spec_canonical_float(t) == t,
        OptionModel::List(l) => forall|i: int| 0 <= i < l.len() ==> spec_option_wf(#[trigger] l[i]),
        OptionModel::Table(e) => spec_keys_unique(e) && forall|i: int|
            0 <= i < e.len() ==> spec_is_identifier(#[trigger] e[i].0) && spec_option_wf(e[i].1),
        _ => true,
    }
}

/// Options whose canonical text reads back as themselves.
pub open spec fn spec_entries_wf(e: EntriesModel) -> bool {
    spec_keys_unique(e) && forall|i: int|
        0 <= i < e.len() ==> spec_is_identifier(#[trigger] e[i].0) && spec_option_wf(e[i].1)
}

/// The first character of a written value: an identifier character, `"`, `[` or `(`.
pub proof fn lemma_text_first(v: OptionModel)
    requires
        spec_option_wf(v),
    ensures
        spec_option_text(v).len() > 0,
        spec_is_ident_char(spec_option_text(v)[0]) || spec_option_text(v)[0] == '"'
            || spec_option_text(v)[0] == '[' || spec_option_text(v)[0] == '(',
{
    match v {
        OptionModel::Bool(b) => {
            reveal_strlit("true");
            reveal_strlit("false");
        },
        OptionModel::Integer(i) => {
            lemma_int_text(i as int);
        },
        OptionModel::Float(t) => {
            lemma_float_token_chars(t);
        },
        OptionModel::Str(t) => {},
        OptionModel::List(l) => {},
        OptionModel::Table(e) => {},
    }
}

/// A float token is made of identifier characters, starts with `-` or a digit, and holds a `.`.
pub proof fn lemma_float_token_chars(t: Seq<char>)
    requires
        spec_is_float_token(t),
    ensures
        t.len() > 0,
        spec_all_ident(t),
        t[0] == '-' || spec_is_digit(t[0]),
        spec_contains(t, '.'),
{
    let neg = t.len() > 0 && t[0] == '-';
    let body = crate::source_parse::spec_strip_minus(t);
    let dot = spec_first_index(body, '.');
    lemma_first_index(body, '.');
    let off: int = if neg { 1 } else { 0 };
    assert forall|k: int| 0 <= k < body.len() implies spec_is_ident_char(#[trigger] body[k]) by {
        if k < dot {
            assert(body.subrange(0, dot)[k] == body[k]);
        } else if k > dot {
            assert(body.subrange(dot + 1, body.len() as int)[k - dot - 1] == body[k]);
        }
    }
    assert(body.subrange(0, dot)[0] == body[0]);
    assert forall|k: int| 0 <= k < t.len() implies spec_is_ident_char(#[trigger] t[k]) by {
        if neg {
            if k > 0 {
                assert(t[k] == body[k - 1]);
            }
        } else {
            assert(t[k] == body[k]);
        }
    }
    if neg {
        assert(t[dot + 1] == body[dot]);
    } else {
        assert(t[dot] == body[dot]);
    }
}

/// An unquoted token reads back as the value that was written.
pub proof fn lemma_token_roundtrip(v: OptionModel, at: int)
    requires
        spec_option_wf(v),
        !(v is List),
        !(v is Table),
        !(v matches OptionModel::Str(t) && spec_needs_quotes(t)),
    ensures
        spec_token_value(spec_option_text(v), at) == Ok::<OptionModel, crate::source_parse::ParseErrorModel>(v),
        spec_all_ident(spec_option_text(v)),
{
    reveal_strlit("true");
    reveal_strlit("false");
    let t = spec_option_text(v);
    match v {
        OptionModel::Bool(b) => {
            assert(spec_eq_ignore_ascii_case(t, t));
            if !b {
                assert(!spec_eq_ignore_ascii_case(t, "true"@));
            }
            assert(!spec_contains("true"@, '.'));
            assert(!spec_contains("false"@, '.'));
        },
        OptionModel::Integer(i) => {
            lemma_int_text(i as int);
            assert(!spec_eq_ignore_ascii_case(t, "true"@)) by {
                if t.len() == 4 {
                    assert(crate::text::spec_ascii_lower(t[0]) != crate::text::spec_ascii_lower("true"@[0]));
                }
            }
            assert(!spec_eq_ignore_ascii_case(t, "false"@)) by {
                if t.len() == 5 {
                    assert(crate::text::spec_ascii_lower(t[0]) != crate::text::spec_ascii_lower("false"@[0]));
                }
            }
            assert(!spec_contains(t, '.')) by {
                assert forall|k: int| 0 <= k < t.len() implies t[k] != '.' by {
                    if t[0] == '-' {
                        if k > 0 {
                            assert(spec_strip_minus(t)[k - 1] == t[k]);
                            assert(spec_is_digit(spec_strip_minus(t)[k - 1]));
                        }
                    } else {
                        assert(spec_strip_minus(t) == t);
                        assert(spec_is_digit(t[k]));
                    }
                }
            }
        },
        OptionModel::Float(f) => {
            lemma_float_token_chars(f);
            assert(!spec_eq_ignore_ascii_case(t, "true"@)) by {
                if t.len() == 4 {
                    assert(crate::text::spec_ascii_lower(t[0]) != crate::text::spec_ascii_lower("true"@[0]));
                }
            }
            assert(!spec_eq_ignore_ascii_case(t, "false"@)) by {
                if t.len() == 5 {
                    assert(crate::text::spec_ascii_lower(t[0]) != crate::text::spec_ascii_lower("false"@[0]));
                }
            }
        },
        OptionModel::Str(u) => {},
        _ => {},
    }
}


/// A piece of a piece of `s` is a piece of `s`.
pub proof fn lemma_sub(s: Seq<char>, a: int, t: Seq<char>, x: int, u: Seq<char>)
    requires
        0 <= a,
        a + t.len() <= s.len(),
        s.subrange(a, a + t.len()) == t,
        0 <= x,
        x + u.len() <= t.len(),
        t.subrange(x, x + u.len()) == u,
    ensures
        s.subrange(a + x, a + x + u.len()) == u,
{
    assert forall|k: int| 0 <= k < u.len() implies s.subrange(a + x, a + x + u.len())[k] == u[k] by {
        assert(t.subrange(x, x + u.len())[k] == t[x + k]);
        assert(s.subrange(a, a + t.len())[x + k] == s[a + x + k]);
    }
    assert(s.subrange(a + x, a + x + u.len()) =~= u);
}

/// The written list items grow one item at a time.
pub proof fn lemma_items_step(l: Seq<OptionModel>, j: int)
    requires
        0 <= j < l.len(),
    ensures
        spec_items_text(l, j + 1) == spec_items_text(l, j) + (if j > 0 { seq![','] } else { Seq::empty() }) + spec_option_text(l[j]),
{
    if j == 0 {
        assert(spec_items_text(l, 0) =~= Seq::<char>::empty());
        assert(spec_items_text(l, 1) =~= Seq::<char>::empty() + Seq::<char>::empty() + spec_option_text(l[0]));
    }
}

/// Fewer written items are a prefix of more.
pub proof fn lemma_items_prefix(l: Seq<OptionModel>, m: int, n: int)
    requires
        0 <= m <= n <= l.len(),
    ensures
        spec_items_text(l, m).len() <= spec_items_text(l, n).len(),
        spec_items_text(l, n).subrange(0, spec_items_text(l, m).len() as int) == spec_items_text(l, m),
    decreases n - m,
{
    if m < n {
        lemma_items_prefix(l, m, n - 1);
        lemma_items_step(l, n - 1);
        let a = spec_items_text(l, n - 1);
        let b = spec_items_text(l, n);
        assert(b.subrange(0, a.len() as int) =~= a);
        assert(b.subrange(0, spec_items_text(l, m).len() as int) =~= a.subrange(0, spec_items_text(l, m).len() as int));
    } else {
        assert(spec_items_text(l, n).subrange(0, spec_items_text(l, n).len() as int) =~= spec_items_text(l, n));
    }
}

/// The written entries grow one entry at a time.
pub proof fn lemma_entries_step(e: EntriesModel, j: int)
    requires
        0 <= j < e.len(),
    ensures
        spec_entries_text(e, j + 1) == spec_entries_text(e, j) + (if j > 0 { seq![','] } else { Seq::empty() }) + e[j].0 + seq!['='] + spec_option_text(e[j].1),
{
    if j == 0 {
        assert(spec_entries_text(e, 0) =~= Seq::<char>::empty());
        assert(spec_entries_text(e, 1) =~= Seq::<char>::empty() + Seq::<char>::empty() + e[0].0 + seq!['='] + spec_option_text(e[0].1));
    }
}

/// Fewer written entries are a prefix of more.
pub proof fn lemma_entries_prefix(e: EntriesModel, m: int, n: int)
    requires
        0 <= m <= n <= e.len(),
    ensures
        spec_entries_text(e, m).len() <= spec_entries_text(e, n).len(),
        spec_entries_text(e, n).subrange(0, spec_entries_text(e, m).len() as int) == spec_entries_text(e, m),
    decreases n - m,
{
    if m < n {
        lemma_entries_prefix(e, m, n - 1);
        lemma_entries_step(e, n - 1);
        let a = spec_entries_text(e, n - 1);
        let b = spec_entries_text(e, n);
        assert(b.subrange(0, a.len() as int) =~= a);
        assert(b.subrange(0, spec_entries_text(e, m).len() as int) =~= a.subrange(0, spec_entries_text(e, m).len() as int));
    } else {
        assert(spec_entries_text(e, n).subrange(0, spec_entries_text(e, n).len() as int) =~= spec_entries_text(e, n));
    }
}

/// Inserting a key that is not there yet appends the entry.
pub proof fn lemma_insert_fresh(acc: EntriesModel, key: Seq<char>, v: OptionModel)
    requires
        forall|i: int| 0 <= i < acc.len() ==> acc[i].0 != key,
    ensures
        spec_insert(acc, key, v) == acc.push((key, v)),
{
    lemma_last_index(acc, key);
}


/// A well-formed value written at `i`, followed by a character that cannot continue a token,
/// reads back as itself.
pub proof fn lemma_value_roundtrip(v: OptionModel, s: Seq<char>, i: int)
    requires
        spec_option_wf(v),
        0 <= i,
        i + spec_option_text(v).len() < s.len(),
        s.subrange(i, i + spec_option_text(v).len()) == spec_option_text(v),
        !spec_is_ident_char(s[i + spec_option_text(v).len()]),
    ensures
        spec_value(s, i) == Ok::<(OptionModel, int), ParseErrorModel>((v, i + spec_option_text(v).len())),
    decreases v, 0int,
{
    let t = spec_option_text(v);
    let n = t.len() as int;
    lemma_text_first(v);
    assert(s[i] == t[0]) by {
        assert(s.subrange(i, i + n)[0] == s[i]);
    }
    match v {
        OptionModel::List(l) => {
            lemma_list_roundtrip(l, s, i);
        },
        OptionModel::Table(e) => {
            lemma_table_roundtrip(e, s, i, false);
        },
        OptionModel::Str(u) => {
            if spec_needs_quotes(u) {
                let eu = spec_escape(u);
                assert(t == seq!['"'] + eu + seq!['"']);
                assert(t.subrange(1, 1 + eu.len() as int) =~= eu);
                lemma_sub(s, i, t, 1, eu);
                assert(s[i + 1 + eu.len() as int] == '"') by {
                    assert(s.subrange(i, i + n)[1 + eu.len() as int] == s[i + 1 + eu.len() as int]);
                }
                lemma_quoted_escape(s, i + 1, i + 1, Seq::empty(), u);
                assert(Seq::<char>::empty() + u =~= u);
            } else {
                lemma_token_roundtrip(v, i);
                assert forall|k: int| i <= k < i + n implies spec_is_ident_char(#[trigger] s[k]) by {
                    assert(s.subrange(i, i + n)[k - i] == s[k]);
                }
                lemma_ident_run(s, i, n);
                assert(s.subrange(i, i + n) == t);
            }
        },
        _ => {
            lemma_token_roundtrip(v, i);
            assert forall|k: int| i <= k < i + n implies spec_is_ident_char(#[trigger] s[k]) by {
                assert(s.subrange(i, i + n)[k - i] == s[k]);
            }
            lemma_ident_run(s, i, n);
            assert(s.subrange(i, i + n) == t);
        },
    }
}

/// A well-formed list written at `i` reads back as itself.
pub proof fn lemma_list_roundtrip(l: Seq<OptionModel>, s: Seq<char>, i: int)
    requires
        forall|k: int| 0 <= k < l.len() ==> spec_option_wf(#[trigger] l[k]),
        0 <= i,
        i + spec_option_text(OptionModel::List(l)).len() <= s.len(),
        s.subrange(i, i + spec_option_text(OptionModel::List(l)).len()) == spec_option_text(OptionModel::List(l)),
    ensures
        spec_list(s, i) == Ok::<(OptionModel, int), ParseErrorModel>((OptionModel::List(l), i + spec_option_text(OptionModel::List(l)).len())),
    decreases l, l.len() + 1,
{
    let t = spec_option_text(OptionModel::List(l));
    let items = spec_items_text(l, l.len() as int);
    let n = t.len() as int;
    assert(t == seq!['['] + items + seq![']']);
    assert(s[i] == '[') by {
        assert(s.subrange(i, i + n)[0] == s[i]);
    }
    assert(s[i + 1 + items.len() as int] == ']') by {
        assert(s.subrange(i, i + n)[1 + items.len() as int] == s[i + 1 + items.len() as int]);
    }
    assert(t.subrange(1, 1 + items.len() as int) =~= items);
    lemma_sub(s, i, t, 1, items);
    if l.len() == 0 {
        assert(items =~= Seq::<char>::empty());
        assert(l =~= Seq::<OptionModel>::empty());
    } else {
        lemma_items_step(l, 0);
        lemma_items_prefix(l, 1, l.len() as int);
        lemma_text_first(l[0]);
        assert(s[i + 1] == spec_option_text(l[0])[0]) by {
            assert(items.subrange(0, spec_items_text(l, 1).len() as int)[0] == items[0]);
            assert(s.subrange(i + 1, i + 1 + items.len() as int)[0] == s[i + 1]);
        }
        lemma_items_roundtrip(l, 0, s, i + 1);
        assert(spec_items_text(l, 0) =~= Seq::<char>::empty());
        assert(l.subrange(0, 0) =~= Seq::<OptionModel>::empty());
    }
}

/// Well-formed list items written from `k0`, closed by `]`, read back from item `j` on.
#[verifier::rlimit(40)]
pub proof fn lemma_items_roundtrip(l: Seq<OptionModel>, j: int, s: Seq<char>, k0: int)
    requires
        forall|k: int| 0 <= k < l.len() ==> spec_option_wf(#[trigger] l[k]),
        0 <= j < l.len(),
        0 <= k0,
        k0 + spec_items_text(l, l.len() as int).len() < s.len(),
        s.subrange(k0, k0 + spec_items_text(l, l.len() as int).len()) == spec_items_text(l, l.len() as int),
        s[k0 + spec_items_text(l, l.len() as int).len()] == ']',
    ensures
        spec_list_items(s, k0 + spec_items_text(l, j).len() + (if j > 0 { 1int } else { 0int }), l.subrange(0, j))
            == Ok::<(OptionModel, int), ParseErrorModel>((OptionModel::List(l), k0 + spec_items_text(l, l.len() as int).len() + 1)),
    decreases l, l.len() - j,
{
    let all = spec_items_text(l, l.len() as int);
    let sep: int = if j > 0 { 1 } else { 0 };
    let p = k0 + spec_items_text(l, j).len() + sep;
    let tj = spec_option_text(l[j]);
    lemma_items_step(l, j);
    lemma_items_prefix(l, j + 1, l.len() as int);
    let upto = spec_items_text(l, j + 1);
    let q = k0 + upto.len();
    assert(upto.subrange(spec_items_text(l, j).len() + sep, upto.len() as int) =~= tj);
    assert(all.subrange(0, upto.len() as int) == upto);
    assert(all.subrange(spec_items_text(l, j).len() + sep, spec_items_text(l, j).len() + sep + tj.len()) =~= tj) by {
        assert forall|x: int| 0 <= x < tj.len() implies all[spec_items_text(l, j).len() + sep + x] == tj[x] by {
            assert(all.subrange(0, upto.len() as int)[spec_items_text(l, j).len() + sep + x] == all[spec_items_text(l, j).len() + sep + x]);
        }
    }
    lemma_sub(s, k0, all, spec_items_text(l, j).len() + sep, tj);
    if j + 1 < l.len() {
        lemma_items_step(l, j + 1);
        lemma_items_prefix(l, j + 2, l.len() as int);
        lemma_text_first(l[j + 1]);
        let upto2 = spec_items_text(l, j + 2);
        assert(all.subrange(0, upto2.len() as int) == upto2);
        assert(s[q] == ',') by {
            assert(upto2[upto.len() as int] == ',');
            assert(all.subrange(0, upto2.len() as int)[upto.len() as int] == all[upto.len() as int]);
            assert(s.subrange(k0, k0 + all.len())[upto.len() as int] == s[q]);
        }
        assert(s[q + 1] == spec_option_text(l[j + 1])[0]) by {
            assert(upto2[upto.len() as int + 1] == spec_option_text(l[j + 1])[0]);
            assert(all.subrange(0, upto2.len() as int)[upto.len() as int + 1] == all[upto.len() as int + 1]);
            assert(s.subrange(k0, k0 + all.len())[upto.len() as int + 1] == s[q + 1]);
        }
        assert(decreases_to!(l => l[j]));
        lemma_value_roundtrip(l[j], s, p);
        lemma_items_roundtrip(l, j + 1, s, k0);
        assert(l.subrange(0, j).push(l[j]) =~= l.subrange(0, j + 1));
    } else {
        assert(upto == all);
        assert(decreases_to!(l => l[j]));
        lemma_value_roundtrip(l[j], s, p);
        assert(l.subrange(0, j).push(l[j]) =~= l);
    }
}

/// A well-formed map (or options block) written at `i` reads back as itself.
pub proof fn lemma_table_roundtrip(e: EntriesModel, s: Seq<char>, i: int, is_options: bool)
    requires
        spec_entries_wf(e),
        0 <= i,
        i + spec_option_text(OptionModel::Table(e)).len() <= s.len(),
        s.subrange(i, i + spec_option_text(OptionModel::Table(e)).len()) == spec_option_text(OptionModel::Table(e)),
    ensures
        spec_table(s, i, is_options) == Ok::<(EntriesModel, int), ParseErrorModel>((e, i + spec_option_text(OptionModel::Table(e)).len())),
    decreases e, e.len() + 1,
{
    let t = spec_option_text(OptionModel::Table(e));
    let body = spec_entries_text(e, e.len() as int);
    let n = t.len() as int;
    assert(t == seq!['('] + body + seq![')']);
    assert(s[i] == '(') by {
        assert(s.subrange(i, i + n)[0] == s[i]);
    }
    assert(s[i + 1 + body.len() as int] == ')') by {
        assert(s.subrange(i, i + n)[1 + body.len() as int] == s[i + 1 + body.len() as int]);
    }
    assert(t.subrange(1, 1 + body.len() as int) =~= body);
    lemma_sub(s, i, t, 1, body);
    if e.len() == 0 {
        assert(body =~= Seq::<char>::empty());
        assert(e =~= Seq::<(Seq<char>, OptionModel)>::empty());
    } else {
        lemma_entries_step(e, 0);
        lemma_entries_prefix(e, 1, e.len() as int);
        assert(spec_is_identifier(e[0].0));
        assert(s[i + 1] == e[0].0[0]) by {
            assert(spec_entries_text(e, 1)[0] == e[0].0[0]);
            assert(body.subrange(0, spec_entries_text(e, 1).len() as int)[0] == body[0]);
            assert(s.subrange(i + 1, i + 1 + body.len() as int)[0] == s[i + 1]);
        }
        lemma_entries_roundtrip(e, 0, s, i + 1, is_options);
        assert(spec_entries_text(e, 0) =~= Seq::<char>::empty());
        assert(e.subrange(0, 0) =~= Seq::<(Seq<char>, OptionModel)>::empty());
    }
}

/// Well-formed entries written from `k0`, closed by `)`, read back from entry `j` on.
#[verifier::rlimit(60)]
pub proof fn lemma_entries_roundtrip(e: EntriesModel, j: int, s: Seq<char>, k0: int, is_options: bool)
    requires
        spec_entries_wf(e),
        0 <= j < e.len(),
        0 <= k0,
        k0 + spec_entries_text(e, e.len() as int).len() < s.len(),
        s.subrange(k0, k0 + spec_entries_text(e, e.len() as int).len()) == spec_entries_text(e, e.len() as int),
        s[k0 + spec_entries_text(e, e.len() as int).len()] == ')',
    ensures
        spec_entries(s, k0 + spec_entries_text(e, j).len() + (if j > 0 { 1int } else { 0int }), e.subrange(0, j), is_options)
            == Ok::<(EntriesModel, int), ParseErrorModel>((e, k0 + spec_entries_text(e, e.len() as int).len() + 1)),
    decreases e, e.len() - j,
{
    let all = spec_entries_text(e, e.len() as int);
    let sep: int = if j > 0 { 1 } else { 0 };
    let before = spec_entries_text(e, j).len() + sep;
    let p = k0 + before;
    let key = e[j].0;
    let v = e[j].1;
    let tv = spec_option_text(v);
    let piece = key + seq!['='] + tv;
    lemma_entries_step(e, j);
    lemma_entries_prefix(e, j + 1, e.len() as int);
    let upto = spec_entries_text(e, j + 1);
    let q = k0 + upto.len();
    assert(all.subrange(0, upto.len() as int) == upto);
    assert(all.subrange(before, before + piece.len()) =~= piece) by {
        assert forall|x: int| 0 <= x < piece.len() implies all[before + x] == piece[x] by {
            assert(upto[before + x] == piece[x]);
            assert(all.subrange(0, upto.len() as int)[before + x] == all[before + x]);
        }
    }
    lemma_sub(s, k0, all, before, piece);
    assert(piece.subrange(0, key.len() as int) =~= key);
    lemma_sub(s, p, piece, 0, key);
    assert(piece.subrange(key.len() as int + 1, piece.len() as int) =~= tv);
    lemma_sub(s, p, piece, key.len() as int + 1, tv);
    assert(s[p + key.len()] == '=') by {
        assert(s.subrange(p, p + piece.len())[key.len() as int] == s[p + key.len()]);
    }
    assert(spec_is_identifier(key));
    assert forall|k: int| p <= k < p + key.len() implies spec_is_ident_char(#[trigger] s[k]) by {
        assert(s.subrange(p, p + key.len())[k - p] == s[k]);
    }
    lemma_ident_run(s, p, key.len() as int);
    assert(s[p] == key[0]) by {
        assert(s.subrange(p, p + key.len())[0] == s[p]);
    }
    assert(spec_key(s, p) == Ok::<(Seq<char>, int), ParseErrorModel>((key, p + key.len())));
    let k2 = p + key.len() + 1;
    assert(spec_expect(s, p + key.len(), '=', spec_equals_message(is_options)) == Ok::<int, ParseErrorModel>(k2));
    lemma_insert_fresh(e.subrange(0, j), key, v);
    assert(e.subrange(0, j).push((key, v)) =~= e.subrange(0, j + 1));
    if j + 1 < e.len() {
        lemma_entries_step(e, j + 1);
        lemma_entries_prefix(e, j + 2, e.len() as int);
        let upto2 = spec_entries_text(e, j + 2);
        assert(spec_is_identifier(e[j + 1].0));
        assert(all.subrange(0, upto2.len() as int) == upto2);
        assert(s[q] == ',') by {
            assert(upto2[upto.len() as int] == ',');
            assert(all.subrange(0, upto2.len() as int)[upto.len() as int] == all[upto.len() as int]);
            assert(s.subrange(k0, k0 + all.len())[upto.len() as int] == s[q]);
        }
        assert(s[q + 1] == e[j + 1].0[0]) by {
            assert(upto2[upto.len() as int + 1] == e[j + 1].0[0]);
            assert(all.subrange(0, upto2.len() as int)[upto.len() as int + 1] == all[upto.len() as int + 1]);
            assert(s.subrange(k0, k0 + all.len())[upto.len() as int + 1] == s[q + 1]);
        }
        assert(decreases_to!(e => e[j]));
        assert(decreases_to!(e[j] => e[j].1));
        lemma_value_roundtrip(v, s, k2);
        lemma_entries_roundtrip(e, j + 1, s, k0, is_options);
    } else {
        assert(upto == all);
        assert(decreases_to!(e => e[j]));
        assert(decreases_to!(e[j] => e[j].1));
        lemma_value_roundtrip(v, s, k2);
        assert(e.subrange(0, j + 1) =~= e);
    }
}


/// A source whose canonical text reads back as itself: an identifier as loader name,
/// well-formed options with a valid `on_error`, and the `:` separator whenever there is a
/// resource.
pub open spec fn spec_source_wf(m: SourceModel) -> bool {
    &&& spec_is_identifier(m.source)
    &&& spec_entries_wf(m.options)
    &&& spec_validate_on_error(m.options) is None
    &&& (m.resource.len() > 0 ==> m.resource_colon)
}

/// Parsing the canonical text of a well-formed source gives the source back:
/// `parse(source.to_string()) == Ok(source)`.
pub proof fn law_parse_source_text(m: SourceModel)
    requires
        spec_source_wf(m),
    ensures
        spec_parse(spec_source_text(m)) == Ok::<SourceModel, ParseErrorModel>(m),
{
    let s = spec_source_text(m);
    let src = m.source;
    let opt_text = if m.options.len() > 0 {
        seq!['('] + spec_entries_text(m.options, m.options.len() as int) + seq![')']
    } else {
        Seq::<char>::empty()
    };
    let colon = m.resource_colon || m.resource.len() > 0;
    let res_text = if colon { seq![':'] + m.resource } else { Seq::<char>::empty() };
    assert(s == src + opt_text + res_text);
    let j = src.len() as int;
    let k = j + opt_text.len();
    assert(s.subrange(0, j) =~= src);
    assert(s.subrange(j, k) =~= opt_text);
    assert(s.subrange(k, s.len() as int) =~= res_text);
    assert(s[0] == src[0]);
    // The loader name ends at the first character after it.
    assert forall|x: int| 0 <= x < j implies spec_is_ident_char(#[trigger] s[x]) by {
        assert(s[x] == src[x]);
    }
    if j < s.len() {
        if m.options.len() > 0 {
            assert(s[j] == opt_text[0]);
        } else {
            assert(s[j] == res_text[0]);
        }
    }
    lemma_ident_run(s, 0, j);
    if m.options.len() > 0 {
        assert(s[j] == '(');
        assert(opt_text == spec_option_text(OptionModel::Table(m.options)));
        lemma_table_roundtrip(m.options, s, j, true);
        assert(spec_options_part(s, j) == Ok::<(EntriesModel, int), ParseErrorModel>((m.options, k)));
    } else {
        assert(m.options =~= Seq::<(Seq<char>, OptionModel)>::empty());
        if j < s.len() {
            assert(s[j] == ':');
        }
        assert(spec_options_part(s, j) == Ok::<(EntriesModel, int), ParseErrorModel>((m.options, k)));
    }
    if colon {
        assert(s[k] == ':');
        assert(s.subrange(k + 1, s.len() as int) =~= m.resource);
        assert(m.resource_colon);
    } else {
        assert(k == s.len());
        assert(m.resource =~= Seq::<char>::empty());
    }
}


/// Reading a key right after inserting it gives the inserted value.
pub proof fn law_get_after_insert(e: EntriesModel, key: Seq<char>, value: OptionModel)
    ensures
        spec_get(spec_insert(e, key, value), key) == Some(value),
{
    let r = spec_insert(e, key, value);
    lemma_last_index(r, key);
    lemma_last_index(e, key);
}

/// Inserting one key leaves what every other key reads unchanged.
pub proof fn law_get_other_after_insert(e: EntriesModel, key: Seq<char>, value: OptionModel, other: Seq<char>)
    requires
        other != key,
    ensures
        spec_get(spec_insert(e, key, value), other) == spec_get(e, other),
{
    let r = spec_remove(e, key);
    let ins = spec_insert(e, key, value);
    lemma_last_index(e, key);
    lemma_last_index(e, other);
    lemma_last_index(r, other);
    lemma_last_index(ins, other);
    let i = spec_last_index(e, key);
    let a = spec_last_index(e, other);
    let b = spec_last_index(ins, other);
    if i >= 0 {
        // Removing the entry at `i` shifts later entries down by one.
        if a >= 0 {
            let a2 = if a < i { a } else { a - 1 };
            assert(ins[a2] == e[a]);
            assert(ins[a2].0 == other);
            if b > a2 {
                let orig = if b < i { b } else { b + 1 };
                assert(e[orig] == ins[b]);
            }
            assert(b == a2);
        } else {
            if b >= 0 {
                let orig = if b < i { b } else { b + 1 };
                assert(e[orig] == ins[b]);
            }
        }
    } else {
        if a >= 0 {
            assert(ins[a] == e[a]);
            if b > a {
                assert(ins[b] == e[b]);
            }
        } else {
            if b >= 0 {
                assert(ins[b] == e[b]);
            }
        }
    }
}

/// Inserting into a map with unique keys keeps the keys unique.
pub proof fn law_insert_keeps_keys_unique(e: EntriesModel, key: Seq<char>, value: OptionModel)
    requires
        spec_keys_unique(e),
    ensures
        spec_keys_unique(spec_insert(e, key, value)),
{
    lemma_last_index(e, key);
    let i = spec_last_index(e, key);
    let r = spec_remove(e, key);
    let ins = spec_insert(e, key, value);
    assert forall|x: int, y: int| 0 <= x < y < ins.len() implies ins[x].0 != ins[y].0 by {
        if y == ins.len() - 1 {
            if i >= 0 {
                let ox = if x < i { x } else { x + 1 };
                assert(r[x] == e[ox]);
                assert(e[ox].0 != e[i].0 || ox == i);
            } else {
                assert(r[x] == e[x]);
            }
        } else {
            if i >= 0 {
                let ox = if x < i { x } else { x + 1 };
                let oy = if y < i { y } else { y + 1 };
                assert(r[x] == e[ox]);
                assert(r[y] == e[oy]);
            } else {
                assert(r[x] == e[x]);
                assert(r[y] == e[y]);
            }
        }
    }
}

/// Inserting a key adds one entry when the key is new and keeps the length when it replaces one.
pub proof fn law_insert_len(e: EntriesModel, key: Seq<char>, value: OptionModel)
    ensures
        spec_insert(e, key, value).len() == e.len() + if spec_get(e, key) is Some { 0int } else { 1int },
{
    lemma_last_index(e, key);
}

/// In a map with unique keys, a removed key is gone.
pub proof fn law_get_after_remove(e: EntriesModel, key: Seq<char>)
    requires
        spec_keys_unique(e),
    ensures
        spec_get(spec_remove(e, key), key) is None,
{
    lemma_last_index(e, key);
    let i = spec_last_index(e, key);
    let r = spec_remove(e, key);
    lemma_last_index(r, key);
    if i >= 0 {
        assert forall|x: int| 0 <= x < r.len() implies r[x].0 != key by {
            let ox = if x < i { x } else { x + 1 };
            assert(r[x] == e[ox]);
        }
    }
}

/// The `on_error` entries from `i` on are all stage names with a policy when no problem is found
/// among them.
proof fn lemma_check_stages(m: EntriesModel, i: int)
    requires
        0 <= i,
        spec_check_stages(m, i) is None,
    ensures
        forall|k: int| i <= k < m.len() ==> spec_is_stage_name(#[trigger] m[k].0) && spec_is_policy(m[k].1),
    decreases m.len() - i,
{
    if i < m.len() {
        lemma_check_stages(m, i + 1);
    }
}

/// A source that parses has an `on_error` option, when it has one, that is a map from the stages
/// `load`, `parse` and `validate` to `skip` or `fail` (in any ASCII case).
pub proof fn law_parsed_on_error_is_valid(s: Seq<char>)
    requires
        spec_parse(s) is Ok,
    ensures
        match spec_get(spec_parse(s)->Ok_0.options, "on_error"@) {
            None => true,
            Some(OptionModel::Table(m)) => forall|k: int|
                0 <= k < m.len() ==> spec_is_stage_name(#[trigger] m[k].0) && spec_is_policy(m[k].1),
            Some(_) => false,
        },
{
    let o = spec_parse(s)->Ok_0.options;
    assert(spec_validate_on_error(o) is None);
    match spec_get(o, "on_error"@) {
        Some(OptionModel::Table(m)) => {
            lemma_check_stages(m, 0);
        },
        _ => {},
    }
}

/// Dropping leading zeros from a non-empty digit run leaves a non-empty digit run that starts with
/// a non-zero digit (or is a single digit), from which nothing more is dropped.
proof fn lemma_trim_leading(d: Seq<char>)
    requires
        d.len() > 0,
        spec_all_digits(d),
    ensures
        spec_trim_leading_zeros(d).len() > 0,
        spec_all_digits(spec_trim_leading_zeros(d)),
        spec_trim_leading_zeros(spec_trim_leading_zeros(d)) == spec_trim_leading_zeros(d),
    decreases d.len(),
{
    if d.len() > 1 && d[0] == '0' {
        assert forall|i: int| 0 <= i < d.drop_first().len() implies spec_is_digit(#[trigger] d.drop_first()[i]) by {
            assert(d.drop_first()[i] == d[i + 1]);
        }
        lemma_trim_leading(d.drop_first());
    }
}

/// Dropping trailing zeros from a non-empty digit run leaves a non-empty digit run that ends with
/// a non-zero digit (or is a single digit), from which nothing more is dropped.
proof fn lemma_trim_trailing(d: Seq<char>)
    requires
        d.len() > 0,
        spec_all_digits(d),
    ensures
        spec_trim_trailing_zeros(d).len() > 0,
        spec_all_digits(spec_trim_trailing_zeros(d)),
        spec_trim_trailing_zeros(spec_trim_trailing_zeros(d)) == spec_trim_trailing_zeros(d),
    decreases d.len(),
{
    if d.len() > 1 && d.last() == '0' {
        assert forall|i: int| 0 <= i < d.drop_last().len() implies spec_is_digit(#[trigger] d.drop_last()[i]) by {
            assert(d.drop_last()[i] == d[i]);
        }
        lemma_trim_trailing(d.drop_last());
    }
}

/// The canonical text of a float token is a float token in canonical form.
pub proof fn lemma_canonical_float(t: Seq<char>)
    requires
        spec_is_float_token(t),
    ensures
        spec_is_float_token(spec_canonical_float(t)),
        spec_canonical_float(spec_canonical_float(t)) == spec_canonical_float(t),
{
    let neg = t.len() > 0 && t[0] == '-';
    let body = spec_strip_minus(t);
    let dot = spec_first_index(body, '.');
    let w = spec_trim_leading_zeros(body.subrange(0, dot));
    let f = spec_trim_trailing_zeros(body.subrange(dot + 1, body.len() as int));
    lemma_trim_leading(body.subrange(0, dot));
    lemma_trim_trailing(body.subrange(dot + 1, body.len() as int));
    let sign: Seq<char> = if neg { seq!['-'] } else { Seq::empty() };
    let c = spec_canonical_float(t);
    let cb = w + seq!['.'] + f;
    assert(c == sign + cb);
    assert(spec_is_digit(w[0]));
    assert(spec_strip_minus(c) =~= cb) by {
        if neg {
            assert(c[0] == '-');
            assert(c.drop_first() =~= cb);
        } else {
            assert(c =~= cb);
            assert(c[0] == w[0]);
        }
    }
    let neg_c = c.len() > 0 && c[0] == '-';
    assert(neg_c == neg) by {
        if !neg {
            assert(c[0] == w[0]);
        }
    }
    lemma_first_index(cb, '.');
    let d2 = spec_first_index(cb, '.');
    assert(d2 == w.len()) by {
        if d2 < w.len() {
            assert(cb[d2] == w[d2]);
            assert(spec_is_digit(w[d2]));
        }
        if d2 > w.len() {
            assert(cb[w.len() as int] == '.');
        }
    }
    assert(cb.subrange(0, d2) =~= w);
    assert(cb.subrange(d2 + 1, cb.len() as int) =~= f);
}

/// Inserting an identifier key with a well-formed value keeps options well formed.
proof fn lemma_insert_wf(e: EntriesModel, key: Seq<char>, v: OptionModel)
    requires
        spec_entries_wf(e),
        spec_is_identifier(key),
        spec_option_wf(v),
    ensures
        spec_entries_wf(spec_insert(e, key, v)),
{
    law_insert_keeps_keys_unique(e, key, v);
    lemma_last_index(e, key);
    let i = spec_last_index(e, key);
    let r = spec_remove(e, key);
    let ins = spec_insert(e, key, v);
    assert forall|x: int| 0 <= x < ins.len() implies spec_is_identifier(#[trigger] ins[x].0) && spec_option_wf(ins[x].1) by {
        if x < ins.len() - 1 {
            if i >= 0 {
                let ox = if x < i { x } else { x + 1 };
                assert(r[x] == e[ox]);
            } else {
                assert(r[x] == e[x]);
            }
        }
    }
}

/// A value the grammar reads is well formed.
proof fn lemma_value_wf(s: Seq<char>, i: int)
    requires
        0 <= i,
    ensures
        spec_value(s, i) matches Ok((v, _)) ==> spec_option_wf(v),
    decreases s.len() - i, 3int,
{
    match spec_peek(s, i) {
        None => {},
        Some(c) => {
            if c == '"' {
            } else if c == '[' {
                lemma_list_wf(s, i);
            } else if c == '(' {
                lemma_table_wf(s, i, false);
            } else if !spec_is_value_stop(c) {
                let j = spec_ident_end(s, i);
                let token = s.subrange(i, j);
                if j > i && spec_contains(token, '.') && spec_is_float_token(token) {
                    lemma_canonical_float(token);
                }
            }
        },
    }
}

/// A list the grammar reads is well formed.
proof fn lemma_list_wf(s: Seq<char>, i: int)
    requires
        0 <= i,
    ensures
        spec_list(s, i) matches Ok((v, _)) ==> spec_option_wf(v),
    decreases s.len() - i, 2int,
{
    if spec_peek(s, i) == Some('[') && spec_peek(s, i + 1) != Some(']') {
        lemma_items_wf(s, i + 1, Seq::empty());
    }
}

/// List items the grammar reads after well-formed ones give a well-formed list.
proof fn lemma_items_wf(s: Seq<char>, k: int, acc: Seq<OptionModel>)
    requires
        0 <= k,
        forall|x: int| 0 <= x < acc.len() ==> spec_option_wf(#[trigger] acc[x]),
    ensures
        spec_list_items(s, k, acc) matches Ok((v, _)) ==> spec_option_wf(v),
    decreases s.len() - k, 4int,
{
    lemma_value_wf(s, k);
    match spec_value(s, k) {
        Err(_) => {},
        Ok((v, j)) => {
            if j > k {
                let acc2 = acc.push(v);
                assert forall|x: int| 0 <= x < acc2.len() implies spec_option_wf(#[trigger] acc2[x]) by {
                    if x < acc.len() {
                        assert(acc2[x] == acc[x]);
                    }
                }
                if spec_peek(s, j) == Some(',') {
                    lemma_items_wf(s, j + 1, acc2);
                }
            }
        },
    }
}

/// A parenthesised block the grammar reads is well-formed options.
proof fn lemma_table_wf(s: Seq<char>, i: int, is_options: bool)
    requires
        0 <= i,
    ensures
        spec_table(s, i, is_options) matches Ok((e, _)) ==> spec_entries_wf(e),
    decreases s.len() - i, 2int,
{
    if spec_peek(s, i) == Some('(') && spec_peek(s, i + 1) != Some(')') {
        lemma_entries_wf(s, i + 1, Seq::empty(), is_options);
    }
}

/// Entries the grammar reads after well-formed ones give well-formed options.
proof fn lemma_entries_wf(s: Seq<char>, k: int, acc: EntriesModel, is_options: bool)
    requires
        0 <= k,
        spec_entries_wf(acc),
    ensures
        spec_entries(s, k, acc, is_options) matches Ok((e, _)) ==> spec_entries_wf(e),
    decreases s.len() - k, 4int,
{
    match spec_key(s, k) {
        Err(_) => {},
        Ok((key, k1)) => {
            lemma_ident_end(s, k);
            assert(spec_is_identifier(key)) by {
                assert(key[0] == s[k]);
                assert forall|x: int| 0 <= x < key.len() implies spec_is_ident_char(#[trigger] key[x]) by {
                    assert(key[x] == s[k + x]);
                }
            }
            match spec_expect(s, k1, '=', spec_equals_message(is_options)) {
                Err(_) => {},
                Ok(k2) => {
                    if k2 > k {
                        lemma_value_wf(s, k2);
                        match spec_value(s, k2) {
                            Err(_) => {},
                            Ok((v, j)) => {
                                if j > k2 {
                                    lemma_insert_wf(acc, key, v);
                                    if spec_peek(s, j) == Some(',') {
                                        lemma_entries_wf(s, j + 1, spec_insert(acc, key, v), is_options);
                                    }
                                }
                            },
                        }
                    }
                },
            }
        },
    }
}

/// Every source that parses is well formed.
pub proof fn law_parsed_source_wf(s: Seq<char>)
    requires
        spec_parse(s) is Ok,
    ensures
        spec_source_wf(spec_parse(s)->Ok_0),
{
    let m = spec_parse(s)->Ok_0;
    lemma_ident_end(s, 0);
    let j = spec_ident_end(s, 0);
    assert(spec_is_identifier(m.source)) by {
        assert(m.source == s.subrange(0, j));
        assert(m.source[0] == s[0]);
        assert forall|x: int| 0 <= x < m.source.len() implies spec_is_ident_char(#[trigger] m.source[x]) by {
            assert(m.source[x] == s[x]);
        }
    }
    if spec_peek(s, j) == Some('(') {
        lemma_table_wf(s, j, true);
    } else {
        assert(spec_entries_wf(Seq::<(Seq<char>, OptionModel)>::empty()));
    }
}

/// Parsing the canonical text of a parsed source gives that source back: whatever `parse`
/// accepts, its display re-parses to an equal source.
pub proof fn law_parse_display_parse(s: Seq<char>)
    requires
        spec_parse(s) is Ok,
    ensures
        spec_parse(spec_source_text(spec_parse(s)->Ok_0)) == spec_parse(s),
{
    law_parsed_source_wf(s);
    law_parse_source_text(spec_parse(s)->Ok_0);
}

} // verus!



