//! Environment-variable loader: groups `PREFIX_NAME<sep>KEY=value` variables into env-format
//! payloads, one per entry name.
//!
//! The loader reads its options from the source (`prefix`, `strip_prefix`, `separator`,
//! `lowercase`) and turns the process's variables, handed in as `(key, value)` pairs, into
//! payloads whose bytes are `KEY="value"` lines.
//!
//! The prefix is the one pinned on the loader, else the `prefix` option, else the prefix detected
//! from the running program, which the caller hands to the loader.

use vstd::prelude::*;
use crate::source::{Source, SourceModel, EntriesModel, OptionModel, spec_get, spec_insert, spec_type_of, spec_type_display};
use crate::source_laws::{law_get_after_insert, law_get_other_after_insert};
use crate::text::{spec_occurs_at as occurs_at_text, lemma_find_seq_at};
use crate::load::{Payload, PayloadModel, Error, spec_opt_chars, clone_opt_string};
use crate::text::{
    spec_trim, spec_find_seq, spec_starts_with, spec_occurs_at, lowercase_text, debug_text,
    chars_of, sub_chars, trim_chars, find_seq, starts_with_chars, string_from_chars, to_lowercase,
    debug_string, push_chars, push_char, str_equal,
};

verus! {

/// Name of this loader in error messages.
pub open spec fn spec_env_loader_name() -> Seq<char> {
    "Environment-Variables"@
}

/// The loader's settings, read from the source's options.
#[derive(Debug)]
pub struct EnvLoadSettings {
    pub prefix: Option<String>,
    pub separator: Option<String>,
    pub strip_prefix: bool,
    pub lowercase: bool,
}

/// Model of [`EnvLoadSettings`].
pub struct EnvLoadModel {
    pub prefix: Option<Seq<char>>,
    pub separator: Option<Seq<char>>,
    pub strip_prefix: bool,
    pub lowercase: bool,
}

impl View for EnvLoadSettings {
    type V = EnvLoadModel;

    open spec fn view(&self) -> EnvLoadModel {
        EnvLoadModel {
            prefix: spec_opt_chars(self.prefix),
            separator: spec_opt_chars(self.separator),
            strip_prefix: self.strip_prefix,
            lowercase: self.lowercase,
        }
    }
}

/// Why the options of an env source are rejected.
pub enum EnvLoadFault {
    /// The resource is not empty.
    Resource,
    /// An option has the wrong type; the key and the reason.
    Option(Seq<char>, Seq<char>),
}

/// `"expected <what>, found <kind of v>"`.
pub open spec fn spec_expected(what: Seq<char>, v: OptionModel) -> Seq<char> {
    "expected "@ + what + ", found "@ + spec_type_display(spec_type_of(v))
}

/// The loader's settings for `source`. The prefix is the override when set, else the `prefix`
/// option, else the prefix detected from the running program.
pub open spec fn spec_env_load_settings(prefix_override: Option<Seq<char>>, detected: Option<Seq<char>>, source: SourceModel) -> Result<EnvLoadModel, EnvLoadFault> {
    let o = source.options;
    if source.resource.len() > 0 {
        Err(EnvLoadFault::Resource)
    } else {
        let prefix: Result<Option<Seq<char>>, EnvLoadFault> = match prefix_override {
            Some(p) => Ok(Some(p)),
            None => match spec_get(o, "prefix"@) {
                None => Ok(detected),
                Some(OptionModel::Str(s)) => Ok(Some(s)),
                Some(v) => Err(EnvLoadFault::Option("prefix"@, spec_expected("string"@, v))),
            },
        };
        match prefix {
            Err(f) => Err(f),
            Ok(prefix) => match spec_get(o, "separator"@) {
                Some(v) if !(v is Str) => Err(EnvLoadFault::Option("separator"@, spec_expected("string"@, v))),
                sep_opt => {
                    let separator = match sep_opt {
                        Some(OptionModel::Str(s)) => Some(s),
                        _ => None,
                    };
                    let strip: Result<bool, EnvLoadFault> = match spec_get(o, "strip_prefix"@) {
                        Some(OptionModel::Bool(b)) => Ok(b),
                        Some(v) => if prefix is Some {
                            Err(EnvLoadFault::Option("strip_prefix"@, spec_expected("boolean"@, v)))
                        } else {
                            Ok(false)
                        },
                        None => Ok(prefix is Some),
                    };
                    match strip {
                        Err(f) => Err(f),
                        Ok(strip_prefix) => match spec_get(o, "lowercase"@) {
                            Some(OptionModel::Bool(b)) => Ok(EnvLoadModel { prefix, separator, strip_prefix, lowercase: b }),
                            Some(v) => Err(EnvLoadFault::Option("lowercase"@, spec_expected("boolean"@, v))),
                            None => Ok(EnvLoadModel { prefix, separator, strip_prefix, lowercase: true }),
                        },
                    }
                },
            },
        }
    }
}

/// The entry name and the env line a variable contributes, or `None` when it is skipped: it lacks
/// the prefix, is empty once the prefix is stripped, or (with a separator) does not split into a
/// non-empty name and key.
pub open spec fn spec_env_entry(s: EnvLoadModel, key: Seq<char>, value: Seq<char>) -> Option<(Option<Seq<char>>, Seq<char>)> {
    let prefix = match s.prefix {
        Some(p) => p,
        None => Seq::empty(),
    };
    if prefix.len() > 0 && !spec_starts_with(key, prefix) {
        None
    } else {
        let env_key = if s.strip_prefix {
            if prefix.len() <= key.len() {
                key.skip(prefix.len() as int)
            } else {
                Seq::empty()
            }
        } else {
            key
        };
        if env_key.len() == 0 {
            None
        } else {
            match s.separator {
                None => Some((None, env_key + seq!['='] + debug_text(value))),
                Some(sep) => {
                    let i = spec_find_seq(env_key, sep);
                    if i < 0 || i + sep.len() > env_key.len() {
                        None
                    } else {
                        let first = spec_trim(env_key.take(i));
                        let rest = spec_trim(env_key.skip(i + sep.len()));
                        if first.len() == 0 || rest.len() == 0 {
                            None
                        } else {
                            let name = if s.lowercase {
                                lowercase_text(first)
                            } else {
                                first
                            };
                            Some((Some(name), rest + seq!['='] + debug_text(value)))
                        }
                    }
                },
            }
        }
    }
}

/// Index of the group named `name`, or `-1`.
pub open spec fn spec_env_group_index(g: Seq<(Option<Seq<char>>, Seq<char>)>, name: Option<Seq<char>>) -> int
    decreases g.len(),
{
    if g.len() == 0 {
        -1
    } else if g.last().0 == name {
        g.len() - 1
    } else {
        spec_env_group_index(g.drop_last(), name)
    }
}

/// The groups of the first variables: per entry name, in order of first appearance, its lines
/// joined with newlines.
pub open spec fn spec_env_groups(s: EnvLoadModel, vars: Seq<(Seq<char>, Seq<char>)>) -> Seq<(Option<Seq<char>>, Seq<char>)>
    decreases vars.len(),
{
    if vars.len() == 0 {
        Seq::empty()
    } else {
        let prev = spec_env_groups(s, vars.drop_last());
        match spec_env_entry(s, vars.last().0, vars.last().1) {
            None => prev,
            Some((name, line)) => {
                let i = spec_env_group_index(prev, name);
                if 0 <= i < prev.len() {
                    prev.update(i, (name, prev[i].1 + seq!['\n'] + line))
                } else {
                    prev.push((name, line))
                }
            },
        }
    }
}

/// The payload of one group.
pub open spec fn spec_env_payload(source: SourceModel, g: (Option<Seq<char>>, Seq<char>)) -> PayloadModel {
    PayloadModel {
        source,
        name: g.0,
        format: Some("env"@),
        content: vstd::utf8::encode_utf8(g.1),
    }
}

/// The texts of `(key, value)` string pairs.
pub open spec fn var_models(v: Seq<(String, String)>) -> Seq<(Seq<char>, Seq<char>)> {
    Seq::new(v.len(), |i: int| (v[i].0@, v[i].1@))
}

/// The models of a sequence of payloads.
pub open spec fn payload_list_models(v: Seq<Payload>) -> Seq<PayloadModel> {
    Seq::new(v.len(), |i: int| v[i]@)
}

/// The environment-variable loader.
#[derive(Debug, Clone)]
pub struct Env {
    prefix_override: Option<String>,
    detected_prefix: Option<String>,
}

impl Env {
    /// The prefix set on the loader, overriding the source's `prefix` option.
    pub closed spec fn prefix(&self) -> Option<Seq<char>> {
        spec_opt_chars(self.prefix_override)
    }

    /// The prefix detected from the running program, used when neither an override nor a
    /// `prefix` option gives one.
    pub closed spec fn detected(&self) -> Option<Seq<char>> {
        spec_opt_chars(self.detected_prefix)
    }

    /// A loader without a prefix override or a detected prefix.
    pub fn new() -> (r: Env)
        ensures
            r.prefix() is None,
            r.detected() is None,
    {
        Env { prefix_override: None, detected_prefix: None }
    }

    /// Set the prefix detected from the running program (`None` when nothing was detected).
    pub fn set_detected_prefix(&mut self, detected: Option<String>)
        ensures
            final(self).detected() == spec_opt_chars(detected),
            final(self).prefix() == old(self).prefix(),
    {
        self.detected_prefix = detected;
    }

    /// Set the prefix override when `maybe_prefix` is `Some`; otherwise leave it as it is.
    pub fn set_maybe_prefix(&mut self, maybe_prefix: Option<String>)
        ensures
            final(self).prefix() == match maybe_prefix {
                Some(p) => Some(p@),
                None => old(self).prefix(),
            },
            final(self).detected() == old(self).detected(),
    {
        match maybe_prefix {
            Some(p) => self.set_prefix(p),
            None => {},
        }
    }

    /// Set the prefix override.
    pub fn set_prefix(&mut self, prefix: String)
        ensures
            final(self).prefix() == Some(prefix@),
            final(self).detected() == old(self).detected(),
    {
        self.prefix_override = Some(prefix);
    }

    /// This loader with the prefix override set.
    pub fn with_prefix(self, prefix: String) -> (r: Env)
        ensures
            r.prefix() == Some(prefix@),
            r.detected() == self.detected(),
    {
        let mut this = self;
        this.set_prefix(prefix);
        this
    }

    /// Name of this loader.
    pub fn name(&self) -> (r: &'static str)
        ensures
            r@ == spec_env_loader_name(),
    {
        "Environment-Variables"
    }

    /// The source names this loader handles: `env`.
    pub fn supported_source_list(&self) -> (r: Vec<String>)
        ensures
            r@.len() == 1 && r@[0]@ == "env"@,
    {
        vec!["env".to_owned()]
    }

    /// The settings for `source` (see [`spec_env_load_settings`]).
    pub fn settings(&self, source: &Source) -> (r: Result<EnvLoadSettings, Error>)
        ensures
            match spec_env_load_settings(self.prefix(), self.detected(), source@) {
                Ok(m) => r matches Ok(s) && s@ == m,
                Err(EnvLoadFault::Resource) => r matches Err(Error::InvalidResource { loader, resource, reason })
                    && loader@ == spec_env_loader_name() && resource@ == source@.resource
                    && reason@ == "resource must be empty"@,
                Err(EnvLoadFault::Option(k, why)) => r matches Err(Error::InvalidOption { loader, key, reason })
                    && loader@ == spec_env_loader_name() && key@ == k && reason@ == why,
            },
    {
        let options = source.options();
        if !source.resource().is_empty() {
            return Err(Error::InvalidResource {
                loader: "Environment-Variables".to_owned(),
                resource: source.resource().to_owned(),
                reason: "resource must be empty".to_owned(),
            });
        }
        let prefix: Option<String> = match &self.prefix_override {
            Some(p) => Some(p.clone()),
            None => match options.get("prefix") {
                None => clone_opt_string(&self.detected_prefix),
                Some(value) => match value.as_string() {
                    Some(s) => Some(s.clone()),
                    None => {
                        return Err(invalid_option("prefix", "string", value.value_type().as_str()));
                    },
                },
            },
        };
        let separator: Option<String> = match options.get("separator") {
            None => None,
            Some(value) => match value.as_string() {
                Some(s) => Some(s.clone()),
                None => {
                    return Err(invalid_option("separator", "string", value.value_type().as_str()));
                },
            },
        };
        let strip_prefix = match options.get("strip_prefix") {
            Some(value) => match value.as_bool() {
                Some(b) => b,
                None => {
                    if prefix.is_some() {
                        return Err(invalid_option("strip_prefix", "boolean", value.value_type().as_str()));
                    }
                    false
                },
            },
            None => prefix.is_some(),
        };
        let lowercase = match options.get("lowercase") {
            Some(value) => match value.as_bool() {
                Some(b) => b,
                None => {
                    return Err(invalid_option("lowercase", "boolean", value.value_type().as_str()));
                },
            },
            None => true,
        };
        Ok(EnvLoadSettings { prefix, separator, strip_prefix, lowercase })
    }

    /// Group the variables `vars` (as the process lists them) into env payloads of `source`:
    /// invalid options are rejected first (see [`spec_env_load_settings`]), then each kept
    /// variable adds a `KEY="value"` line to the payload of its entry name.
    pub fn load_vars(&self, source: &Source, vars: &[(String, String)]) -> (r: Result<Vec<Payload>, Error>)
        ensures
            match spec_env_load_settings(self.prefix(), self.detected(), source@) {
                Ok(m) => r matches Ok(list) && payload_list_models(list@) == Seq::new(
                    spec_env_groups(m, var_models(vars@)).len(),
                    |i: int| spec_env_payload(source@, spec_env_groups(m, var_models(vars@))[i]),
                ),
                Err(EnvLoadFault::Resource) => r matches Err(Error::InvalidResource { loader, resource, reason })
                    && loader@ == spec_env_loader_name() && resource@ == source@.resource
                    && reason@ == "resource must be empty"@,
                Err(EnvLoadFault::Option(k, why)) => r matches Err(Error::InvalidOption { loader, key, reason })
                    && loader@ == spec_env_loader_name() && key@ == k && reason@ == why,
            },
    {
        let settings = self.settings(source)?;
        let groups = group_vars(&settings, vars);
        let ghost gm = spec_env_groups(settings@, var_models(vars@));
        let mut out: Vec<Payload> = Vec::new();
        let mut i: usize = 0;
        while i < groups.len()
            invariant
                gm == spec_env_groups(settings@, var_models(vars@)),
                gm.len() == groups@.len(),
                forall|k: int| 0 <= k < groups@.len() ==> (spec_opt_chars(#[trigger] groups@[k].0), groups@[k].1@) == gm[k],
                0 <= i <= groups@.len(),
                out@.len() == i,
                forall|k: int| 0 <= k < i ==> (#[trigger] out@[k])@ == spec_env_payload(source@, gm[k]),
            decreases groups@.len() - i,
        {
            let content = groups[i].1.as_str().as_bytes_vec();
            out.push(Payload {
                source: source.clone(),
                maybe_name: clone_opt_string(&groups[i].0),
                maybe_format: Some("env".to_owned()),
                content,
            });
            i = i + 1;
        }
        assert(payload_list_models(out@) =~= Seq::new(gm.len(), |k: int| spec_env_payload(source@, gm[k])));
        Ok(out)
    }
}

/// `InvalidOption` for `key`: "expected `what`, found `found`".
fn invalid_option(key: &str, what: &str, found: &str) -> (r: Error)
    ensures
        r matches Error::InvalidOption { loader, key: k, reason } && loader@ == spec_env_loader_name()
            && k@ == key@ && reason@ == "expected "@ + what@ + ", found "@ + found@,
{
    let mut reason = "expected ".to_owned();
    reason.append(what);
    reason.append(", found ");
    reason.append(found);
    Error::InvalidOption { loader: "Environment-Variables".to_owned(), key: key.to_owned(), reason }
}

/// Whether two optional strings are equal.
fn same_name(a: &Option<String>, b: &Option<String>) -> (r: bool)
    ensures
        r == (spec_opt_chars(*a) == spec_opt_chars(*b)),
{
    match (a, b) {
        (Some(x), Some(y)) => str_equal(x.as_str(), y.as_str()),
        (None, None) => true,
        _ => false,
    }
}

/// The entry name and line of one variable (see [`spec_env_entry`]).
fn env_entry(s: &EnvLoadSettings, key: &str, value: &str) -> (r: Option<(Option<String>, String)>)
    ensures
        match spec_env_entry(s@, key@, value@) {
            Some((n, l)) => r matches Some((rn, rl)) && spec_opt_chars(rn) == n && rl@ == l,
            None => r is None,
        },
{
    let key_chars = chars_of(key);
    let prefix: Vec<char> = match &s.prefix {
        Some(p) => chars_of(p.as_str()),
        None => Vec::new(),
    };
    if prefix.len() > 0 && !starts_with_chars(&key_chars, &prefix) {
        return None;
    }
    let env_key = if s.strip_prefix {
        if prefix.len() <= key_chars.len() {
            sub_chars(&key_chars, prefix.len(), key_chars.len())
        } else {
            Vec::new()
        }
    } else {
        key_chars
    };
    proof {
        if s.strip_prefix && prefix@.len() <= key@.len() {
            assert(env_key@ =~= key@.skip(prefix@.len() as int));
        }
    }
    if env_key.len() == 0 {
        return None;
    }
    let shown = debug_string(value);
    match &s.separator {
        None => {
            let mut line = string_from_chars(env_key.as_slice());
            push_char(&mut line, '=');
            line.append(shown.as_str());
            Some((None, line))
        },
        Some(sep) => {
            let sep_chars = chars_of(sep.as_str());
            let i = match find_seq(&env_key, &sep_chars) {
                Some(i) => i,
                None => {
                    return None;
                },
            };
            let n = env_key.len();
            let sl = sep_chars.len();
            assert(spec_occurs_at(env_key@, sep_chars@, i as int));
            let head = sub_chars(&env_key, 0, i);
            assert(head@ =~= env_key@.take(i as int));
            let tail = sub_chars(&env_key, i + sl, n);
            assert(tail@ =~= env_key@.skip(i + sl));
            let first = trim_chars(&head);
            let rest = trim_chars(&tail);
            if first.len() == 0 || rest.len() == 0 {
                return None;
            }
            let first_text = string_from_chars(first.as_slice());
            let name = if s.lowercase {
                to_lowercase(first_text.as_str())
            } else {
                first_text
            };
            let mut line = string_from_chars(rest.as_slice());
            push_char(&mut line, '=');
            line.append(shown.as_str());
            Some((Some(name), line))
        },
    }
}

/// Index of the group named `name`.
fn find_env_group(groups: &Vec<(Option<String>, String)>, name: &Option<String>) -> (r: Option<usize>)
    ensures
        ({
            let gm = Seq::new(groups@.len(), |k: int| (spec_opt_chars(groups@[k].0), groups@[k].1@));
            match r {
                Some(i) => spec_env_group_index(gm, spec_opt_chars(*name)) == i && i < groups@.len()
                    && spec_opt_chars(groups@[i as int].0) == spec_opt_chars(*name),
                None => spec_env_group_index(gm, spec_opt_chars(*name)) == -1,
            }
        }),
{
    let ghost gm = Seq::new(groups@.len(), |k: int| (spec_opt_chars(groups@[k].0), groups@[k].1@));
    proof {
        lemma_env_group_index(gm, spec_opt_chars(*name));
    }
    let mut i: usize = groups.len();
    assert(gm.subrange(0, i as int) =~= gm);
    while i > 0
        invariant
            gm == Seq::new(groups@.len(), |k: int| (spec_opt_chars(groups@[k].0), groups@[k].1@)),
            0 <= i <= groups@.len(),
            spec_env_group_index(gm, spec_opt_chars(*name)) == spec_env_group_index(
                gm.subrange(0, i as int),
                spec_opt_chars(*name),
            ),
        decreases i,
    {
        let ghost sub = gm.subrange(0, i as int);
        assert(sub.last() == gm[i - 1]);
        if same_name(&groups[i - 1].0, name) {
            return Some(i - 1);
        }
        assert(sub.drop_last() =~= gm.subrange(0, i - 1));
        i = i - 1;
    }
    None
}

/// `spec_env_group_index` stays within the groups.
proof fn lemma_env_group_index(g: Seq<(Option<Seq<char>>, Seq<char>)>, name: Option<Seq<char>>)
    ensures
        -1 <= spec_env_group_index(g, name) < g.len(),
        spec_env_group_index(g, name) >= 0 ==> g[spec_env_group_index(g, name)].0 == name,
    decreases g.len(),
{
    if g.len() > 0 {
        lemma_env_group_index(g.drop_last(), name);
    }
}

/// The groups of `vars` (see [`spec_env_groups`]).
fn group_vars(s: &EnvLoadSettings, vars: &[(String, String)]) -> (r: Vec<(Option<String>, String)>)
    ensures
        Seq::new(r@.len(), |k: int| (spec_opt_chars(r@[k].0), r@[k].1@)) == spec_env_groups(
            s@,
            var_models(vars@),
        ),
{
    let ghost vm = var_models(vars@);
    let mut groups: Vec<(Option<String>, String)> = Vec::new();
    let mut i: usize = 0;
    assert(Seq::new(groups@.len(), |k: int| (spec_opt_chars(groups@[k].0), groups@[k].1@)) =~= spec_env_groups(s@, vm.take(0)));
    while i < vars.len()
        invariant
            vm == var_models(vars@),
            0 <= i <= vars@.len(),
            Seq::new(groups@.len(), |k: int| (spec_opt_chars(groups@[k].0), groups@[k].1@))
                == spec_env_groups(s@, vm.take(i as int)),
        decreases vars@.len() - i,
    {
        let ghost prev = Seq::new(groups@.len(), |k: int| (spec_opt_chars(groups@[k].0), groups@[k].1@));
        assert(vm.take(i + 1).drop_last() =~= vm.take(i as int));
        assert(vm.take(i + 1).last() == (vars@[i as int].0@, vars@[i as int].1@));
        match env_entry(s, vars[i].0.as_str(), vars[i].1.as_str()) {
            None => {},
            Some((name, line)) => {
                match find_env_group(&groups, &name) {
                    Some(k) => {
                        let mut text = groups[k].1.clone();
                        push_char(&mut text, '\n');
                        text.append(line.as_str());
                        let ghost old_text = groups@[k as int].1@;
                        assert(prev[k as int].1 == old_text);
                        assert(text@ == old_text + seq!['\n'] + line@);
                        let ghost nm = spec_opt_chars(name);
                        assert(prev[k as int].0 == nm);
                        groups.set(k, (name, text));
                        assert(spec_opt_chars(groups@[k as int].0) == nm);
                        assert(groups@[k as int].1@ == old_text + seq!['\n'] + line@);
                        assert(Seq::new(groups@.len(), |j: int| (spec_opt_chars(groups@[j].0), groups@[j].1@)) =~= prev.update(
                            k as int,
                            (prev[k as int].0, old_text + seq!['\n'] + line@),
                        ));
                    },
                    None => {
                        groups.push((name, line));
                        assert(Seq::new(groups@.len(), |j: int| (spec_opt_chars(groups@[j].0), groups@[j].1@)) =~= prev.push(
                            (spec_opt_chars(groups@[groups@.len() - 1].0), groups@[groups@.len() - 1].1@),
                        ));
                    },
                }
            },
        }
        i = i + 1;
    }
    assert(vm.take(vars@.len() as int) =~= vm);
    groups
}

/// A prefix set on the loader acts as a `prefix` option of that value on the source: the settings
/// are those of the source with its `prefix` option replaced by the pinned prefix.
pub proof fn law_prefix_override_as_option(p: Seq<char>, detected: Option<Seq<char>>, source: SourceModel)
    ensures
        spec_env_load_settings(Some(p), detected, source) == spec_env_load_settings(
            None,
            detected,
            SourceModel { options: spec_insert(source.options, "prefix"@, OptionModel::Str(p)), ..source },
        ),
{
    reveal_strlit("prefix");
    reveal_strlit("separator");
    reveal_strlit("strip_prefix");
    reveal_strlit("lowercase");
    let o = source.options;
    let v = OptionModel::Str(p);
    law_get_after_insert(o, "prefix"@, v);
    assert("separator"@ != "prefix"@) by {
        assert("separator"@[0] != "prefix"@[0]);
    }
    assert("strip_prefix"@ != "prefix"@) by {
        assert("strip_prefix"@.len() != "prefix"@.len());
    }
    assert("lowercase"@ != "prefix"@) by {
        assert("lowercase"@[0] != "prefix"@[0]);
    }
    law_get_other_after_insert(o, "prefix"@, v, "separator"@);
    law_get_other_after_insert(o, "prefix"@, v, "strip_prefix"@);
    law_get_other_after_insert(o, "prefix"@, v, "lowercase"@);
}

/// A prefix pinned on the loader always wins: it is the prefix of the settings, whatever the
/// source's own `prefix` option holds.
pub proof fn law_pinned_prefix_wins(p: Seq<char>, detected: Option<Seq<char>>, source: SourceModel, q: OptionModel)
    ensures
        spec_env_load_settings(Some(p), detected, source) matches Ok(m) ==> m.prefix == Some(p),
        spec_env_load_settings(Some(p), detected, source) == spec_env_load_settings(
            Some(p),
            detected,
            SourceModel { options: spec_insert(source.options, "prefix"@, q), ..source },
        ),
{
    reveal_strlit("prefix");
    reveal_strlit("separator");
    reveal_strlit("strip_prefix");
    reveal_strlit("lowercase");
    let o = source.options;
    assert("separator"@ != "prefix"@) by {
        assert("separator"@[0] != "prefix"@[0]);
    }
    assert("strip_prefix"@ != "prefix"@) by {
        assert("strip_prefix"@.len() != "prefix"@.len());
    }
    assert("lowercase"@ != "prefix"@) by {
        assert("lowercase"@[0] != "prefix"@[0]);
    }
    law_get_other_after_insert(o, "prefix"@, q, "separator"@);
    law_get_other_after_insert(o, "prefix"@, q, "strip_prefix"@);
    law_get_other_after_insert(o, "prefix"@, q, "lowercase"@);
}

/// With neither a pinned prefix nor `prefix` and `strip_prefix` options, the detected prefix is
/// the prefix and is stripped: a variable whose name does not start with it is skipped, and
/// without a separator one that does contributes its name without the prefix.
pub proof fn law_detected_prefix_applies(d: Seq<char>, source: SourceModel, key: Seq<char>, value: Seq<char>)
    requires
        d.len() > 0,
        spec_get(source.options, "prefix"@) is None,
        spec_get(source.options, "strip_prefix"@) is None,
        spec_env_load_settings(None, Some(d), source) is Ok,
    ensures
        spec_env_load_settings(None, Some(d), source)->Ok_0.prefix == Some(d),
        spec_env_load_settings(None, Some(d), source)->Ok_0.strip_prefix,
        !spec_starts_with(key, d) ==> spec_env_entry(spec_env_load_settings(None, Some(d), source)->Ok_0, key, value) is None,
        spec_starts_with(key, d) && key.len() > d.len() && spec_env_load_settings(None, Some(d), source)->Ok_0.separator is None
            ==> spec_env_entry(spec_env_load_settings(None, Some(d), source)->Ok_0, key, value) == Some(
            (None::<Seq<char>>, key.skip(d.len() as int) + seq!['='] + debug_text(value)),
        ),
{
}

/// With a separator, a variable whose key (after the prefix) is `NAME<sep>KEY`, with no character
/// of `NAME` starting the separator, goes to the entry `NAME` (trimmed, lower-cased when the
/// loader lower-cases) as the line `KEY="value"`: the line's key is the trimmed text after the
/// separator, without the entry name.
pub proof fn law_env_entry_splits_name(
    s: EnvLoadModel,
    p: Seq<char>,
    name: Seq<char>,
    sep: Seq<char>,
    key: Seq<char>,
    value: Seq<char>,
)
    requires
        s.separator == Some(sep),
        sep.len() > 0,
        s.prefix == Some(p) && s.strip_prefix || s.prefix is None && p.len() == 0,
        forall|j: int| 0 <= j < name.len() ==> name[j] != sep[0],
        spec_trim(name).len() > 0,
        spec_trim(key).len() > 0,
    ensures
        spec_env_entry(s, p + name + sep + key, value) == Some(
            (
                Some(if s.lowercase { lowercase_text(spec_trim(name)) } else { spec_trim(name) }),
                spec_trim(key) + seq!['='] + debug_text(value),
            ),
        ),
{
    let full = p + name + sep + key;
    let env_key = name + sep + key;
    if p.len() > 0 {
        assert(full.take(p.len() as int) =~= p);
    }
    assert(full.skip(p.len() as int) =~= env_key);
    if s.prefix is None {
        assert(full =~= env_key);
    }
    assert(env_key.subrange(name.len() as int, name.len() as int + sep.len()) =~= sep);
    assert(occurs_at_text(env_key, sep, name.len() as int));
    assert forall|j: int| 0 <= j < name.len() implies env_key[j] != sep[0] by {
        assert(env_key[j] == name[j]);
    }
    lemma_find_seq_at(env_key, sep, name.len() as int);
    assert(env_key.take(name.len() as int) =~= name);
    assert(env_key.skip(name.len() as int + sep.len()) =~= key);
}

/// Without a separator, a variable goes to the unnamed entry as one line: with a prefix that is
/// stripped, `PREFIX<KEY>` gives `KEY="value"`; with a prefix that is kept, the whole name is the
/// key; a variable whose name lacks the prefix is skipped.
pub proof fn law_env_entry_unnamed(s: EnvLoadModel, p: Seq<char>, key: Seq<char>, other: Seq<char>, value: Seq<char>)
    requires
        s.separator is None,
        s.prefix == Some(p),
        p.len() > 0,
        key.len() > 0,
    ensures
        s.strip_prefix ==> spec_env_entry(s, p + key, value) == Some(
            (None::<Seq<char>>, key + seq!['='] + debug_text(value)),
        ),
        !s.strip_prefix ==> spec_env_entry(s, p + key, value) == Some(
            (None::<Seq<char>>, p + key + seq!['='] + debug_text(value)),
        ),
        !spec_starts_with(other, p) ==> spec_env_entry(s, other, value) is None,
{
    assert((p + key).take(p.len() as int) =~= p);
    assert((p + key).skip(p.len() as int) =~= key);
}

/// No group of `g` has `name` when the search finds none.
proof fn lemma_env_group_index_none(g: Seq<(Option<Seq<char>>, Seq<char>)>, name: Option<Seq<char>>)
    requires
        spec_env_group_index(g, name) == -1,
    ensures
        forall|i: int| 0 <= i < g.len() ==> (#[trigger] g[i]).0 != name,
    decreases g.len(),
{
    if g.len() > 0 {
        lemma_env_group_index_none(g.drop_last(), name);
        assert forall|i: int| 0 <= i < g.len() implies (#[trigger] g[i]).0 != name by {
            if i < g.len() - 1 {
                assert(g[i] == g.drop_last()[i]);
            }
        }
    }
}

/// The groups of the variables have distinct entry names, and every variable that is kept has a
/// group under its entry name.
pub proof fn law_env_groups_names(s: EnvLoadModel, vars: Seq<(Seq<char>, Seq<char>)>)
    ensures
        forall|i: int, j: int|
            0 <= i < j < spec_env_groups(s, vars).len() ==> (#[trigger] spec_env_groups(s, vars)[i]).0
                != (#[trigger] spec_env_groups(s, vars)[j]).0,
        forall|k: int|
            0 <= k < vars.len() && (#[trigger] spec_env_entry(s, vars[k].0, vars[k].1)) is Some ==> exists|i: int|
                0 <= i < spec_env_groups(s, vars).len() && (#[trigger] spec_env_groups(s, vars)[i]).0
                    == spec_env_entry(s, vars[k].0, vars[k].1)->Some_0.0,
    decreases vars.len(),
{
    if vars.len() > 0 {
        let d = vars.drop_last();
        law_env_groups_names(s, d);
        let prev = spec_env_groups(s, d);
        let g = spec_env_groups(s, vars);
        match spec_env_entry(s, vars.last().0, vars.last().1) {
            None => {
                assert forall|k: int|
                    0 <= k < vars.len() && (#[trigger] spec_env_entry(s, vars[k].0, vars[k].1)) is Some implies exists|i: int|
                        0 <= i < g.len() && (#[trigger] g[i]).0 == spec_env_entry(s, vars[k].0, vars[k].1)->Some_0.0 by {
                    assert(vars[k] == d[k]);
                }
            },
            Some((name, line)) => {
                let i0 = spec_env_group_index(prev, name);
                lemma_env_group_index(prev, name);
                if 0 <= i0 < prev.len() {
                    assert(g == prev.update(i0, (name, prev[i0].1 + seq!['\n'] + line)));
                    assert forall|i: int, j: int| 0 <= i < j < g.len() implies (#[trigger] g[i]).0 != (#[trigger] g[j]).0 by {
                        assert(g[i].0 == prev[i].0);
                        assert(g[j].0 == prev[j].0);
                    }
                    assert forall|k: int|
                        0 <= k < vars.len() && (#[trigger] spec_env_entry(s, vars[k].0, vars[k].1)) is Some implies exists|i: int|
                            0 <= i < g.len() && (#[trigger] g[i]).0 == spec_env_entry(s, vars[k].0, vars[k].1)->Some_0.0 by {
                        if k < vars.len() - 1 {
                            assert(vars[k] == d[k]);
                            let i1 = choose|i: int| 0 <= i < prev.len() && (#[trigger] prev[i]).0 == spec_env_entry(s, d[k].0, d[k].1)->Some_0.0;
                            assert(g[i1].0 == prev[i1].0);
                        } else {
                            assert(g[i0].0 == name);
                        }
                    }
                } else {
                    lemma_env_group_index_none(prev, name);
                    assert(g == prev.push((name, line)));
                    assert forall|i: int, j: int| 0 <= i < j < g.len() implies (#[trigger] g[i]).0 != (#[trigger] g[j]).0 by {
                        if j < prev.len() {
                            assert(g[i] == prev[i]);
                            assert(g[j] == prev[j]);
                        } else {
                            assert(g[i] == prev[i]);
                        }
                    }
                    assert forall|k: int|
                        0 <= k < vars.len() && (#[trigger] spec_env_entry(s, vars[k].0, vars[k].1)) is Some implies exists|i: int|
                            0 <= i < g.len() && (#[trigger] g[i]).0 == spec_env_entry(s, vars[k].0, vars[k].1)->Some_0.0 by {
                        if k < vars.len() - 1 {
                            assert(vars[k] == d[k]);
                            let i1 = choose|i: int| 0 <= i < prev.len() && (#[trigger] prev[i]).0 == spec_env_entry(s, d[k].0, d[k].1)->Some_0.0;
                            assert(g[i1] == prev[i1]);
                        } else {
                            assert(g[prev.len() as int].0 == name);
                        }
                    }
                }
            },
        }
    }
}

/// One more variable: skipped, it leaves the groups as they are; kept, it adds its line after a
/// newline to the group of its entry name, or, when there is none, a new group of that name
/// holding the line goes last.
pub proof fn law_env_groups_step(s: EnvLoadModel, vars: Seq<(Seq<char>, Seq<char>)>, key: Seq<char>, value: Seq<char>)
    ensures
        spec_env_entry(s, key, value) is None ==> spec_env_groups(s, vars.push((key, value))) == spec_env_groups(s, vars),
        spec_env_entry(s, key, value) matches Some((name, line)) ==> (
            if exists|i: int| 0 <= i < spec_env_groups(s, vars).len() && (#[trigger] spec_env_groups(s, vars)[i]).0 == name {
                forall|i: int|
                    0 <= i < spec_env_groups(s, vars).len() && (#[trigger] spec_env_groups(s, vars)[i]).0 == name
                        ==> spec_env_groups(s, vars.push((key, value))) == spec_env_groups(s, vars).update(
                        i,
                        (name, spec_env_groups(s, vars)[i].1 + seq!['\n'] + line),
                    )
            } else {
                spec_env_groups(s, vars.push((key, value))) == spec_env_groups(s, vars).push((name, line))
            }
        ),
{
    let vs = vars.push((key, value));
    assert(vs.drop_last() =~= vars);
    let prev = spec_env_groups(s, vars);
    law_env_groups_names(s, vars);
    match spec_env_entry(s, key, value) {
        None => {},
        Some((name, line)) => {
            let i0 = spec_env_group_index(prev, name);
            lemma_env_group_index(prev, name);
            if 0 <= i0 < prev.len() {
                assert forall|i: int| 0 <= i < prev.len() && (#[trigger] prev[i]).0 == name implies i == i0 by {
                    if i != i0 {
                        assert(prev[i].0 != prev[i0].0);
                    }
                }
            } else {
                lemma_env_group_index_none(prev, name);
            }
        },
    }
}

} // verus!





