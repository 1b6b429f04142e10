//! File loader decisions: option checks, entry names and formats from paths, ordering of
//! directory entries, and what each filesystem failure becomes.
//!
//! A resource is a file or a directory. Every regular file becomes one payload named by its file
//! stem and formatted by its extension (both trimmed, lower-cased unless `lowercase` is `false`).
//! The `ignore` option lists failures to tolerate: `not-found` and `no-access`. Options other
//! than `ignore` and `lowercase` are not read.

use vstd::prelude::*;
use crate::source::{Source, SourceModel, EntriesModel, OptionModel, OptionValue, spec_get, spec_type_of, spec_type_display};
use crate::load::{Payload, PayloadModel, Error, spec_opt_chars};
use crate::value::spec_texts;
use crate::text::{
    spec_trim, lowercase_text, path_debug_text, chars_of, sub_chars, trim_chars, string_from_chars,
    to_lowercase, path_debug_string, str_equal,
};

verus! {

/// Name of this loader in error messages.
pub open spec fn spec_file_loader_name() -> Seq<char> {
    "File"@
}

/// The kind of a filesystem failure.
#[derive(Clone, Copy)]
pub enum IoKind {
    /// The path does not exist.
    NotFound,
    /// Access was denied.
    PermissionDenied,
    /// Any other failure.
    Other,
}

/// The loader's settings, read from the source.
#[derive(Debug)]
pub struct FileSettings {
    /// Failures to tolerate: `not-found` and/or `no-access`.
    pub ignore: Vec<String>,
    /// Whether entry names and formats are lower-cased.
    pub lowercase: bool,
    /// The file or directory path.
    pub resource: String,
}

/// Model of [`FileSettings`].
pub struct FileSettingsModel {
    pub ignore: Seq<Seq<char>>,
    pub lowercase: bool,
    pub resource: Seq<char>,
}

impl View for FileSettings {
    type V = FileSettingsModel;

    open spec fn view(&self) -> FileSettingsModel {
        FileSettingsModel { ignore: spec_texts(self.ignore@), lowercase: self.lowercase, resource: self.resource@ }
    }
}

/// Why the options of a file source are rejected.
pub enum FileFault {
    /// An option has a wrong value; the key and the reason.
    Option(Seq<char>, Seq<char>),
    /// The resource is empty.
    Resource,
}

/// Index of the first item that is not a string, or `-1`.
pub open spec fn spec_first_non_string(items: Seq<OptionModel>) -> int
    decreases items.len(),
{
    if items.len() == 0 {
        -1
    } else {
        let p = spec_first_non_string(items.drop_last());
        if p >= 0 {
            p
        } else if !(items.last() is Str) {
            items.len() - 1
        } else {
            -1
        }
    }
}

/// Index of the first ignore value other than `not-found` and `no-access`, or `-1`.
pub open spec fn spec_first_bad_ignore(items: Seq<Seq<char>>) -> int
    decreases items.len(),
{
    if items.len() == 0 {
        -1
    } else {
        let p = spec_first_bad_ignore(items.drop_last());
        if p >= 0 {
            p
        } else if items.last() != "not-found"@ && items.last() != "no-access"@ {
            items.len() - 1
        } else {
            -1
        }
    }
}

/// The strings of option items that are all strings.
pub open spec fn spec_strings(items: Seq<OptionModel>) -> Seq<Seq<char>> {
    Seq::new(items.len(), |i: int| items[i]->Str_0)
}

/// `"expected <what>, found <kind of v>"`.
pub open spec fn spec_file_expected(what: Seq<char>, v: OptionModel) -> Seq<char> {
    "expected "@ + what + ", found "@ + spec_type_display(spec_type_of(v))
}

/// The settings of a file source, or why they are rejected: a bad `ignore` list first, then a
/// bad ignore value, a bad `lowercase`, and an empty resource. Options under other keys are not
/// read.
pub open spec fn spec_file_settings(source: SourceModel) -> Result<FileSettingsModel, FileFault> {
    let o = source.options;
    let ignore: Result<Seq<Seq<char>>, FileFault> = match spec_get(o, "ignore"@) {
        None => Ok(Seq::empty()),
        Some(OptionModel::List(items)) => {
            let b = spec_first_non_string(items);
            if b >= 0 {
                Err(FileFault::Option("ignore"@, spec_file_expected("string"@, items[b])))
            } else {
                Ok(spec_strings(items))
            }
        },
        Some(v) => Err(FileFault::Option("ignore"@, spec_file_expected("list"@, v))),
    };
    match ignore {
        Err(f) => Err(f),
        Ok(ignore) => {
            let bad = spec_first_bad_ignore(ignore);
            if bad >= 0 {
                Err(
                    FileFault::Option(
                        "ignore"@,
                        "unknown ignore value `"@ + ignore[bad]
                            + "` (expected `not-found` or `no-access`)"@,
                    ),
                )
            } else {
                let lowercase: Result<bool, FileFault> = match spec_get(o, "lowercase"@) {
                    None => Ok(true),
                    Some(OptionModel::Bool(b)) => Ok(b),
                    Some(v) => Err(FileFault::Option("lowercase"@, spec_file_expected("boolean"@, v))),
                };
                match lowercase {
                    Err(f) => Err(f),
                    Ok(lowercase) => if source.resource.len() == 0 {
                        Err(FileFault::Resource)
                    } else {
                        Ok(FileSettingsModel { ignore, lowercase, resource: source.resource })
                    },
                }
            }
        },
    }
}

/// Whether a failure of `kind` is tolerated by `ignore`.
pub open spec fn spec_should_ignore(ignore: Seq<Seq<char>>, kind: IoKind) -> bool {
    match kind {
        IoKind::NotFound => ignore.contains("not-found"@),
        IoKind::PermissionDenied => ignore.contains("no-access"@),
        IoKind::Other => false,
    }
}

/// Index of the last `/` in `s`, or `-1`.
pub open spec fn spec_last_slash(s: Seq<char>) -> int
    decreases s.len(),
{
    if s.len() == 0 {
        -1
    } else if s.last() == '/' {
        s.len() - 1
    } else {
        spec_last_slash(s.drop_last())
    }
}

/// Index of the last `.` in `s`, or `-1`.
pub open spec fn spec_last_dot(s: Seq<char>) -> int
    decreases s.len(),
{
    if s.len() == 0 {
        -1
    } else if s.last() == '.' {
        s.len() - 1
    } else {
        spec_last_dot(s.drop_last())
    }
}

/// The file name of a path: the text after its last `/`.
pub open spec fn spec_file_name(path: Seq<char>) -> Seq<char> {
    path.skip(spec_last_slash(path) + 1)
}

/// The stem and extension of a file name: split at its last `.`, unless the name is `..` or the
/// only `.` starts it, in which case the whole name is the stem and there is no extension.
pub open spec fn spec_stem_extension(f: Seq<char>) -> (Seq<char>, Option<Seq<char>>) {
    let d = spec_last_dot(f);
    if f == ".."@ || d <= 0 {
        (f, None)
    } else {
        (f.take(d), Some(f.skip(d + 1)))
    }
}

/// A part of a path trimmed, `None` when empty, lower-cased when asked.
pub open spec fn spec_name_part(part: Seq<char>, lowercase: bool) -> Option<Seq<char>> {
    let t = spec_trim(part);
    if t.len() == 0 {
        None
    } else if lowercase {
        Some(lowercase_text(t))
    } else {
        Some(t)
    }
}

/// The entry name and format of the regular file at `path`.
pub open spec fn spec_file_info(path: Seq<char>, lowercase: bool) -> (Option<Seq<char>>, Option<Seq<char>>) {
    let (stem, ext) = spec_stem_extension(spec_file_name(path));
    (
        spec_name_part(stem, lowercase),
        match ext {
            Some(e) => spec_name_part(e, lowercase),
            None => None,
        },
    )
}

/// `a` sorts strictly before `b`, character by character.
pub open spec fn spec_chars_lt(a: Seq<char>, b: Seq<char>) -> bool
    decreases a.len(),
{
    if a.len() == 0 {
        b.len() > 0
    } else if b.len() == 0 {
        false
    } else if a[0] != b[0] {
        a[0] < b[0]
    } else {
        spec_chars_lt(a.drop_first(), b.drop_first())
    }
}

/// A file to load: its entry name and format, its path, and the source narrowed to it.
#[derive(Debug)]
pub struct FileEntry {
    pub name: Option<String>,
    pub format: Option<String>,
    pub path: String,
    pub source: Source,
}

/// The file loader.
pub struct File;

impl File {
    /// A file loader.
    pub fn new() -> (r: File) {
        File
    }

    /// Name of this loader.
    pub fn name(&self) -> (r: &'static str)
        ensures
            r@ == spec_file_loader_name(),
    {
        "File"
    }

    /// The source names this loader handles: `file`.
    pub fn supported_source_list(&self) -> (r: Vec<String>)
        ensures
            r@.len() == 1 && r@[0]@ == "file"@,
    {
        vec!["file".to_owned()]
    }

    /// The settings of `source` (see [`spec_file_settings`]).
    pub fn settings(source: &Source) -> (r: Result<FileSettings, Error>)
        ensures
            match spec_file_settings(source@) {
                Ok(m) => r matches Ok(s) && s@ == m,
                Err(FileFault::Option(k, why)) => r matches Err(Error::InvalidOption { loader, key, reason })
                    && loader@ == spec_file_loader_name() && key@ == k && reason@ == why,
                Err(FileFault::Resource) => r matches Err(Error::InvalidResource { loader, resource, reason })
                    && loader@ == spec_file_loader_name() && resource@ == source@.resource
                    && reason@ == "resource (file or directory path) is required"@,
            },
    {
        let options = source.options();
        let ghost o = source@.options;
        let ignore: Vec<String> = match options.get("ignore") {
            None => Vec::new(),
            Some(value) => match value.as_list() {
                None => {
                    return Err(file_invalid_option("ignore", "list", value.value_type().as_str()));
                },
                Some(list) => {
                    let ghost items = value@->List_0;
                    let mut out: Vec<String> = Vec::new();
                    let mut k: usize = 0;
                    assert(items.take(0) =~= Seq::<OptionModel>::empty());
                    while k < list.len()
                        invariant
                            o == source@.options,
                            spec_get(o, "ignore"@) == Some(value@),
                            value@ == OptionModel::List(items),
                            items == crate::source::list_model(list@),
                            0 <= k <= list@.len(),
                            spec_first_non_string(items.take(k as int)) == -1,
                            spec_texts(out@) == spec_strings(items.take(k as int)),
                        decreases list@.len() - k,
                    {
                        assert(items.take(k + 1).drop_last() =~= items.take(k as int));
                        assert(items[k as int] == list@[k as int]@);
                        match list[k].as_string() {
                            Some(s) => {
                                let ghost before = spec_texts(out@);
                                out.push(s.clone());
                                assert(spec_texts(out@) =~= before.push(s@));
                                assert(items.take(k + 1)[k as int] == items[k as int]);
                                assert(spec_strings(items.take(k + 1)) =~= spec_strings(items.take(k as int)).push(s@));
                                assert(spec_texts(out@) =~= spec_strings(items.take(k + 1)));
                            },
                            None => {
                                proof {
                                    lemma_first_non_string_prefix(items, k as int);
                                }
                                return Err(file_invalid_option("ignore", "string", list[k].value_type().as_str()));
                            },
                        }
                        k = k + 1;
                    }
                    assert(items.take(list@.len() as int) =~= items);
                    out
                },
            },
        };
        let ghost ig = spec_texts(ignore@);
        let mut j: usize = 0;
        assert(ig.take(0) =~= Seq::<Seq<char>>::empty());
        while j < ignore.len()
            invariant
                o == source@.options,
                match spec_get(o, "ignore"@) {
                    None => ig.len() == 0,
                    Some(OptionModel::List(items)) => spec_first_non_string(items) == -1 && ig == spec_strings(items),
                    Some(_) => false,
                },
                ig == spec_texts(ignore@),
                0 <= j <= ignore@.len(),
                spec_first_bad_ignore(ig.take(j as int)) == -1,
            decreases ignore@.len() - j,
        {
            assert(ig.take(j + 1).drop_last() =~= ig.take(j as int));
            assert(ig[j as int] == ignore@[j as int]@);
            let item = ignore[j].as_str();
            if !str_equal(item, "not-found") && !str_equal(item, "no-access") {
                proof {
                    lemma_first_bad_ignore_prefix(ig, j as int);
                }
                let mut reason = "unknown ignore value `".to_owned();
                reason.append(item);
                reason.append("` (expected `not-found` or `no-access`)");
                return Err(Error::InvalidOption { loader: "File".to_owned(), key: "ignore".to_owned(), reason });
            }
            j = j + 1;
        }
        assert(ig.take(ignore@.len() as int) =~= ig);
        let lowercase = match options.get("lowercase") {
            None => true,
            Some(value) => match value.as_bool() {
                Some(b) => b,
                None => {
                    return Err(file_invalid_option("lowercase", "boolean", value.value_type().as_str()));
                },
            },
        };
        if source.resource().is_empty() {
            return Err(Error::InvalidResource {
                loader: "File".to_owned(),
                resource: source.resource().to_owned(),
                reason: "resource (file or directory path) is required".to_owned(),
            });
        }
        Ok(FileSettings { ignore, lowercase, resource: source.resource().to_owned() })
    }

    /// Whether a failure of `kind` is tolerated by `ignore`.
    pub fn should_ignore(ignore: &[String], kind: IoKind) -> (r: bool)
        ensures
            r == spec_should_ignore(spec_texts(ignore@), kind),
    {
        let wanted = match kind {
            IoKind::NotFound => "not-found",
            IoKind::PermissionDenied => "no-access",
            IoKind::Other => {
                return false;
            },
        };
        let ghost ig = spec_texts(ignore@);
        let mut i: usize = 0;
        while i < ignore.len()
            invariant
                ig == spec_texts(ignore@),
                0 <= i <= ignore@.len(),
                forall|k: int| 0 <= k < i ==> ig[k] != wanted@,
                kind is NotFound ==> wanted@ == "not-found"@,
                kind is PermissionDenied ==> wanted@ == "no-access"@,
                !(kind is Other),
            decreases ignore@.len() - i,
        {
            if str_equal(ignore[i].as_str(), wanted) {
                assert(ig[i as int] == wanted@);
                assert(ig.contains(wanted@));
                return true;
            }
            i = i + 1;
        }
        false
    }

    /// The entry name and format of the regular file at `path` (see [`spec_file_info`]).
    pub fn info(path: &str, lowercase: bool) -> (r: (Option<String>, Option<String>))
        ensures
            (spec_opt_chars(r.0), spec_opt_chars(r.1)) == spec_file_info(path@, lowercase),
    {
        let chars = chars_of(path);
        let n = chars.len();
        let slash = last_index_of(&chars, '/');
        let start: usize = match slash {
            Some(s) => s + 1,
            None => 0,
        };
        let file = sub_chars(&chars, start, n);
        assert(file@ =~= spec_file_name(path@));
        let dot = last_index_of(&file, '.');
        let is_dotdot = file.len() == 2 && file[0] == '.' && file[1] == '.';
        proof {
            reveal_strlit("..");
            if is_dotdot {
                assert(file@ =~= ".."@);
            } else if file@.len() == 2 {
                assert(file@ != ".."@ ==> !(file@[0] == '.' && file@[1] == '.'));
            }
            assert(is_dotdot == (file@ == ".."@));
        }
        let (stem, ext): (Vec<char>, Option<Vec<char>>) = match dot {
            Some(d) => {
                if is_dotdot || d == 0 {
                    (file, None)
                } else {
                    let fl = file.len();
                    (sub_chars(&file, 0, d), Some(sub_chars(&file, d + 1, fl)))
                }
            },
            None => (file, None),
        };
        proof {
            let f = spec_file_name(path@);
            let se = spec_stem_extension(f);
            assert(stem@ =~= se.0);
            assert(match ext {
                Some(e) => se.1 == Some(e@),
                None => se.1 is None,
            });
        }
        let name = name_part(&stem, lowercase);
        let format = match ext {
            Some(e) => name_part(&e, lowercase),
            None => None,
        };
        (name, format)
    }

    /// What a failure to list the resource directory becomes: `Ok` when tolerated (the loader
    /// then yields nothing), else `NotFound`, `NoAccess` or a `Load` error.
    pub fn directory_failure(settings: &FileSettings, kind: IoKind, message: &str) -> (r: Result<(), Error>)
        ensures
            spec_should_ignore(settings@.ignore, kind) ==> r is Ok,
            !spec_should_ignore(settings@.ignore, kind) ==> match kind {
                IoKind::NotFound => r matches Err(Error::NotFound { loader, resource, item })
                    && loader@ == spec_file_loader_name() && resource@ == settings@.resource
                    && item@ == "directory `"@ + path_debug_text(settings@.resource) + "`"@,
                IoKind::PermissionDenied => r matches Err(Error::NoAccess { loader, resource, source })
                    && loader@ == spec_file_loader_name() && resource@ == settings@.resource
                    && source@ == message@,
                IoKind::Other => r matches Err(Error::Load { loader, resource, description, source })
                    && loader@ == spec_file_loader_name() && resource@ == settings@.resource
                    && description@ == "load directory file list"@ && source@ == message@,
            },
    {
        if File::should_ignore(settings.ignore.as_slice(), kind) {
            return Ok(());
        }
        match kind {
            IoKind::NotFound => {
                let mut item = "directory `".to_owned();
                item.append(path_debug_string(settings.resource.as_str()).as_str());
                item.append("`");
                Err(Error::NotFound { loader: "File".to_owned(), resource: settings.resource.clone(), item })
            },
            IoKind::PermissionDenied => Err(Error::NoAccess {
                loader: "File".to_owned(),
                resource: settings.resource.clone(),
                source: message.to_owned(),
            }),
            IoKind::Other => Err(Error::Load {
                loader: "File".to_owned(),
                resource: settings.resource.clone(),
                description: "load directory file list".to_owned(),
                source: message.to_owned(),
            }),
        }
    }

    /// What a failure to read one directory entry becomes: `Ok` when tolerated (the entry is
    /// skipped), else a `Load` error.
    pub fn entry_failure(settings: &FileSettings, kind: IoKind, message: &str) -> (r: Result<(), Error>)
        ensures
            spec_should_ignore(settings@.ignore, kind) ==> r is Ok,
            !spec_should_ignore(settings@.ignore, kind) ==> (r matches Err(Error::Load { loader, resource, description, source })
                && loader@ == spec_file_loader_name() && resource@ == settings@.resource
                && description@ == "load directory file list"@ && source@ == message@),
    {
        if File::should_ignore(settings.ignore.as_slice(), kind) {
            return Ok(());
        }
        Err(Error::Load {
            loader: "File".to_owned(),
            resource: settings.resource.clone(),
            description: "load directory file list".to_owned(),
            source: message.to_owned(),
        })
    }

    /// What a resource path that does not exist becomes: `Ok` when `not-found` is tolerated (the
    /// loader yields nothing), else `NotFound`.
    pub fn missing(settings: &FileSettings) -> (r: Result<(), Error>)
        ensures
            spec_should_ignore(settings@.ignore, IoKind::NotFound) ==> r is Ok,
            !spec_should_ignore(settings@.ignore, IoKind::NotFound) ==> (r matches Err(Error::NotFound { loader, resource, item })
                && loader@ == spec_file_loader_name() && resource@ == settings@.resource
                && item@ == "path `"@ + path_debug_text(settings@.resource) + "`"@),
    {
        if File::should_ignore(settings.ignore.as_slice(), IoKind::NotFound) {
            return Ok(());
        }
        let mut item = "path `".to_owned();
        item.append(path_debug_string(settings.resource.as_str()).as_str());
        item.append("`");
        Err(Error::NotFound { loader: "File".to_owned(), resource: settings.resource.clone(), item })
    }

    /// The error for a resource that exists but is neither a directory nor a regular file.
    pub fn not_regular(settings: &FileSettings) -> (r: Error)
        ensures
            r matches Error::InvalidResource { loader, resource, reason } && loader@
                == spec_file_loader_name() && resource@ == settings@.resource && reason@
                == "resource is not a directory or regular file"@,
    {
        Error::InvalidResource {
            loader: "File".to_owned(),
            resource: settings.resource.clone(),
            reason: "resource is not a directory or regular file".to_owned(),
        }
    }

    /// What a failure to read the file at `path` becomes: `Ok` when tolerated (the file is
    /// skipped), else `NotFound`, `NoAccess` or a `Load` error.
    pub fn read_failure(settings: &FileSettings, path: &str, kind: IoKind, message: &str) -> (r: Result<(), Error>)
        ensures
            spec_should_ignore(settings@.ignore, kind) ==> r is Ok,
            !spec_should_ignore(settings@.ignore, kind) ==> match kind {
                IoKind::NotFound => r matches Err(Error::NotFound { loader, resource, item })
                    && loader@ == spec_file_loader_name() && resource@ == settings@.resource
                    && item@ == "file `"@ + path_debug_text(path@) + "`"@,
                IoKind::PermissionDenied => r matches Err(Error::NoAccess { loader, resource, source })
                    && loader@ == spec_file_loader_name() && resource@ == settings@.resource
                    && source@ == message@,
                IoKind::Other => r matches Err(Error::Load { loader, resource, description, source })
                    && loader@ == spec_file_loader_name() && resource@ == settings@.resource
                    && description@ == "read contents of file `"@ + path_debug_text(path@) + "`"@
                    && source@ == message@,
            },
    {
        if File::should_ignore(settings.ignore.as_slice(), kind) {
            return Ok(());
        }
        match kind {
            IoKind::NotFound => {
                let mut item = "file `".to_owned();
                item.append(path_debug_string(path).as_str());
                item.append("`");
                Err(Error::NotFound { loader: "File".to_owned(), resource: settings.resource.clone(), item })
            },
            IoKind::PermissionDenied => Err(Error::NoAccess {
                loader: "File".to_owned(),
                resource: settings.resource.clone(),
                source: message.to_owned(),
            }),
            IoKind::Other => {
                let mut description = "read contents of file `".to_owned();
                description.append(path_debug_string(path).as_str());
                description.append("`");
                Err(Error::Load {
                    loader: "File".to_owned(),
                    resource: settings.resource.clone(),
                    description,
                    source: message.to_owned(),
                })
            },
        }
    }

    /// The entry for the regular file at `path`: its name and format, and `source` narrowed to
    /// the path.
    pub fn entry(source: &Source, settings: &FileSettings, path: &str) -> (r: FileEntry)
        ensures
            (spec_opt_chars(r.name), spec_opt_chars(r.format)) == spec_file_info(path@, settings.lowercase),
            r.path@ == path@,
            r.source@ == (SourceModel {
                resource: path@,
                resource_colon: source@.resource_colon || path@.len() > 0,
                ..source@
            }),
    {
        let (name, format) = File::info(path, settings.lowercase);
        FileEntry {
            name,
            format,
            path: path.to_owned(),
            source: source.clone().with_resource(path.to_owned()),
        }
    }

    /// The entries ordered by path, character by character.
    pub fn sort_entries(entries: Vec<FileEntry>) -> (r: Vec<FileEntry>)
        ensures
            r@.to_multiset() == entries@.to_multiset(),
            forall|i: int, j: int| 0 <= i < j < r@.len() ==> !spec_chars_lt(r@[j].path@, r@[i].path@),
    {
        let mut input = entries;
        let mut out: Vec<FileEntry> = Vec::new();
        assert(out@.to_multiset() =~= vstd::multiset::Multiset::<FileEntry>::empty()) by {
            vstd::seq_lib::to_multiset_len(out@);
        }
        assert(out@.to_multiset().add(input@.to_multiset()) =~= entries@.to_multiset());
        while input.len() > 0
            invariant
                out@.to_multiset().add(input@.to_multiset()) == entries@.to_multiset(),
                forall|i: int, j: int| 0 <= i < j < out@.len() ==> !spec_chars_lt(out@[j].path@, out@[i].path@),
            decreases input@.len(),
        {
            let ghost old_in = input@;
            let e = input.pop().unwrap();
            let ghost before_in = input@;
            assert(old_in =~= before_in.push(e));
            let p = insertion_point(&out, e.path.as_str());
            let ghost before_out = out@;
            out.insert(p, e);
            proof {
                vstd::seq_lib::to_multiset_build(before_in, e);
                vstd::seq_lib::to_multiset_insert(before_out, p as int, e);
                assert(out@ == before_out.insert(p as int, e));
                assert(out@.to_multiset().add(input@.to_multiset()) =~= entries@.to_multiset());
                assert(forall|i: int, j: int| 0 <= i < j < out@.len() ==> !spec_chars_lt(out@[j].path@, out@[i].path@)) by {
                    assert forall|i: int, j: int| 0 <= i < j < out@.len() implies !spec_chars_lt(out@[j].path@, out@[i].path@) by {
                        if j < p {
                            assert(out@[i] == before_out[i] && out@[j] == before_out[j]);
                        } else if j == p {
                            assert(out@[i] == before_out[i]);
                        } else if i == p {
                            assert(out@[j] == before_out[j - 1]);
                            lemma_chars_lt_asym(e.path@, before_out[j - 1].path@);
                        } else if i < p {
                            assert(out@[i] == before_out[i] && out@[j] == before_out[j - 1]);
                        } else {
                            assert(out@[i] == before_out[i - 1] && out@[j] == before_out[j - 1]);
                        }
                    }
                }
            }
        }
        assert(input@.to_multiset() =~= vstd::multiset::Multiset::<FileEntry>::empty()) by {
            vstd::seq_lib::to_multiset_len(input@);
        }
        assert(out@.to_multiset() =~= out@.to_multiset().add(input@.to_multiset()));
        out
    }

    /// The payload of an entry with the bytes read from it.
    pub fn payload(entry: FileEntry, content: Vec<u8>) -> (r: Payload)
        ensures
            r@ == (PayloadModel {
                source: entry.source@,
                name: spec_opt_chars(entry.name),
                format: spec_opt_chars(entry.format),
                content: content@,
            }),
    {
        Payload { source: entry.source, maybe_name: entry.name, maybe_format: entry.format, content }
    }
}

/// `InvalidOption` of the file loader: "expected `what`, found `found`".
fn file_invalid_option(key: &str, what: &str, found: &str) -> (r: Error)
    ensures
        r matches Error::InvalidOption { loader, key: k, reason } && loader@ == spec_file_loader_name()
            && k@ == key@ && reason@ == "expected "@ + what@ + ", found "@ + found@,
{
    let mut reason = "expected ".to_owned();
    reason.append(what);
    reason.append(", found ");
    reason.append(found);
    Error::InvalidOption { loader: "File".to_owned(), key: key.to_owned(), reason }
}

/// A part of a path trimmed, `None` when empty, lower-cased when asked.
pub(crate) fn name_part(part: &Vec<char>, lowercase: bool) -> (r: Option<String>)
    ensures
        spec_opt_chars(r) == spec_name_part(part@, lowercase),
{
    let t = trim_chars(part);
    if t.len() == 0 {
        return None;
    }
    let text = string_from_chars(t.as_slice());
    if lowercase {
        Some(to_lowercase(text.as_str()))
    } else {
        Some(text)
    }
}

/// Index of the last `c` in `s`.
fn last_index_of(s: &Vec<char>, c: char) -> (r: Option<usize>)
    ensures
        c == '/' ==> match r {
            Some(i) => spec_last_slash(s@) == i && i < s@.len(),
            None => spec_last_slash(s@) == -1,
        },
        c == '.' ==> match r {
            Some(i) => spec_last_dot(s@) == i && i < s@.len(),
            None => spec_last_dot(s@) == -1,
        },
{
    let mut i: usize = s.len();
    assert(s@.subrange(0, i as int) =~= s@);
    while i > 0
        invariant
            0 <= i <= s@.len(),
            c == '/' ==> spec_last_slash(s@) == spec_last_slash(s@.subrange(0, i as int)),
            c == '.' ==> spec_last_dot(s@) == spec_last_dot(s@.subrange(0, i as int)),
        decreases i,
    {
        let ghost sub = s@.subrange(0, i as int);
        assert(sub.last() == s@[i - 1]);
        if s[i - 1] == c {
            return Some(i - 1);
        }
        assert(sub.drop_last() =~= s@.subrange(0, i - 1));
        i = i - 1;
    }
    None
}

/// Whether `a` sorts strictly before `b`.
fn chars_lt(a: &Vec<char>, b: &Vec<char>) -> (r: bool)
    ensures
        r == spec_chars_lt(a@, b@),
{
    let mut i: usize = 0;
    assert(a@.skip(0) =~= a@);
    assert(b@.skip(0) =~= b@);
    while i < a.len() && i < b.len() && a[i] == b[i]
        invariant
            0 <= i <= a@.len(),
            i <= b@.len(),
            forall|k: int| 0 <= k < i ==> a@[k] == b@[k],
            spec_chars_lt(a@, b@) == spec_chars_lt(a@.skip(i as int), b@.skip(i as int)),
        decreases a@.len() - i,
    {
        assert(a@.skip(i as int).drop_first() =~= a@.skip(i + 1));
        assert(b@.skip(i as int).drop_first() =~= b@.skip(i + 1));
        i = i + 1;
    }
    let ghost sa = a@.skip(i as int);
    let ghost sb = b@.skip(i as int);
    if i == a.len() {
        assert(sa.len() == 0);
        return i < b.len();
    }
    if i == b.len() {
        assert(sb.len() == 0);
        return false;
    }
    assert(sa[0] == a@[i as int] && sb[0] == b@[i as int]);
    a[i] < b[i]
}

/// Position at which an entry with `path` keeps `out` ordered: after every entry that does not
/// sort after it.
fn insertion_point(out: &Vec<FileEntry>, path: &str) -> (r: usize)
    requires
        forall|i: int, j: int| 0 <= i < j < out@.len() ==> !spec_chars_lt(out@[j].path@, out@[i].path@),
    ensures
        r <= out@.len(),
        forall|i: int| 0 <= i < r ==> !spec_chars_lt(path@, out@[i].path@),
        forall|i: int| r <= i < out@.len() ==> spec_chars_lt(path@, out@[i].path@),
{
    let p = chars_of(path);
    let mut k: usize = 0;
    while k < out.len()
        invariant
            0 <= k <= out@.len(),
            p@ == path@,
            forall|i: int, j: int| 0 <= i < j < out@.len() ==> !spec_chars_lt(out@[j].path@, out@[i].path@),
            forall|i: int| 0 <= i < k ==> !spec_chars_lt(path@, out@[i].path@),
        decreases out@.len() - k,
    {
        let q = chars_of(out[k].path.as_str());
        if chars_lt(&p, &q) {
            proof {
                assert forall|i: int| k <= i < out@.len() implies spec_chars_lt(path@, out@[i].path@) by {
                    if i > k {
                        lemma_chars_lt_le_trans(path@, out@[k as int].path@, out@[i].path@);
                    }
                }
            }
            return k;
        }
        k = k + 1;
    }
    k
}

/// `a < b` and `!(c < b)` give `a < c`.
proof fn lemma_chars_lt_le_trans(a: Seq<char>, b: Seq<char>, c: Seq<char>)
    requires
        spec_chars_lt(a, b),
        !spec_chars_lt(c, b),
    ensures
        spec_chars_lt(a, c),
    decreases a.len(),
{
    assert(b.len() > 0);
    assert(c.len() > 0);
    if a.len() > 0 && a[0] == b[0] && b[0] == c[0] {
        lemma_chars_lt_le_trans(a.drop_first(), b.drop_first(), c.drop_first());
    }
}

/// `a < b` rules out `b < a`.
proof fn lemma_chars_lt_asym(a: Seq<char>, b: Seq<char>)
    requires
        spec_chars_lt(a, b),
    ensures
        !spec_chars_lt(b, a),
    decreases a.len(),
{
    if a.len() > 0 && b.len() > 0 && a[0] == b[0] {
        lemma_chars_lt_asym(a.drop_first(), b.drop_first());
    }
}

/// With a non-string at `i` and none before, the first non-string is at `i`.
proof fn lemma_first_non_string_prefix(items: Seq<OptionModel>, i: int)
    requires
        0 <= i < items.len(),
        spec_first_non_string(items.take(i)) == -1,
        !(items[i] is Str),
    ensures
        spec_first_non_string(items) == i,
    decreases items.len(),
{
    if items.len() - 1 > i {
        assert(items.drop_last().take(i) =~= items.take(i));
        assert(items.drop_last()[i] == items[i]);
        lemma_first_non_string_prefix(items.drop_last(), i);
    } else {
        assert(items.drop_last() =~= items.take(i));
    }
}

/// With a bad ignore value at `i` and none before, the first bad one is at `i`.
proof fn lemma_first_bad_ignore_prefix(items: Seq<Seq<char>>, i: int)
    requires
        0 <= i < items.len(),
        spec_first_bad_ignore(items.take(i)) == -1,
        items[i] != "not-found"@ && items[i] != "no-access"@,
    ensures
        spec_first_bad_ignore(items) == i,
    decreases items.len(),
{
    if items.len() - 1 > i {
        assert(items.drop_last().take(i) =~= items.take(i));
        assert(items.drop_last()[i] == items[i]);
        lemma_first_bad_ignore_prefix(items.drop_last(), i);
    } else {
        assert(items.drop_last() =~= items.take(i));
    }
}

/// The last `/` of a text is the one with none after it.
proof fn lemma_last_slash_at(s: Seq<char>, i: int)
    requires
        0 <= i < s.len(),
        s[i] == '/',
        forall|j: int| i < j < s.len() ==> s[j] != '/',
    ensures
        spec_last_slash(s) == i,
    decreases s.len(),
{
    if s.len() - 1 > i {
        assert(s.drop_last()[i] == s[i]);
        lemma_last_slash_at(s.drop_last(), i);
    }
}

/// The last `.` of a text is the one with none after it.
proof fn lemma_last_dot_at(s: Seq<char>, i: int)
    requires
        0 <= i < s.len(),
        s[i] == '.',
        forall|j: int| i < j < s.len() ==> s[j] != '.',
    ensures
        spec_last_dot(s) == i,
    decreases s.len(),
{
    if s.len() - 1 > i {
        assert(s.drop_last()[i] == s[i]);
        lemma_last_dot_at(s.drop_last(), i);
    }
}

/// The file name of `DIR/STEM.EXT` splits into `STEM` and `EXT`.
proof fn lemma_file_split(dir: Seq<char>, stem: Seq<char>, ext: Seq<char>)
    requires
        stem.len() > 0,
        ext.len() > 0,
        forall|j: int| 0 <= j < stem.len() ==> stem[j] != '/',
        forall|j: int| 0 <= j < ext.len() ==> ext[j] != '/' && ext[j] != '.',
    ensures
        spec_stem_extension(spec_file_name(dir + seq!['/'] + stem + seq!['.'] + ext)) == (stem, Some(ext)),
{
    let f = stem + seq!['.'] + ext;
    let path = dir + seq!['/'] + f;
    assert(dir + seq!['/'] + stem + seq!['.'] + ext =~= path);
    assert forall|j: int| dir.len() < j < path.len() implies path[j] != '/' by {
        let k = j - dir.len() - 1;
        assert(path[j] == f[k]);
        if k < stem.len() {
            assert(f[k] == stem[k]);
        } else if k > stem.len() {
            assert(f[k] == ext[k - stem.len() - 1]);
        }
    }
    lemma_last_slash_at(path, dir.len() as int);
    assert(spec_file_name(path) =~= f);
    assert forall|j: int| stem.len() < j < f.len() implies f[j] != '.' by {
        assert(f[j] == ext[j - stem.len() - 1]);
    }
    lemma_last_dot_at(f, stem.len() as int);
    reveal_strlit("..");
    assert(f.len() >= 3);
    assert(f != ".."@);
    assert(f.take(stem.len() as int) =~= stem);
    assert(f.skip(stem.len() as int + 1) =~= ext);
}

/// A file `STEM.EXT` in any directory is named by its stem and formatted by its extension, each
/// trimmed and lower-cased when asked (an empty one after trimming gives none): the split is at
/// the last `.` of the file name, whatever the directory part holds.
pub proof fn law_file_info_splits_name(dir: Seq<char>, stem: Seq<char>, ext: Seq<char>, lowercase: bool)
    requires
        stem.len() > 0,
        ext.len() > 0,
        forall|j: int| 0 <= j < stem.len() ==> stem[j] != '/',
        forall|j: int| 0 <= j < ext.len() ==> ext[j] != '/' && ext[j] != '.',
    ensures
        spec_file_info(dir + seq!['/'] + stem + seq!['.'] + ext, lowercase) == (
            if spec_trim(stem).len() == 0 {
                None
            } else if lowercase {
                Some(lowercase_text(spec_trim(stem)))
            } else {
                Some(spec_trim(stem))
            },
            if spec_trim(ext).len() == 0 {
                None
            } else if lowercase {
                Some(lowercase_text(spec_trim(ext)))
            } else {
                Some(spec_trim(ext))
            },
        ),
{
    lemma_file_split(dir, stem, ext);
}

/// Settings a file source gives carry its resource and options: the `ignore` list's strings in
/// order (none when absent), each `not-found` or `no-access`, and `lowercase` (true when absent).
pub proof fn law_file_settings_from_options(source: SourceModel)
    requires
        spec_file_settings(source) is Ok,
    ensures
        source.resource.len() > 0,
        spec_file_settings(source)->Ok_0.resource == source.resource,
        spec_get(source.options, "lowercase"@) is None ==> spec_file_settings(source)->Ok_0.lowercase,
        spec_get(source.options, "lowercase"@) matches Some(OptionModel::Bool(b)) ==> spec_file_settings(source)->Ok_0.lowercase == b,
        spec_get(source.options, "ignore"@) is None ==> spec_file_settings(source)->Ok_0.ignore.len() == 0,
        spec_get(source.options, "ignore"@) matches Some(OptionModel::List(items)) ==> (spec_file_settings(source)->Ok_0.ignore.len()
            == items.len() && forall|k: int|
            0 <= k < items.len() ==> items[k] is Str && #[trigger] spec_file_settings(source)->Ok_0.ignore[k]
                == items[k]->Str_0),
        forall|k: int|
            0 <= k < spec_file_settings(source)->Ok_0.ignore.len() ==> #[trigger] spec_file_settings(source)->Ok_0.ignore[k]
                == "not-found"@ || spec_file_settings(source)->Ok_0.ignore[k] == "no-access"@,
{
    match spec_get(source.options, "ignore"@) {
        Some(OptionModel::List(items)) => {
            lemma_first_non_string_none(items);
            lemma_first_bad_ignore_none(spec_strings(items));
        },
        _ => {
            lemma_first_bad_ignore_none(Seq::<Seq<char>>::empty());
        },
    }
}

/// With no item that is not a string, every item is a string.
proof fn lemma_first_non_string_none(items: Seq<OptionModel>)
    ensures
        spec_first_non_string(items) == -1 ==> forall|k: int| 0 <= k < items.len() ==> (#[trigger] items[k]) is Str,
    decreases items.len(),
{
    if items.len() > 0 {
        lemma_first_non_string_none(items.drop_last());
        if spec_first_non_string(items) == -1 {
            assert forall|k: int| 0 <= k < items.len() implies (#[trigger] items[k]) is Str by {
                if k < items.len() - 1 {
                    assert(items[k] == items.drop_last()[k]);
                }
            }
        }
    }
}

/// With no bad ignore value, every value is `not-found` or `no-access`.
proof fn lemma_first_bad_ignore_none(items: Seq<Seq<char>>)
    ensures
        spec_first_bad_ignore(items) == -1 ==> forall|k: int|
            0 <= k < items.len() ==> #[trigger] items[k] == "not-found"@ || items[k] == "no-access"@,
    decreases items.len(),
{
    if items.len() > 0 {
        lemma_first_bad_ignore_none(items.drop_last());
        if spec_first_bad_ignore(items) == -1 {
            assert forall|k: int| 0 <= k < items.len() implies #[trigger] items[k] == "not-found"@ || items[k] == "no-access"@ by {
                if k < items.len() - 1 {
                    assert(items[k] == items.drop_last()[k]);
                }
            }
        }
    }
}

} // verus!


