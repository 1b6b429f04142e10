//! Path rules and errors of the sandboxed test environment.
//!
//! A sandbox is a temporary directory; every path handed to it must be relative and must not
//! climb out through a `..` segment. Paths use `/` as separator.

use vstd::prelude::*;
use crate::text::{chars_of, starts_with_chars, spec_starts_with};

verus! {

/// Errors returned by sandbox operations.
#[derive(Debug)]
pub enum Error {
    /// A method that requires an active sandbox was called outside of a run.
    Inactive,
    /// A filesystem or environment operation failed. `action` describes what was attempted,
    /// `path` names the target when there is one, and `source` is the text of the underlying
    /// cause.
    Io { action: String, path: Option<String>, source: String },
    /// A path was absolute; sandbox paths must be relative.
    NotRelative { path: String },
    /// A path resolved outside the sandbox directory (it contained a `..` segment).
    Escapes { path: String },
    /// A user error carried through a run, by its text.
    Other(String),
}

/// The one-line text of an error, followed in the alternate form by `": "` and its cause.
pub open spec fn spec_environment_error_text(error: Error, alternate: bool) -> Seq<char> {
    match error {
        Error::Inactive => "the sandbox environment is not active; call this inside `Environment::run`"@,
        Error::Io { action, path, source } => {
            let head = match path {
                Some(p) => "could not "@ + action@ + " `"@ + p@ + "`"@,
                None => "could not "@ + action@,
            };
            if alternate {
                head + ": "@ + source@
            } else {
                head
            }
        },
        Error::NotRelative { path } => "path `"@ + path@ + "` must be relative to the sandbox"@,
        Error::Escapes { path } => "path `"@ + path@ + "` escapes the sandbox directory"@,
        Error::Other(message) => message@,
    }
}

impl Error {
    /// The `Display` text of this error; `alternate` appends the cause of an I/O failure.
    pub fn to_display_string(&self, alternate: bool) -> (r: String)
        ensures
            r@ == spec_environment_error_text(*self, alternate),
    {
        match self {
            Error::Inactive => {
                "the sandbox environment is not active; call this inside `Environment::run`".to_owned()
            },
            Error::Io { action, path, source } => {
                let mut out = "could not ".to_owned();
                out.append(action.as_str());
                match path {
                    Some(p) => {
                        out.append(" `");
                        out.append(p.as_str());
                        out.append("`");
                    },
                    None => {},
                }
                if alternate {
                    out.append(": ");
                    out.append(source.as_str());
                }
                out
            },
            Error::NotRelative { path } => {
                let mut out = "path `".to_owned();
                out.append(path.as_str());
                out.append("` must be relative to the sandbox");
                out
            },
            Error::Escapes { path } => {
                let mut out = "path `".to_owned();
                out.append(path.as_str());
                out.append("` escapes the sandbox directory");
                out
            },
            Error::Other(message) => message.clone(),
        }
    }

    /// The text of the underlying cause, when there is one: only an I/O failure has one.
    pub fn source_text(&self) -> (r: Option<String>)
        ensures
            match self {
                Error::Io { source, .. } => r matches Some(t) && t@ == source@,
                _ => r is None,
            },
    {
        match self {
            Error::Io { source, .. } => Some(source.clone()),
            _ => None,
        }
    }
}

/// `true` when `path` starts at the root.
pub open spec fn spec_is_absolute(path: Seq<char>) -> bool {
    path.len() > 0 && path[0] == '/'
}

/// `true` when one of the `/`-separated segments of `path` is `..`.
pub open spec fn spec_has_parent_segment(path: Seq<char>) -> bool {
    exists|i: int| #[trigger] spec_parent_segment_at(path, i)
}

/// `true` when a `..` segment starts at index `i` of `path`.
pub open spec fn spec_parent_segment_at(path: Seq<char>, i: int) -> bool {
    &&& 0 <= i
    &&& i + 2 <= path.len()
    &&& path[i] == '.'
    &&& path[i + 1] == '.'
    &&& (i == 0 || path[i - 1] == '/')
    &&& (i + 2 == path.len() || path[i + 2] == '/')
}

/// `relative` appended to `directory`, with one `/` between them unless `directory` is empty or
/// already ends with one.
pub open spec fn spec_join(directory: Seq<char>, relative: Seq<char>) -> Seq<char> {
    if directory.len() == 0 || directory.last() == '/' {
        directory + relative
    } else {
        directory + "/"@ + relative
    }
}

/// Whether some `/`-separated segment of `path` is `..`.
fn has_parent_segment(path: &Vec<char>) -> (r: bool)
    ensures
        r == spec_has_parent_segment(path@),
{
    let n = path.len();
    let mut i: usize = 0;
    while i < n
        invariant
            n == path@.len(),
            0 <= i <= n,
            forall|j: int| 0 <= j < i ==> !spec_parent_segment_at(path@, j),
        decreases n - i,
    {
        if n >= 2 && i <= n - 2 && path[i] == '.' && path[i + 1] == '.' && (i == 0 || path[i - 1] == '/')
            && (i + 2 == n || path[i + 2] == '/') {
            assert(spec_parent_segment_at(path@, i as int));
            return true;
        }
        assert(!spec_parent_segment_at(path@, i as int));
        i = i + 1;
    }
    assert forall|j: int| !spec_parent_segment_at(path@, j) by {
        if 0 <= j < n {
        } else {
        }
    }
    false
}

/// Join `relative` onto the sandbox `directory`, rejecting absolute paths and any `..` segment
/// that could escape the sandbox.
pub fn resolve(directory: &str, relative: &str) -> (r: Result<String, Error>)
    ensures
        spec_is_absolute(relative@) ==> (r matches Err(Error::NotRelative { path }) && path@
            == relative@),
        !spec_is_absolute(relative@) && spec_has_parent_segment(relative@) ==> (r matches Err(
            Error::Escapes { path },
        ) && path@ == relative@),
        !spec_is_absolute(relative@) && !spec_has_parent_segment(relative@) ==> (r matches Ok(
            joined,
        ) && joined@ == spec_join(directory@, relative@)),
{
    let rel = chars_of(relative);
    if rel.len() > 0 && rel[0] == '/' {
        return Err(Error::NotRelative { path: relative.to_owned() });
    }
    if has_parent_segment(&rel) {
        return Err(Error::Escapes { path: relative.to_owned() });
    }
    let dir = chars_of(directory);
    let mut out = directory.to_owned();
    if dir.len() > 0 && dir[dir.len() - 1] != '/' {
        out.append("/");
    }
    out.append(relative);
    Ok(out)
}

/// `true` when `path` is `directory` or lies under it, comparing whole `/`-separated segments (as
/// `Path::starts_with` does for normalized paths).
pub open spec fn spec_is_within(directory: Seq<char>, path: Seq<char>) -> bool {
    &&& spec_starts_with(path, directory)
    &&& (directory.len() == 0 || path.len() == directory.len() || directory.last() == '/'
        || path[directory.len() as int] == '/')
}

/// Whether `path` is `directory` or lies under it (see [`spec_is_within`]): what confirms that a
/// created path stayed inside the sandbox.
pub fn is_within(directory: &str, path: &str) -> (r: bool)
    ensures
        r == spec_is_within(directory@, path@),
{
    let d = chars_of(directory);
    let p = chars_of(path);
    if !starts_with_chars(&p, &d) {
        return false;
    }
    let n = d.len();
    n == 0 || p.len() == n || d[n - 1] == '/' || p[n] == '/'
}

} // verus!
