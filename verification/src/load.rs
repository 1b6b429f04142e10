//! Loaded payloads and loader errors.
//!
//! A loader turns one configured [`Source`] into raw [`Payload`]s; the parse stage turns each
//! payload's bytes into values.

use vstd::prelude::*;
use crate::source::{Source, SourceModel};
use crate::text::{push_chars, u64_text, spec_nat_text};

verus! {

/// Raw configuration bytes plus the metadata needed to parse and merge them.
#[derive(Debug)]
pub struct Payload {
    /// The source the bytes came from, with its resource narrowed to the item loaded.
    pub source: Source,
    /// Entry name used to group payloads when merging (`None` is the unnamed entry).
    pub maybe_name: Option<String>,
    /// Format hint (such as `json` or `env`) used to pick a parser.
    pub maybe_format: Option<String>,
    /// The raw bytes.
    pub content: Vec<u8>,
}

/// Model of a [`Payload`].
pub struct PayloadModel {
    pub source: SourceModel,
    pub name: Option<Seq<char>>,
    pub format: Option<Seq<char>>,
    pub content: Seq<u8>,
}

/// The text of an optional string.
pub open spec fn spec_opt_chars(v: Option<String>) -> Option<Seq<char>> {
    match v {
        Some(s) => Some(s@),
        None => None,
    }
}

impl View for Payload {
    type V = PayloadModel;

    open spec fn view(&self) -> PayloadModel {
        PayloadModel {
            source: self.source@,
            name: spec_opt_chars(self.maybe_name),
            format: spec_opt_chars(self.maybe_format),
            content: self.content@,
        }
    }
}

/// A copy of an optional string.
pub fn clone_opt_string(v: &Option<String>) -> (r: Option<String>)
    ensures
        spec_opt_chars(r) == spec_opt_chars(*v),
{
    match v {
        Some(s) => Some(s.clone()),
        None => None,
    }
}

impl Clone for Payload {
    fn clone(&self) -> (r: Payload)
        ensures
            r@ == self@,
    {
        Payload {
            source: self.source.clone(),
            maybe_name: clone_opt_string(&self.maybe_name),
            maybe_format: clone_opt_string(&self.maybe_format),
            content: self.content.clone(),
        }
    }
}

/// Errors a loader reports. A wrapped cause is carried as its text.
#[derive(Debug)]
pub enum Error {
    /// An expected item was not found at the resource.
    NotFound { loader: String, resource: String, item: String },
    /// The resource exists but could not be accessed.
    NoAccess { loader: String, resource: String, source: String },
    /// The resource did not answer within the timeout.
    Timeout { loader: String, resource: String, timeout_in_seconds: u64, source: String },
    /// A loader option has an invalid value or type.
    InvalidOption { loader: String, key: String, reason: String },
    /// The resource string is invalid for this loader.
    InvalidResource { loader: String, resource: String, reason: String },
    /// Two files share a name with different formats.
    Duplicate { loader: String, resource: String, name: String, format_1: String, format_2: String },
    /// Any other failure while loading, with what was attempted.
    Load { loader: String, resource: String, description: String, source: String },
    /// A wrapped error, by its text.
    Other(String),
}

/// The one-line text of a loader error.
pub open spec fn spec_load_error_head(e: Error) -> Seq<char> {
    match e {
        Error::NotFound { loader, resource, item } => loader@
            + " configuration loader could not find "@ + item@ + " at `"@ + resource@ + "`"@,
        Error::NoAccess { loader, resource, .. } => loader@
            + " configuration loader has no access to `"@ + resource@ + "`"@,
        Error::Timeout { loader, resource, timeout_in_seconds, .. } => loader@
            + " configuration loader reached timeout `"@ + spec_nat_text(timeout_in_seconds as nat)
            + "s` for `"@ + resource@ + "`"@,
        Error::InvalidOption { loader, key, reason } => loader@
            + " configuration loader invalid option `"@ + key@ + "`: "@ + reason@,
        Error::InvalidResource { loader, resource, reason } => loader@
            + " configuration loader invalid resource `"@ + resource@ + "`: "@ + reason@,
        Error::Duplicate { loader, resource, name, format_1, format_2 } => loader@
            + " configuration loader found duplicate configurations `"@ + resource@ + "/"@ + name@
            + ".("@ + format_1@ + "|"@ + format_2@ + ")`"@,
        Error::Load { loader, resource, description, .. } => loader@
            + " configuration loader could not "@ + description@ + " `"@ + resource@ + "`"@,
        Error::Other(message) => message@,
    }
}

/// The text of the underlying cause of a loader error, when it has one.
pub open spec fn spec_load_error_cause(e: Error) -> Option<Seq<char>> {
    match e {
        Error::NoAccess { source, .. } => Some(source@),
        Error::Timeout { source, .. } => Some(source@),
        Error::Load { source, .. } => Some(source@),
        _ => None,
    }
}

/// The display text of a loader error; the alternate form appends `": "` and the cause.
pub open spec fn spec_load_error_text(e: Error, alternate: bool) -> Seq<char> {
    match spec_load_error_cause(e) {
        Some(cause) => if alternate {
            spec_load_error_head(e) + ": "@ + cause
        } else {
            spec_load_error_head(e)
        },
        None => spec_load_error_head(e),
    }
}

impl Error {
    /// The display text of this error; `alternate` appends the cause.
    pub fn to_display_string(&self, alternate: bool) -> (r: String)
        ensures
            r@ == spec_load_error_text(*self, alternate),
    {
        let mut out = String::new();
        match self {
            Error::NotFound { loader, resource, item } => {
                out.append(loader.as_str());
                out.append(" configuration loader could not find ");
                out.append(item.as_str());
                out.append(" at `");
                out.append(resource.as_str());
                out.append("`");
            },
            Error::NoAccess { loader, resource, .. } => {
                out.append(loader.as_str());
                out.append(" configuration loader has no access to `");
                out.append(resource.as_str());
                out.append("`");
            },
            Error::Timeout { loader, resource, timeout_in_seconds, .. } => {
                out.append(loader.as_str());
                out.append(" configuration loader reached timeout `");
                let digits = u64_text(*timeout_in_seconds);
                push_chars(&mut out, digits.as_slice());
                out.append("s` for `");
                out.append(resource.as_str());
                out.append("`");
            },
            Error::InvalidOption { loader, key, reason } => {
                out.append(loader.as_str());
                out.append(" configuration loader invalid option `");
                out.append(key.as_str());
                out.append("`: ");
                out.append(reason.as_str());
            },
            Error::InvalidResource { loader, resource, reason } => {
                out.append(loader.as_str());
                out.append(" configuration loader invalid resource `");
                out.append(resource.as_str());
                out.append("`: ");
                out.append(reason.as_str());
            },
            Error::Duplicate { loader, resource, name, format_1, format_2 } => {
                out.append(loader.as_str());
                out.append(" configuration loader found duplicate configurations `");
                out.append(resource.as_str());
                out.append("/");
                out.append(name.as_str());
                out.append(".(");
                out.append(format_1.as_str());
                out.append("|");
                out.append(format_2.as_str());
                out.append(")`");
            },
            Error::Load { loader, resource, description, .. } => {
                out.append(loader.as_str());
                out.append(" configuration loader could not ");
                out.append(description.as_str());
                out.append(" `");
                out.append(resource.as_str());
                out.append("`");
            },
            Error::Other(message) => {
                out.append(message.as_str());
            },
        }
        assert(out@ == spec_load_error_head(*self));
        if alternate {
            match self {
                Error::NoAccess { source, .. } | Error::Timeout { source, .. } | Error::Load {
                    source,
                    ..
                } => {
                    out.append(": ");
                    out.append(source.as_str());
                },
                _ => {},
            }
        }
        out
    }

    /// The text of the underlying cause, when there is one.
    pub fn source_text(&self) -> (r: Option<String>)
        ensures
            spec_opt_chars(r) == spec_load_error_cause(*self),
    {
        match self {
            Error::NoAccess { source, .. } => Some(source.clone()),
            Error::Timeout { source, .. } => Some(source.clone()),
            Error::Load { source, .. } => Some(source.clone()),
            _ => None,
        }
    }
}

} // verus!
