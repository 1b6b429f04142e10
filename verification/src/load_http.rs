//! HTTP loader decisions: the request a source describes, and how fetched payloads are
//! normalized.
//!
//! The resource is an absolute URL. Options: `headers` (a map of strings), `timeout` (positive
//! seconds, 15 by default), `insecure` (boolean, `false` by default) and `lowercase` (boolean,
//! `true` by default). Fetched payloads get the source, and their names and formats trimmed
//! (empty ones dropped) and lower-cased unless `lowercase` is `false`.

use vstd::prelude::*;
use crate::source::{Source, SourceModel, EntriesModel, OptionModel, spec_get, spec_type_of, spec_type_display};
use crate::load::{Payload, PayloadModel, Error, spec_opt_chars};
use crate::load_file::{spec_name_part, name_part};
use crate::load_env::payload_list_models;
use crate::text::{chars_of, str_equal};

verus! {

/// Name of this loader in error messages.
pub open spec fn spec_http_loader_name() -> Seq<char> {
    "HTTP"@
}

/// What `url::Url::parse` makes of a text: the serialization of the absolute URL, or the text of
/// the parse error.
pub uninterp spec fn url_parse(text: Seq<char>) -> Result<Seq<char>, Seq<char>>;

/// `url::Url::parse`, giving the parsed URL's serialization (`Url::as_str`) or the error's
/// display text. The contract only names the result: whether a text is a URL, and its
/// normalized form, are the url crate's.
#[verifier::external_body]
fn parse_url(text: &str) -> (r: Result<String, String>)
    ensures
        match r {
            Ok(u) => url_parse(text@) == Ok::<Seq<char>, Seq<char>>(u@),
            Err(e) => url_parse(text@) == Err::<Seq<char>, Seq<char>>(e@),
        },
{
    match url::Url::parse(text) {
        Ok(url) => Ok(url.as_str().to_owned()),
        Err(error) => Err(error.to_string()),
    }
}

/// The request a source describes.
#[derive(Debug)]
pub struct HttpRequest {
    /// The serialization of the URL.
    pub url: String,
    /// Header names and values, in the order of the `headers` option.
    pub headers: Vec<(String, String)>,
    /// Timeout in seconds.
    pub timeout_seconds: u64,
    /// Whether to accept invalid TLS certificates.
    pub insecure: bool,
    /// Whether fetched names and formats are lower-cased.
    pub lowercase: bool,
}

/// Model of an [`HttpRequest`].
pub struct HttpRequestModel {
    pub url: Seq<char>,
    pub headers: Seq<(Seq<char>, Seq<char>)>,
    pub timeout_seconds: u64,
    pub insecure: bool,
    pub lowercase: bool,
}

/// The texts of string pairs.
pub open spec fn pair_models(v: Seq<(String, String)>) -> Seq<(Seq<char>, Seq<char>)> {
    Seq::new(v.len(), |i: int| (v[i].0@, v[i].1@))
}

impl View for HttpRequest {
    type V = HttpRequestModel;

    open spec fn view(&self) -> HttpRequestModel {
        HttpRequestModel {
            url: self.url@,
            headers: pair_models(self.headers@),
            timeout_seconds: self.timeout_seconds,
            insecure: self.insecure,
            lowercase: self.lowercase,
        }
    }
}

/// Why an HTTP source is rejected.
pub enum HttpFault {
    /// The resource is invalid; the reason.
    Resource(Seq<char>),
    /// An option has a wrong value; the key and the reason.
    Option(Seq<char>, Seq<char>),
}

/// Index of the first header whose value is not a string, or `-1`.
pub open spec fn spec_first_bad_header(e: EntriesModel) -> int
    decreases e.len(),
{
    if e.len() == 0 {
        -1
    } else {
        let p = spec_first_bad_header(e.drop_last());
        if p >= 0 {
            p
        } else if !(e.last().1 is Str) {
            e.len() - 1
        } else {
            -1
        }
    }
}

/// Header entries whose values are all strings, as pairs of texts.
pub open spec fn spec_headers(e: EntriesModel) -> Seq<(Seq<char>, Seq<char>)> {
    Seq::new(e.len(), |i: int| (e[i].0, e[i].1->Str_0))
}

/// `"expected <what>, found <kind of v>"`.
pub open spec fn spec_http_expected(what: Seq<char>, v: OptionModel) -> Seq<char> {
    "expected "@ + what + ", found "@ + spec_type_display(spec_type_of(v))
}

/// The boolean option `key`: `default` when absent, an error when not a boolean.
pub open spec fn spec_bool_option(o: EntriesModel, key: Seq<char>, default: bool) -> Result<bool, HttpFault> {
    match spec_get(o, key) {
        None => Ok(default),
        Some(OptionModel::Bool(b)) => Ok(b),
        Some(v) => Err(HttpFault::Option(key, spec_http_expected("boolean"@, v))),
    }
}

/// The request described by `source`, or why it is rejected: an empty resource, a resource that
/// is not a URL, then bad `headers`, `timeout`, `insecure` and `lowercase` options.
pub open spec fn spec_http_request(source: SourceModel) -> Result<HttpRequestModel, HttpFault> {
    let o = source.options;
    if source.resource.len() == 0 {
        Err(HttpFault::Resource("resource URL is required"@))
    } else {
        match url_parse(source.resource) {
            Err(m) => Err(HttpFault::Resource(m)),
            Ok(url) => {
                let headers: Result<Seq<(Seq<char>, Seq<char>)>, HttpFault> = match spec_get(o, "headers"@) {
                    None => Ok(Seq::empty()),
                    Some(OptionModel::Table(e)) => {
                        let b = spec_first_bad_header(e);
                        if b >= 0 {
                            Err(HttpFault::Option("headers"@, spec_http_expected("string"@, e[b].1)))
                        } else {
                            Ok(spec_headers(e))
                        }
                    },
                    Some(v) => Err(HttpFault::Option("headers"@, spec_http_expected("map"@, v))),
                };
                match headers {
                    Err(f) => Err(f),
                    Ok(headers) => {
                        let timeout: Result<u64, HttpFault> = match spec_get(o, "timeout"@) {
                            None => Ok(15u64),
                            Some(OptionModel::Integer(i)) => if i <= 0 {
                                Err(HttpFault::Option("timeout"@, "expected positive integer"@))
                            } else {
                                Ok(i as u64)
                            },
                            Some(v) => Err(
                                HttpFault::Option("timeout"@, spec_http_expected("positive integer"@, v)),
                            ),
                        };
                        match timeout {
                            Err(f) => Err(f),
                            Ok(timeout_seconds) => match spec_bool_option(o, "insecure"@, false) {
                                Err(f) => Err(f),
                                Ok(insecure) => match spec_bool_option(o, "lowercase"@, true) {
                                    Err(f) => Err(f),
                                    Ok(lowercase) => Ok(
                                        HttpRequestModel { url, headers, timeout_seconds, insecure, lowercase },
                                    ),
                                },
                            },
                        }
                    },
                }
            },
        }
    }
}

/// A fetched payload normalized for `source`: the source set, the name and format trimmed (empty
/// ones dropped) and lower-cased when asked.
pub open spec fn spec_normalized(source: SourceModel, lowercase: bool, p: PayloadModel) -> PayloadModel {
    PayloadModel {
        source,
        name: match p.name {
            Some(n) => spec_name_part(n, lowercase),
            None => None,
        },
        format: match p.format {
            Some(f) => spec_name_part(f, lowercase),
            None => None,
        },
        content: p.content,
    }
}

/// `InvalidOption` of the HTTP loader.
fn http_invalid_option(key: &str, reason: String) -> (r: Error)
    ensures
        r matches Error::InvalidOption { loader, key: k, reason: why } && loader@ == spec_http_loader_name()
            && k@ == key@ && why@ == reason@,
{
    Error::InvalidOption { loader: "HTTP".to_owned(), key: key.to_owned(), reason }
}

/// `"expected <what>, found <found>"`.
fn expected_text(what: &str, found: &str) -> (r: String)
    ensures
        r@ == "expected "@ + what@ + ", found "@ + found@,
{
    let mut s = "expected ".to_owned();
    s.append(what);
    s.append(", found ");
    s.append(found);
    s
}

/// The boolean option `key` of `source` (see [`spec_bool_option`]).
fn bool_option(source: &Source, key: &str, default: bool) -> (r: Result<bool, Error>)
    ensures
        match spec_bool_option(source@.options, key@, default) {
            Ok(b) => r == Ok::<bool, Error>(b),
            Err(HttpFault::Option(k, why)) => r matches Err(Error::InvalidOption { loader, key: rk, reason })
                && loader@ == spec_http_loader_name() && rk@ == k && reason@ == why,
            Err(HttpFault::Resource(_)) => false,
        },
{
    match source.options().get(key) {
        None => Ok(default),
        Some(value) => match value.as_bool() {
            Some(b) => Ok(b),
            None => Err(http_invalid_option(key, expected_text("boolean", value.value_type().as_str()))),
        },
    }
}

/// The request described by `source` (see [`spec_http_request`]).
pub fn request(source: &Source) -> (r: Result<HttpRequest, Error>)
    ensures
        match spec_http_request(source@) {
            Ok(m) => r matches Ok(q) && q@ == m,
            Err(HttpFault::Resource(why)) => r matches Err(Error::InvalidResource { loader, resource, reason })
                && loader@ == spec_http_loader_name() && resource@ == source@.resource && reason@ == why,
            Err(HttpFault::Option(k, why)) => r matches Err(Error::InvalidOption { loader, key, reason })
                && loader@ == spec_http_loader_name() && key@ == k && reason@ == why,
        },
{
    let resource = source.resource();
    if resource.is_empty() {
        return Err(Error::InvalidResource {
            loader: "HTTP".to_owned(),
            resource: resource.to_owned(),
            reason: "resource URL is required".to_owned(),
        });
    }
    let url = match parse_url(resource) {
        Ok(u) => u,
        Err(message) => {
            return Err(Error::InvalidResource { loader: "HTTP".to_owned(), resource: resource.to_owned(), reason: message });
        },
    };
    let ghost o = source@.options;
    let headers: Vec<(String, String)> = match source.options().get("headers") {
        None => {
            let empty: Vec<(String, String)> = Vec::new();
            assert(pair_models(empty@) =~= Seq::<(Seq<char>, Seq<char>)>::empty());
            empty
        },
        Some(value) => match value.as_map() {
            None => {
                return Err(http_invalid_option("headers", expected_text("map", value.value_type().as_str())));
            },
            Some(map) => {
                let entries = map.entries();
                let ghost e = map@;
                let mut out: Vec<(String, String)> = Vec::new();
                let mut k: usize = 0;
                assert(e.take(0) =~= Seq::<(Seq<char>, OptionModel)>::empty());
                while k < entries.len()
                    invariant
                        source@.resource.len() > 0,
                        url_parse(source@.resource) == Ok::<Seq<char>, Seq<char>>(url@),
                        spec_get(source@.options, "headers"@) == Some(OptionModel::Table(e)),
                        e == map@,
                        crate::source::entries_model(entries@) == e,
                        0 <= k <= entries@.len(),
                        spec_first_bad_header(e.take(k as int)) == -1,
                        pair_models(out@) == spec_headers(e.take(k as int)),
                    decreases entries@.len() - k,
                {
                    assert(e.take(k + 1).drop_last() =~= e.take(k as int));
                    assert(e[k as int] == (entries@[k as int].0@, entries@[k as int].1@));
                    match entries[k].1.as_string() {
                        Some(s) => {
                            let ghost before = pair_models(out@);
                            out.push((entries[k].0.clone(), s.clone()));
                            assert(pair_models(out@) =~= before.push((e[k as int].0, s@)));
                            assert(spec_headers(e.take(k + 1)) =~= spec_headers(e.take(k as int)).push((e[k as int].0, s@)));
                        },
                        None => {
                            proof {
                                lemma_first_bad_header_prefix(e, k as int);
                            }
                            return Err(http_invalid_option(
                                "headers",
                                expected_text("string", entries[k].1.value_type().as_str()),
                            ));
                        },
                    }
                    k = k + 1;
                }
                assert(e.take(entries@.len() as int) =~= e);
                out
            },
        },
    };
    let timeout_seconds: u64 = match source.options().get("timeout") {
        None => 15,
        Some(value) => match value.as_integer() {
            None => {
                return Err(http_invalid_option(
                    "timeout",
                    expected_text("positive integer", value.value_type().as_str()),
                ));
            },
            Some(i) => {
                if i <= 0 {
                    return Err(http_invalid_option("timeout", "expected positive integer".to_owned()));
                }
                i as u64
            },
        },
    };
    let insecure = bool_option(source, "insecure", false)?;
    let lowercase = bool_option(source, "lowercase", true)?;
    Ok(HttpRequest { url, headers, timeout_seconds, insecure, lowercase })
}

/// With a non-string header at `i` and none before, the first bad header is at `i`.
proof fn lemma_first_bad_header_prefix(e: EntriesModel, i: int)
    requires
        0 <= i < e.len(),
        spec_first_bad_header(e.take(i)) == -1,
        !(e[i].1 is Str),
    ensures
        spec_first_bad_header(e) == i,
    decreases e.len(),
{
    if e.len() - 1 > i {
        assert(e.drop_last().take(i) =~= e.take(i));
        assert(e.drop_last()[i] == e[i]);
        lemma_first_bad_header_prefix(e.drop_last(), i);
    } else {
        assert(e.drop_last() =~= e.take(i));
    }
}

/// What a fetch outcome becomes: a failure is a `Load` error with its text; fetched payloads are
/// normalized for `source` (see [`spec_normalized`]).
pub fn finish(source: &Source, request: &HttpRequest, fetched: Result<Vec<Payload>, String>) -> (r: Result<Vec<Payload>, Error>)
    ensures
        match fetched {
            Err(m) => r matches Err(Error::Load { loader, resource, description, source: cause })
                && loader@ == spec_http_loader_name() && resource@ == source@.resource
                && description@ == "fetch configuration"@ && cause@ == m@,
            Ok(list) => r matches Ok(out) && payload_list_models(out@) == Seq::new(
                list@.len(),
                |i: int| spec_normalized(source@, request.lowercase, list@[i]@),
            ),
        },
{
    let list = match fetched {
        Err(message) => {
            return Err(Error::Load {
                loader: "HTTP".to_owned(),
                resource: source.resource().to_owned(),
                description: "fetch configuration".to_owned(),
                source: message,
            });
        },
        Ok(list) => list,
    };
    let ghost input = list@;
    let mut out: Vec<Payload> = Vec::new();
    let mut i: usize = 0;
    while i < list.len()
        invariant
            input == list@,
            0 <= i <= list@.len(),
            out@.len() == i,
            forall|k: int| 0 <= k < i ==> (#[trigger] out@[k])@ == spec_normalized(source@, request.lowercase, list@[k]@),
        decreases list@.len() - i,
    {
        let p = &list[i];
        let name = match &p.maybe_name {
            Some(n) => name_part(&chars_of(n.as_str()), request.lowercase),
            None => None,
        };
        let format = match &p.maybe_format {
            Some(f) => name_part(&chars_of(f.as_str()), request.lowercase),
            None => None,
        };
        out.push(Payload { source: source.clone(), maybe_name: name, maybe_format: format, content: p.content.clone() });
        i = i + 1;
    }
    assert(payload_list_models(out@) =~= Seq::new(
        list@.len(),
        |k: int| spec_normalized(source@, request.lowercase, list@[k]@),
    ));
    Ok(out)
}

/// A request the source describes carries the source's URL as the URL crate reads it and the
/// source's options: `timeout` seconds (15 when absent), `insecure` (false when absent),
/// `lowercase` (true when absent), and the `headers` map's entries in order as name and text.
pub proof fn law_http_request_from_options(source: SourceModel)
    requires
        spec_http_request(source) is Ok,
    ensures
        url_parse(source.resource) is Ok,
        spec_http_request(source)->Ok_0.url == url_parse(source.resource)->Ok_0,
        spec_get(source.options, "timeout"@) is None ==> spec_http_request(source)->Ok_0.timeout_seconds == 15,
        spec_get(source.options, "timeout"@) matches Some(OptionModel::Integer(i)) ==> i > 0
            && spec_http_request(source)->Ok_0.timeout_seconds == i,
        spec_get(source.options, "insecure"@) is None ==> !spec_http_request(source)->Ok_0.insecure,
        spec_get(source.options, "insecure"@) matches Some(OptionModel::Bool(b)) ==> spec_http_request(source)->Ok_0.insecure == b,
        spec_get(source.options, "lowercase"@) is None ==> spec_http_request(source)->Ok_0.lowercase,
        spec_get(source.options, "lowercase"@) matches Some(OptionModel::Bool(b)) ==> spec_http_request(source)->Ok_0.lowercase == b,
        spec_get(source.options, "headers"@) is None ==> spec_http_request(source)->Ok_0.headers.len() == 0,
        spec_get(source.options, "headers"@) matches Some(OptionModel::Table(e)) ==> (spec_http_request(source)->Ok_0.headers.len()
            == e.len() && forall|k: int|
            0 <= k < e.len() ==> e[k].1 is Str && #[trigger] spec_http_request(source)->Ok_0.headers[k] == (e[k].0, e[k].1->Str_0)),
{
    let o = source.options;
    match spec_get(o, "headers"@) {
        Some(OptionModel::Table(e)) => {
            lemma_first_bad_header_none(e);
        },
        _ => {},
    }
}

/// With no header that is not a string, every header is a string.
proof fn lemma_first_bad_header_none(e: EntriesModel)
    ensures
        spec_first_bad_header(e) == -1 ==> forall|k: int| 0 <= k < e.len() ==> (#[trigger] e[k]).1 is Str,
    decreases e.len(),
{
    if e.len() > 0 {
        lemma_first_bad_header_none(e.drop_last());
        if spec_first_bad_header(e) == -1 {
            assert forall|k: int| 0 <= k < e.len() implies (#[trigger] e[k]).1 is Str by {
                if k < e.len() - 1 {
                    assert(e[k] == e.drop_last()[k]);
                }
            }
        }
    }
}

} // verus!

