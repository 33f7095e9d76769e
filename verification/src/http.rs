//! What an API call sends and how its answer is read: the request URL, the
//! header list, the method and body actually sent, and the error text of a
//! failed call. The transport itself is the caller's.

use vstd::prelude::*;
use crate::cli::{RequestParts, body_json, body_text};
use crate::config::{SiteConfig, base_url_of, default_base_url};
use crate::json::{accepts_json, json_accepts};
use crate::ordmap::OrdMap;
use crate::text::{opt_text, CharClass, chars_of, decimal, decimal_v, push_str, string_of, trim, trim_v};

verus! {

// ---------------------------------------------------------------------------
// Request URL
// ---------------------------------------------------------------------------

/// What `reqwest::Url::parse` reports for `s`: nothing when it parses, else
/// its error message.
pub uninterp spec fn url_parse_error(s: Seq<char>) -> Option<Seq<char>>;

/// The URL text (`Url::as_str`) after parsing `url_text` with
/// `reqwest::Url::parse` and appending the `pairs` in order with
/// `query_pairs_mut().append_pair` (form-encoded).
pub uninterp spec fn sent_url(url_text: Seq<char>, pairs: Seq<(Seq<char>, Seq<char>)>) -> Seq<char>;

/// The query string of that URL, as `Url::query` reports it.
pub uninterp spec fn sent_query(url_text: Seq<char>, pairs: Seq<(Seq<char>, Seq<char>)>) -> Option<
    Seq<char>,
>;

/// `reqwest::Url::parse` of `text`, then `query_pairs_mut().append_pair` for
/// each pair in order; gives `Url::as_str` and `Url::query`. Fails with the
/// parse error's message.
#[verifier::external_body]
fn parse_url_with_pairs(text: &str, pairs: &Vec<(String, String)>) -> (r: Result<
    (String, Option<String>),
    String,
>)
    ensures
        match r {
            Ok((u, q)) => url_parse_error(text@) is None && u@ == sent_url(
                text@,
                crate::http::pairs(pairs@),
            ) && opt_text(q) == sent_query(text@, crate::http::pairs(pairs@)),
            Err(e) => url_parse_error(text@) == Some(e@),
        },
{
    let mut url = reqwest::Url::parse(text).map_err(|e| e.to_string())?;
    for (k, v) in pairs.iter() {
        url.query_pairs_mut().append_pair(k, v);
    }
    let q = url.query().map(|q| q.to_string());
    Ok((url.as_str().to_string(), q))
}

/// The URL of a call, as text: the base URL followed by the endpoint path,
/// with the query parameters appended in name order; also the query string
/// of that URL, which a signing script sees. Fails with `Invalid URL: ...`
/// when the URL does not parse.
pub fn request_url(base_url: &str, endpoint: &str, query: Option<&OrdMap<String>>) -> (r: Result<
    (String, Option<String>),
    String,
>)
    ensures
        match url_parse_error(base_url@ + endpoint@) {
            Some(e) => r matches Err(m) && m@ == "Invalid URL: "@ + e,
            None => r matches Ok((u, q)) && u@ == sent_url(base_url@ + endpoint@, entries_or_none(query))
                && opt_text(q) == sent_query(base_url@ + endpoint@, entries_or_none(query)),
        },
{
    let mut full = chars_of(base_url);
    push_str(&mut full, endpoint);
    let text = string_of(&full);
    let mut pv: Vec<(String, String)> = Vec::new();
    match query {
        Some(q) => append_entries(&mut pv, q),
        None => {},
    }
    assert(pairs(pv@) =~= entries_or_none(query));
    match parse_url_with_pairs(text.as_str(), &pv) {
        Ok(res) => Ok(res),
        Err(e) => {
            let mut m = chars_of("Invalid URL: ");
            push_str(&mut m, e.as_str());
            Err(string_of(&m))
        },
    }
}

// ---------------------------------------------------------------------------
// Headers, method and body
// ---------------------------------------------------------------------------

pub open spec fn pairs(v: Seq<(String, String)>) -> Seq<(Seq<char>, Seq<char>)> {
    v.map_values(|e: (String, String)| (e.0@, e.1@))
}

pub open spec fn entries_or_none(m: Option<&OrdMap<String>>) -> Seq<(Seq<char>, Seq<char>)> {
    match m {
        Some(x) => x@,
        None => Seq::empty(),
    }
}

/// The headers of a call in the order they are added: the user agent, the
/// auth headers, the site's static headers, then the request's own.
pub open spec fn header_list(
    user_agent: Seq<char>,
    auth: Seq<(Seq<char>, Seq<char>)>,
    statics: Seq<(Seq<char>, Seq<char>)>,
    extra: Seq<(Seq<char>, Seq<char>)>,
) -> Seq<(Seq<char>, Seq<char>)> {
    seq![("User-Agent"@, user_agent)] + auth + statics + extra
}

fn append_entries(out: &mut Vec<(String, String)>, m: &OrdMap<String>)
    ensures
        pairs(final(out)@) == pairs(old(out)@) + m@,
{
    let ghost pre = pairs(out@);
    let n = m.len();
    let mut i: usize = 0;
    while i < n
        invariant
            n == m@.len(),
            i <= n,
            pairs(out@) == pre + m@.take(i as int),
        decreases n - i,
    {
        let k = m.key_at(i).clone();
        let v = m.value_at(i).clone();
        assert(v@ == m@[i as int].1);
        let ghost before = out@;
        out.push((k, v));
        assert(out@ =~= before.push((k, v)));
        assert(pairs(out@) =~= pairs(before).push((k@, v@)));
        assert(pairs(out@) =~= pre + m@.take(i + 1));
        i = i + 1;
    }
    assert(m@.take(n as int) =~= m@);
}

/// The headers sent with a call, in order (later ones are added after, not
/// in place of, earlier ones).
pub fn request_headers(
    user_agent: &str,
    auth: &OrdMap<String>,
    statics: Option<&OrdMap<String>>,
    extra: Option<&OrdMap<String>>,
) -> (r: Vec<(String, String)>)
    ensures
        pairs(r@) == header_list(user_agent@, auth@, entries_or_none(statics), entries_or_none(extra)),
{
    let mut out: Vec<(String, String)> = Vec::new();
    out.push((String::from_str("User-Agent"), String::from_str(user_agent)));
    assert(pairs(out@) =~= seq![("User-Agent"@, user_agent@)]);
    append_entries(&mut out, auth);
    match statics {
        Some(s) => append_entries(&mut out, s),
        None => {},
    }
    match extra {
        Some(e) => append_entries(&mut out, e),
        None => {},
    }
    assert(pairs(out@) =~= header_list(
        user_agent@,
        auth@,
        entries_or_none(statics),
        entries_or_none(extra),
    ));
    out
}

/// The method sent: one of GET, POST, PUT, PATCH, DELETE as given, anything
/// else as GET.
pub open spec fn sent_method(m: Seq<char>) -> Seq<char> {
    if m == "POST"@ || m == "PUT"@ || m == "PATCH"@ || m == "DELETE"@ {
        m
    } else {
        "GET"@
    }
}

/// Only POST, PUT and PATCH carry a body.
pub open spec fn carries_body(m: Seq<char>) -> bool {
    m == "POST"@ || m == "PUT"@ || m == "PATCH"@
}

/// A request as it goes out: query and headers are left out when empty.
pub struct Outgoing {
    pub method: String,
    pub path: String,
    pub query: Option<OrdMap<String>>,
    pub headers: Option<OrdMap<String>>,
    /// The JSON text of the body.
    pub body: Option<String>,
}

/// Turns prepared request parts into what is sent.
pub fn outgoing(parts: RequestParts) -> (r: Outgoing)
    ensures
        r.method@ == sent_method(parts.method@),
        r.path@ == parts.path@,
        match r.query {
            Some(q) => q@ == parts.query@ && q@.len() > 0,
            None => parts.query@.len() == 0,
        },
        match r.headers {
            Some(h) => h@ == parts.headers@ && h@.len() > 0,
            None => parts.headers@.len() == 0,
        },
        match r.body {
            Some(t) => carries_body(parts.method@) && parts.body is Some && t@ == body_json(
                parts.body.unwrap().deep_view(),
            ),
            None => !(carries_body(parts.method@) && parts.body is Some),
        },
{
    let m = parts.method.as_str();
    let with_body = crate::text::str_eq(m, "POST") || crate::text::str_eq(m, "PUT")
        || crate::text::str_eq(m, "PATCH");
    let method = if with_body || crate::text::str_eq(m, "DELETE") {
        parts.method.clone()
    } else {
        String::from_str("GET")
    };
    let query = if parts.query.is_empty() {
        None
    } else {
        Some(parts.query)
    };
    let headers = if parts.headers.is_empty() {
        None
    } else {
        Some(parts.headers)
    };
    let body = if with_body {
        match parts.body {
            Some(b) => Some(body_text(&b)),
            None => None,
        }
    } else {
        None
    };
    Outgoing { method, path: parts.path, query, headers, body }
}

/// The base URL a client uses: the configured one, or the default host
/// when there is no configuration.
pub fn client_base_url(config: Option<&SiteConfig>) -> (r: String)
    ensures
        r@ == match config {
            Some(c) => base_url_of(c.deep_view()),
            None => default_base_url(),
        },
{
    match config {
        Some(c) => c.get_base_url(),
        None => String::from_str("https://api.github.com"),
    }
}

/// A base URL without trailing slashes.
pub fn trimmed_base(base_url: &str) -> (r: String)
    ensures
        r@ == crate::text::trim_end(base_url@, CharClass::Exactly('/')),
{
    let v = chars_of(base_url);
    let t = crate::text::trim_end_v(&v, &CharClass::Exactly('/'));
    string_of(&t)
}

// ---------------------------------------------------------------------------
// Answers
// ---------------------------------------------------------------------------

/// The `message` member of `text` read as a JSON document
/// (`serde_json::from_str::<Value>`, then `v["message"]`), when it is a string.
pub uninterp spec fn json_message(text: Seq<char>) -> Option<Seq<char>>;

/// `text` read as a JSON document and written back with
/// `serde_json::to_string_pretty`.
pub uninterp spec fn json_pretty(text: Seq<char>) -> Option<Seq<char>>;

/// Reads `text` with `serde_json::from_str::<Value>` and returns its
/// `message` member when that is a string; nothing when `text` is not JSON.
#[verifier::external_body]
fn message_of_json(text: &str) -> (r: Option<String>)
    ensures
        opt_text(r) == json_message(text@),
        !json_accepts(text@) ==> r is None,
{
    match serde_json::from_str::<serde_json::Value>(text) {
        Ok(v) => match &v["message"] {
            serde_json::Value::String(m) => Some(m.clone()),
            _ => None,
        },
        Err(_) => None,
    }
}

/// Reads `text` with `serde_json::from_str::<Value>` and writes it back with
/// `serde_json::to_string_pretty`; nothing when `text` is not JSON.
#[verifier::external_body]
fn pretty_of_json(text: &str) -> (r: Option<String>)
    ensures
        opt_text(r) == json_pretty(text@),
        !json_accepts(text@) ==> r is None,
{
    match serde_json::from_str::<serde_json::Value>(text) {
        Ok(v) => serde_json::to_string_pretty(&v).ok(),
        Err(_) => None,
    }
}

/// A non-JSON error body made readable: trimmed, and, when it has more than
/// 500 characters, cut to its first 500 characters with a note of its size
/// in bytes. The cut counts characters, not bytes, so that it never falls
/// inside a multi-byte character.
pub open spec fn capped_detail(text: Seq<char>) -> Seq<char> {
    let t = trim(text, CharClass::Whitespace);
    if t.len() > 500 {
        t.take(500) + "... (truncated, "@ + decimal(crate::text::utf8_len(t)) + " bytes total)"@
    } else {
        t
    }
}

pub open spec fn api_error_of(status: Seq<char>, detail: Seq<char>) -> Seq<char> {
    "API Error ("@ + status + "): "@ + detail
}

fn capped(text: &str) -> (r: String)
    ensures
        r@ == capped_detail(text@),
{
    let v = chars_of(text);
    let t = trim_v(&v, &CharClass::Whitespace);
    if t.len() > 500 {
        let mut out = crate::text::subvec(&t, 0, 500);
        assert(out@ =~= t@.take(500));
        push_str(&mut out, "... (truncated, ");
        let bytes = crate::text::utf8_len_v(&t);
        let d = decimal_v(bytes);
        crate::text::append_chars(&mut out, &d);
        push_str(&mut out, " bytes total)");
        string_of(&out)
    } else {
        string_of(&t)
    }
}

/// The detail shown for a failed call: the `message` of a JSON answer, else
/// the whole JSON answer pretty-printed, else the answer text trimmed and
/// capped.
pub open spec fn error_detail(text: Seq<char>) -> Seq<char> {
    match json_message(text) {
        Some(m) => m,
        None => match json_pretty(text) {
            Some(p) => p,
            None => capped_detail(text),
        },
    }
}

/// The error of a call answered with a failure status.
pub fn api_error_text(status: &str, text: &str) -> (r: String)
    ensures
        r@ == api_error_of(status@, error_detail(text@)),
{
    let detail = match message_of_json(text) {
        Some(m) => m,
        None => match pretty_of_json(text) {
            Some(p) => p,
            None => capped(text),
        },
    };
    let mut out = chars_of("API Error (");
    push_str(&mut out, status);
    push_str(&mut out, "): ");
    push_str(&mut out, detail.as_str());
    assert(out@ =~= api_error_of(status@, detail@));
    string_of(&out)
}

/// The answer to a successful call.
pub enum ResponseBody {
    /// The answer was empty (shown as JSON `null`).
    Empty,
    /// The answer is a JSON document, kept as its text.
    Json(String),
    /// The answer was not JSON and is kept as text.
    Text(String),
}

/// The value of a successful answer: nothing for an empty body, else the
/// body as a JSON document when it is one, else the body as text.
pub fn response_value(text: &str) -> (r: ResponseBody)
    ensures
        match r {
            ResponseBody::Empty => text@.len() == 0,
            ResponseBody::Json(t) => text@.len() > 0 && json_accepts(text@) && t@ == text@,
            ResponseBody::Text(t) => text@.len() > 0 && !json_accepts(text@) && t@ == text@,
        },
{
    if text.is_empty() {
        ResponseBody::Empty
    } else if accepts_json(text) {
        ResponseBody::Json(text.to_string())
    } else {
        ResponseBody::Text(text.to_string())
    }
}

} // verus!
