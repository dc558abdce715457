//! HTTP requests and replies as plain data, and what a status means.

use crate::adapters::{AdapterError, AdapterErrorView};
use crate::json::{Json, JsonView};
use crate::text;
use vstd::prelude::*;
use vstd::string::*;

verus! {

pub const API_VERSION: &'static str = "2022-11-28";

pub const USER_AGENT: &'static str = "yardmaster";

pub const MEDIA_TYPE: &'static str = "application/vnd.github+json";

#[derive(Debug, Clone, Copy, PartialEq, Eq, Structural)]
pub enum HttpMethod {
    Get,
    Post,
    Put,
    Patch,
}

pub open spec fn method_text(m: HttpMethod) -> Seq<char> {
    match m {
        HttpMethod::Get => "GET"@,
        HttpMethod::Post => "POST"@,
        HttpMethod::Put => "PUT"@,
        HttpMethod::Patch => "PATCH"@,
    }
}

impl HttpMethod {
    pub fn as_str(self) -> (r: &'static str)
        ensures
            r@ == method_text(self),
    {
        match self {
            HttpMethod::Get => "GET",
            HttpMethod::Post => "POST",
            HttpMethod::Put => "PUT",
            HttpMethod::Patch => "PATCH",
        }
    }
}

/// A request, ready to be sent.
#[derive(Debug, PartialEq)]
pub struct HttpRequest {
    pub method: HttpMethod,
    pub url: String,
    pub headers: Vec<(String, String)>,
    pub body: Option<Json>,
}

#[verifier::ext_equal]
pub struct HttpRequestView {
    pub method: HttpMethod,
    pub url: Seq<char>,
    pub headers: Seq<(Seq<char>, Seq<char>)>,
    pub body: Option<JsonView>,
}

pub open spec fn header_views(v: Seq<(String, String)>) -> Seq<(Seq<char>, Seq<char>)> {
    Seq::new(v.len(), |i: int| (v[i].0@, v[i].1@))
}

impl View for HttpRequest {
    type V = HttpRequestView;

    open spec fn view(&self) -> HttpRequestView {
        HttpRequestView {
            method: self.method,
            url: self.url@,
            headers: header_views(self.headers@),
            body: match self.body {
                Some(b) => Some(b@),
                None => None,
            },
        }
    }
}

/// The headers of every request. The token stands in the first of them and
/// nowhere else.
pub open spec fn standard_headers(token: Seq<char>) -> Seq<(Seq<char>, Seq<char>)> {
    seq![
        ("Authorization"@, "Bearer "@ + token),
        ("Accept"@, MEDIA_TYPE@),
        ("X-GitHub-Api-Version"@, API_VERSION@),
        ("User-Agent"@, USER_AGENT@),
    ]
}

/// The request that carries `token` to `url`.
pub open spec fn request_of(
    method: HttpMethod,
    url: Seq<char>,
    token: Seq<char>,
    body: Option<JsonView>,
) -> HttpRequestView {
    HttpRequestView { method, url, headers: standard_headers(token), body }
}

pub fn request(method: HttpMethod, url: String, token: &str, body: Option<Json>) -> (r: HttpRequest)
    ensures
        r@ == request_of(
            method,
            url@,
            token@,
            match body {
                Some(b) => Some(b@),
                None => None,
            },
        ),
{
    let headers: Vec<(String, String)> = vec![
        ("Authorization".to_owned(), "Bearer ".to_owned().concat(token)),
        ("Accept".to_owned(), MEDIA_TYPE.to_owned()),
        ("X-GitHub-Api-Version".to_owned(), API_VERSION.to_owned()),
        ("User-Agent".to_owned(), USER_AGENT.to_owned()),
    ];
    assert(header_views(headers@) == standard_headers(token@));
    HttpRequest { method, url, headers, body }
}

/// The token reaches nothing but the `Authorization` header: requests that
/// differ in their tokens differ in that header alone.
pub proof fn lemma_token_stays_in_its_header(
    method: HttpMethod,
    url: Seq<char>,
    body: Option<JsonView>,
    a: Seq<char>,
    b: Seq<char>,
)
    ensures
        ({
            let x = request_of(method, url, a, body);
            let y = request_of(method, url, b, body);
            &&& x.method == y.method && x.url == y.url && x.body == y.body
            &&& x.headers.skip(1) == y.headers.skip(1)
            &&& x.headers[0] == ("Authorization"@, "Bearer "@ + a)
        }),
{
    assert(standard_headers(a).skip(1) == standard_headers(b).skip(1));
}

// ---------------------------------------------------------------------------
// Statuses

/// A status code with its canonical reason, as `reqwest::StatusCode` displays
/// it.
pub uninterp spec fn status_display(code: u16) -> Seq<char>;

/// `reqwest::StatusCode::from_u16` and the `Display` of what it gives: codes
/// from 100 to 999 are statuses and no others, and the text of one depends on
/// its code alone. It is named [`status_display`].
#[verifier::external_body]
fn displayed_status(code: u16) -> (r: Option<String>)
    ensures
        r is Some <==> 100 <= code <= 999,
        r matches Some(s) ==> s@ == status_display(code),
{
    match reqwest::StatusCode::from_u16(code) {
        Ok(status) => Some(status.to_string()),
        Err(_) => None,
    }
}

/// The text of a status.
pub fn status_text(code: u16) -> (r: String)
    requires
        100 <= code <= 999,
    ensures
        r@ == status_display(code),
{
    match displayed_status(code) {
        Some(s) => s,
        None => String::new(),
    }
}

pub open spec fn is_success(code: u16) -> bool {
    200 <= code < 300
}

/// Server trouble and exhausted quotas pass; anything else does not.
pub open spec fn may_retry(code: u16, quota_exhausted: bool) -> bool {
    500 <= code < 600 || code == 429 || (code == 403 && quota_exhausted)
}

/// What a failed exchange is to its caller.
pub open spec fn failure(code: u16, quota_exhausted: bool, message: Seq<char>) -> AdapterErrorView {
    if may_retry(code, quota_exhausted) {
        AdapterErrorView::Transient(message)
    } else {
        AdapterErrorView::Permanent(message)
    }
}

pub fn fail(code: u16, quota_exhausted: bool, message: String) -> (r: AdapterError)
    ensures
        r@ == failure(code, quota_exhausted, message@),
{
    if (500 <= code && code < 600) || code == 429 || (code == 403 && quota_exhausted) {
        AdapterError::Transient(message)
    } else {
        AdapterError::Permanent(message)
    }
}

/// A reply that did arrive.
#[derive(Debug, PartialEq, Eq)]
pub struct HttpReply {
    pub status: u16,
    /// The `x-ratelimit-remaining` header, where it is text.
    pub remaining: Option<String>,
    /// The `link` header, where it is text.
    pub link: Option<String>,
    /// The body, empty where it could not be read.
    pub body: String,
}

#[verifier::ext_equal]
pub struct HttpReplyView {
    pub status: u16,
    pub remaining: Option<Seq<char>>,
    pub link: Option<Seq<char>>,
    pub body: Seq<char>,
}

impl View for HttpReply {
    type V = HttpReplyView;

    open spec fn view(&self) -> HttpReplyView {
        HttpReplyView {
            status: self.status,
            remaining: text::opt_text(self.remaining),
            link: text::opt_text(self.link),
            body: self.body@,
        }
    }
}

} // verus!
