//! Requests and responses, and what is decided between them: where a redirect leads, when a
//! request is sent again, and where a connection goes.

use vstd::prelude::*;
use vstd::utf8::{decode_utf8, encode_utf8, valid_utf8};

use crate::client::challenge::{
    build_challenge_cookie, challenge_cookie, is_solution, marked, page_challenge, parse_challenge,
    sha1_digest, Challenge, ChallengeCookies, CookiesView,
};
use crate::client::cookies::{
    cookie_pairs, cookies_set, extend_cookie, extended_cookie, is_whole, issued_cookies,
    law_redirect_adds_its_cookies, law_refresh_carries_the_cookies_in_force, law_solution_is_stored,
    lemma_solved_jar_is_clean, parse_pairs, pick_segments, refresh_cookie, refreshed_cookie,
};
use crate::client::ip::Ipv4;
use crate::form::{encode_form, form_text};
use crate::headers::{
    all_values, copy_headers, count_names, first_text, first_value, has_header, has_room,
    header_entries, header_name, header_text, header_texts, header_value, insert_header,
    is_header_name, is_plain_text, law_header_reads_back, law_put_leaves_others, lemma_plain_text,
    lemma_put_all_len, lower_name, new_headers, put, put_all, visible_texts, HeaderTable,
};
use crate::link::{host_of, join_urls, joined_view, url_host, url_join, LinkError, LinkErrorView};
use crate::number::{decimal, push_decimal};
use crate::text::{
    chars_of, concat, find, join, law_trim_end, law_trim_start, occurs_at, opt_view, pair_views,
    same_text, split, starts_with, string_of, texts, trim_end, trim_end_chars, trim_start,
    trim_start_chars, CharClass,
};

verus! {

/// The site.
pub const ORIGIN_DOMAIN: &'static str = "z-library.sk";

/// The server name that connections announce.
pub const SNI_DOMAIN: &'static str = "eliorfoy";

/// The methods with which requests are made.
#[derive(Clone, Copy, Debug, PartialEq, Eq, Structural)]
pub enum Method {
    Get,
    Post,
}

// ---------------------------------------------------------------------------
// Responses
// ---------------------------------------------------------------------------

/// A response. Its body can be taken once.
#[derive(Debug)]
pub struct Response {
    pub status: u16,
    pub headers: http::HeaderMap<http::HeaderValue>,
    pub body: Option<Vec<u8>>,
    pub url: String,
}

/// `StatusCode::from_u16` of the `http` crate: accepts the numbers of three digits.
#[verifier::external_body]
fn status_code(status: u16) -> (r: Option<u16>)
    ensures
        r == (if 100 <= status <= 999 {
            Some(status)
        } else {
            None
        }),
{
    http::StatusCode::from_u16(status).ok().map(|s| s.as_u16())
}

/// The message with which `String::from_utf8` refuses some bytes.
pub uninterp spec fn utf8_error(bytes: Seq<u8>) -> Seq<char>;

/// `String::from_utf8` of the standard library: the text of valid UTF-8, else an error,
/// whose message is returned.
#[verifier::external_body]
fn utf8_text(bytes: Vec<u8>) -> (r: Result<String, String>)
    ensures
        r is Ok <==> valid_utf8(bytes@),
        r matches Ok(s) ==> s@ == decode_utf8(bytes@),
        r matches Err(e) ==> e@ == utf8_error(bytes@),
{
    String::from_utf8(bytes).map_err(|e| e.to_string())
}

/// Bytes as text, with a replacement character for what is no valid UTF-8.
pub uninterp spec fn lossy_text(bytes: Seq<u8>) -> Seq<char>;

/// `String::from_utf8_lossy` of the standard library; valid UTF-8 is decoded as it is.
#[verifier::external_body]
fn utf8_lossy(bytes: &Vec<u8>) -> (r: String)
    ensures
        r@ == lossy_text(bytes@),
        valid_utf8(bytes@) ==> r@ == decode_utf8(bytes@),
{
    String::from_utf8_lossy(bytes).to_string()
}

/// The status that is gone by: a number that is no status counts as an internal error.
pub open spec fn effective_status(status: u16) -> u16 {
    if 100 <= status <= 999 {
        status
    } else {
        500
    }
}

/// What reading a body as text gives.
pub open spec fn body_text(body: Option<Vec<u8>>) -> Result<Seq<char>, Seq<char>> {
    match body {
        Some(b) => if valid_utf8(b@) {
            Ok(decode_utf8(b@))
        } else {
            Err("UTF-8 解码失败: "@ + utf8_error(b@))
        },
        None => Err("响应体已被消费"@),
    }
}

/// The model of a text or an error message.
pub open spec fn outcome_view(r: Result<String, String>) -> Result<Seq<char>, Seq<char>> {
    match r {
        Ok(s) => Ok(s@),
        Err(e) => Err(e@),
    }
}

impl Response {
    /// The status code.
    pub fn status(&self) -> (r: u16)
        ensures
            r == effective_status(self.status),
    {
        match status_code(self.status) {
            Some(s) => s,
            None => 500,
        }
    }

    /// The headers.
    pub fn headers(&self) -> (r: &http::HeaderMap<http::HeaderValue>)
        ensures
            *r == self.headers,
    {
        &self.headers
    }

    /// The URL that was asked for.
    pub fn url(&self) -> (r: &str)
        ensures
            r@ == self.url@,
    {
        self.url.as_str()
    }

    /// Takes the body as text.
    pub fn text(&mut self) -> (r: Result<String, String>)
        ensures
            outcome_view(r) == body_text(old(self).body),
            *final(self) == (Response { body: None, ..*old(self) }),
    {
        match self.take_body() {
            Ok(bytes) => match utf8_text(bytes) {
                Ok(s) => Ok(s),
                Err(e) => Err(concat("UTF-8 解码失败: ", e.as_str())),
            },
            Err(e) => Err(e),
        }
    }

    /// Takes the body.
    pub fn bytes(&mut self) -> (r: Result<Vec<u8>, String>)
        ensures
            match old(self).body {
                Some(b) => r == Ok::<Vec<u8>, String>(b),
                None => r matches Err(e) && e@ == "响应体已被消费"@,
            },
            *final(self) == (Response { body: None, ..*old(self) }),
    {
        self.take_body()
    }

    fn take_body(&mut self) -> (r: Result<Vec<u8>, String>)
        ensures
            match old(self).body {
                Some(b) => r == Ok::<Vec<u8>, String>(b),
                None => r matches Err(e) && e@ == "响应体已被消费"@,
            },
            *final(self) == (Response { body: None, ..*old(self) }),
    {
        match self.body.take() {
            Some(b) => Ok(b),
            None => Err("响应体已被消费".to_string()),
        }
    }
}

// ---------------------------------------------------------------------------
// Requests
// ---------------------------------------------------------------------------

/// The names of the headers that the client itself reads or writes.
pub proof fn lemma_known_names()
    ensures
        is_header_name("cookie"@) && lower_name("cookie"@) == "cookie"@,
        is_header_name("host"@) && lower_name("host"@) == "host"@,
        is_header_name("location"@) && lower_name("location"@) == "location"@,
        is_header_name("set-cookie"@) && lower_name("set-cookie"@) == "set-cookie"@,
        is_header_name("content-type"@) && lower_name("content-type"@) == "content-type"@,
{
    reveal_strlit("cookie");
    reveal_strlit("host");
    reveal_strlit("location");
    reveal_strlit("set-cookie");
    reveal_strlit("content-type");
    assert(lower_name("cookie"@) =~= "cookie"@);
    assert(lower_name("host"@) =~= "host"@);
    assert(lower_name("location"@) =~= "location"@);
    assert(lower_name("set-cookie"@) =~= "set-cookie"@);
    assert(lower_name("content-type"@) =~= "content-type"@);
}

/// A request under construction. `client` is the handle through which it will be sent.
pub struct RequestBuilder<C> {
    pub client: C,
    pub method: Method,
    pub url: String,
    pub headers: http::HeaderMap<http::HeaderValue>,
    pub body: Option<Vec<u8>>,
    pub max_redirect: u32,
}

/// The content type of forms.
pub const FORM_TYPE: &'static str = "application/x-www-form-urlencoded; charset=UTF-8";

impl<C> RequestBuilder<C> {
    /// The headers of the request.
    pub open spec fn table(self) -> HeaderTable {
        header_entries(self.headers)
    }

    /// Whether the request is `old_request` with other headers and another body.
    pub open spec fn differs_in_content(self, old_request: RequestBuilder<C>) -> bool {
        &&& self.client == old_request.client
        &&& self.method == old_request.method
        &&& self.url == old_request.url
        &&& self.max_redirect == old_request.max_redirect
    }

    /// Sets a header; a value that is not allowed in one changes nothing.
    pub fn header(self, key: &str, value: &str) -> (r: Self)
        requires
            is_header_name(key@),
            has_room(self.table()),
        ensures
            r.table() == put(self.table(), key@, value@),
            r.body == self.body,
            r.differs_in_content(self),
    {
        let mut out = self;
        if let Some(v) = header_value(value) {
            insert_header(&mut out.headers, key, &v);
        }
        out
    }

    /// Sets a header; a name or value that is not allowed in one changes nothing.
    pub fn header_str(self, name: &str, value: &str) -> (r: Self)
        requires
            has_room(self.table()),
        ensures
            r.table() == put(self.table(), name@, value@),
            r.body == self.body,
            r.differs_in_content(self),
    {
        let mut out = self;
        if let (Some(_), Some(v)) = (header_name(name), header_value(value)) {
            insert_header(&mut out.headers, name, &v);
        }
        out
    }

    /// Sets the body.
    pub fn body(self, body: Vec<u8>) -> (r: Self)
        ensures
            r == (RequestBuilder { body: Some(body), ..self }),
    {
        RequestBuilder { body: Some(body), ..self }
    }

    /// Sends the given fields as a form.
    pub fn form(self, fields: &Vec<(String, String)>) -> (r: Self)
        requires
            has_room(self.table()),
        ensures
            r.body matches Some(b) && b@ == encode_utf8(form_text(pair_views(fields@))),
            r.table() == put(self.table(), "content-type"@, FORM_TYPE@),
            first_text(r.table(), "content-type"@) == Some(FORM_TYPE@),
            r.differs_in_content(self),
    {
        proof {
            lemma_known_names();
            reveal_strlit("application/x-www-form-urlencoded; charset=UTF-8");
            law_header_reads_back(self.table(), "content-type"@, FORM_TYPE@);
        }
        let encoded = encode_form(fields);
        let bytes = vstd::slice::slice_to_vec(encoded.as_str().as_bytes());
        self.body(bytes).header("content-type", FORM_TYPE)
    }

    /// Whether a cookie still fits among the headers, as it does among all but thousands of
    /// them.
    pub fn takes_cookie(&self) -> (r: bool)
        ensures
            r == cookie_fits(self.table()),
    {
        proof {
            lemma_known_names();
        }
        let names: usize = count_names(&self.headers);
        if has_header(&self.headers, "cookie") {
            assert(self.table().dom().insert("cookie"@) =~= self.table().dom());
            names < 6554
        } else {
            names < 6553
        }
    }

    /// Sets how many redirects are followed at most.
    pub fn max_redirect(self, n: u32) -> (r: Self)
        ensures
            r == (RequestBuilder { max_redirect: n, ..self }),
    {
        RequestBuilder { max_redirect: n, ..self }
    }
}

/// The client: it makes requests that will be sent through its handle.
pub struct SniBypassClient<C> {
    pub inner: C,
}

/// A fresh request.
pub open spec fn is_fresh_request<C>(r: RequestBuilder<C>, method: Method, url: Seq<char>) -> bool {
    &&& r.method == method
    &&& r.url@ == url
    &&& r.table() == HeaderTable::empty()
    &&& r.body is None
    &&& r.max_redirect == 10
}

impl<C: Clone> SniBypassClient<C> {
    /// A GET request.
    pub fn get(&self, url: &str) -> (r: RequestBuilder<C>)
        ensures
            is_fresh_request(r, Method::Get, url@),
            cloned(self.inner, r.client),
    {
        RequestBuilder {
            client: self.inner.clone(),
            method: Method::Get,
            url: url.to_string(),
            headers: new_headers(),
            body: None,
            max_redirect: 10,
        }
    }

    /// A POST request.
    pub fn post(&self, url: &str) -> (r: RequestBuilder<C>)
        ensures
            is_fresh_request(r, Method::Post, url@),
            cloned(self.inner, r.client),
    {
        RequestBuilder {
            client: self.inner.clone(),
            method: Method::Post,
            url: url.to_string(),
            headers: new_headers(),
            body: None,
            max_redirect: 10,
        }
    }
}

// ---------------------------------------------------------------------------
// Redirects
// ---------------------------------------------------------------------------

/// Where a location leads that is not absolute, given how it resolved against the base: where
/// it did not, it is put behind the base with one slash between them.
pub open spec fn settled_location(
    base: Seq<char>,
    location: Seq<char>,
    joined: Result<Seq<char>, LinkErrorView>,
) -> Seq<char> {
    match joined {
        Ok(u) => u,
        Err(_) => trim_end(base, CharClass::Only('/')) + "/"@ + trim_start(
            location,
            CharClass::Only('/'),
        ),
    }
}

/// Where a location leads, seen from a URL.
pub open spec fn redirect_target(base: Seq<char>, location: Seq<char>) -> Seq<char> {
    if occurs_at(location, "http://"@, 0) || occurs_at(location, "https://"@, 0) {
        location
    } else {
        settled_location(base, location, url_join(base, location))
    }
}

/// Decides where a location leads that is not absolute, given how it resolved against the
/// base.
pub fn settle_location(base: &str, location: &str, joined: Result<String, LinkError>) -> (r: String)
    ensures
        r@ == settled_location(base@, location@, joined_view(joined)),
{
    match joined {
        Ok(u) => u,
        Err(_) => {
            let origin = chars_of(base);
            let target = chars_of(location);
            let mut out = string_of(trim_end_chars(&origin, CharClass::Only('/')));
            out.append("/");
            let rest = string_of(trim_start_chars(&target, CharClass::Only('/')));
            out.append(rest.as_str());
            out
        },
    }
}

/// Where a location leads, seen from a URL.
pub fn resolve_url(base: &str, location: &str) -> (r: String)
    ensures
        r@ == redirect_target(base@, location@),
{
    let target = chars_of(location);
    if starts_with(&target, "http://") || starts_with(&target, "https://") {
        return location.to_string();
    }
    settle_location(base, location, join_urls(base, location))
}

/// A request on its way along redirects.
pub struct Hop {
    pub url: String,
    pub method: Method,
    pub headers: http::HeaderMap<http::HeaderValue>,
    pub body: Option<Vec<u8>>,
    pub remaining: u32,
}

/// A request as it is to be sent. Where `host` is given, it is to be sent as the `Host`
/// header, before all others.
pub struct Outgoing {
    pub method: Method,
    pub url: String,
    pub host: Option<String>,
    pub headers: http::HeaderMap<http::HeaderValue>,
    pub body: Vec<u8>,
}

/// What follows a response: another request, or nothing.
pub enum RedirectStep {
    Follow(Hop),
    Done(Response),
}

/// Whether a cookie still fits among the headers.
pub open spec fn cookie_fits(t: HeaderTable) -> bool {
    let names = t.dom().insert("cookie"@);
    names.finite() && names.len() < 6554
}

proof fn lemma_cookie_fits(t: HeaderTable, value: Seq<char>)
    requires
        cookie_fits(t),
    ensures
        has_room(t),
        cookie_fits(put(t, "cookie"@, value)),
{
    lemma_known_names();
    let names = t.dom().insert("cookie"@);
    assert(t.dom() =~= names || t.dom() =~= names.remove("cookie"@));
    assert(put(t, "cookie"@, value).dom().insert("cookie"@) =~= names);
}

/// A cookie fits among few headers.
pub proof fn lemma_few_headers_fit(t: HeaderTable)
    requires
        t.dom().finite(),
        t.dom().len() < 6553,
    ensures
        cookie_fits(t),
{
}

/// A cookie fits beside a single header.
pub proof fn lemma_single_header_fits(name: Seq<char>, value: Seq<char>)
    ensures
        cookie_fits(put(HeaderTable::empty(), name, value)),
{
    let list = seq![(name, value)];
    let none = HeaderTable::empty();
    assert(list.drop_last() =~= seq![]);
    assert(put_all(none, list.drop_last()) == none);
    lemma_put_all_len(none, list);
    lemma_few_headers_fit(put(none, name, value));
}

/// The method after a redirect.
pub open spec fn redirected_method(method: Method, status: u16) -> Method {
    if 301 <= status <= 303 {
        Method::Get
    } else {
        method
    }
}

/// The headers after a redirect: as before, with the cookies that came with the response.
pub open spec fn redirected_headers(request: HeaderTable, response: HeaderTable) -> HeaderTable {
    let cookies = issued_cookies(visible_texts(all_values(response, "set-cookie"@)));
    if cookies.len() == 0 {
        request
    } else {
        put(request, "cookie"@, extended_cookie(first_text(request, "cookie"@), cookies))
    }
}

/// Whether a response with the given status and headers leads from one hop to the next.
pub open spec fn is_next_hop(hop: Hop, status: u16, response: HeaderTable, next: Hop) -> bool {
    &&& hop.remaining > 0
    &&& first_text(response, "location"@) matches Some(location)
    &&& next.url@ == redirect_target(hop.url@, location)
    &&& next.method == redirected_method(hop.method, status)
    &&& header_entries(next.headers) == redirected_headers(header_entries(hop.headers), response)
    &&& next.body == (if next.method == Method::Get {
        None
    } else {
        hop.body
    })
    &&& next.remaining == hop.remaining - 1
}

/// A copy of an optional body.
fn copy_body(body: &Option<Vec<u8>>) -> (r: Option<Vec<u8>>)
    ensures
        match *body {
            Some(b) => r matches Some(c) && c@ == b@,
            None => r is None,
        },
{
    match body {
        Some(b) => Some(vstd::slice::slice_to_vec(b.as_slice())),
        None => None,
    }
}

/// The bytes of an optional body, none where there is no body.
pub open spec fn body_bytes(body: Option<Vec<u8>>) -> Seq<u8> {
    match body {
        Some(b) => b@,
        None => seq![],
    }
}

impl Hop {
    /// The request to be sent for this hop. The host is taken from the URL unless the
    /// headers name one.
    pub fn outgoing(&self) -> (r: Outgoing)
        ensures
            r.method == self.method,
            r.url@ == self.url@,
            header_entries(r.headers) == header_entries(self.headers),
            r.body@ == body_bytes(self.body),
            opt_view(r.host) == (if header_entries(self.headers).contains_key("host"@) {
                None
            } else {
                url_host(self.url@)
            }),
    {
        proof {
            lemma_known_names();
        }
        let host = if has_header(&self.headers, "host") {
            None
        } else {
            host_of(self.url.as_str())
        };
        let body = match copy_body(&self.body) {
            Some(b) => b,
            None => Vec::new(),
        };
        assert(body@ =~= body_bytes(self.body));
        Outgoing {
            method: self.method,
            url: self.url.clone(),
            host,
            headers: copy_headers(&self.headers),
            body,
        }
    }
}

/// Decides what follows the response to a hop: as long as redirects are left, a location
/// that can be read is followed; else the response is the result.
pub fn send_with_redirect(
    hop: Hop,
    status: u16,
    headers: http::HeaderMap<http::HeaderValue>,
    body: Vec<u8>,
) -> (r: RedirectStep)
    requires
        cookie_fits(header_entries(hop.headers)),
    ensures
        match r {
            RedirectStep::Follow(next) => {
                &&& is_next_hop(hop, status, header_entries(headers), next)
                &&& cookie_fits(header_entries(next.headers))
            },
            RedirectStep::Done(resp) => {
                &&& hop.remaining == 0 || first_text(
                    header_entries(headers),
                    "location"@,
                ) is None
                &&& resp == (Response { status, headers, body: Some(body), url: hop.url })
            },
        },
{
    proof {
        lemma_known_names();
    }
    if hop.remaining > 0 {
        if let Some(location) = header_text(&headers, "location") {
            let mut next_headers = hop.headers;
            let lines = header_texts(&headers, "set-cookie");
            let cookies = cookies_set(&lines);
            if cookies.len() > 0 {
                let merged = extend_cookie(header_text(&next_headers, "cookie"), &cookies);
                proof {
                    lemma_cookie_fits(header_entries(next_headers), merged@);
                }
                if let Some(v) = header_value(merged.as_str()) {
                    insert_header(&mut next_headers, "cookie", &v);
                }
            }
            let method = if 301 <= status && status <= 303 {
                Method::Get
            } else {
                hop.method
            };
            let next_body = if method == Method::Get {
                None
            } else {
                hop.body
            };
            return RedirectStep::Follow(
                Hop {
                    url: resolve_url(hop.url.as_str(), location.as_str()),
                    method,
                    headers: next_headers,
                    body: next_body,
                    remaining: hop.remaining - 1,
                },
            );
        }
    }
    RedirectStep::Done(Response { status, headers, body: Some(body), url: hop.url })
}

/// The message about a request that could not be sent, with all its causes.
pub open spec fn failure_text(error: Seq<char>, causes: Seq<Seq<char>>) -> Seq<char>
    decreases causes.len(),
{
    if causes.len() == 0 {
        "请求失败: "@ + error
    } else {
        failure_text(error, causes.drop_last()) + "\n  原因: "@ + causes.last()
    }
}

/// The message about a request that could not be sent, with all its causes.
pub fn request_failure(error: &str, causes: &Vec<String>) -> (r: String)
    ensures
        r@ == failure_text(error@, texts(causes@)),
{
    let ghost all = texts(causes@);
    let mut out = concat("请求失败: ", error);
    let mut i: usize = 0;
    while i < causes.len()
        invariant
            i <= causes@.len(),
            all == texts(causes@),
            out@ == failure_text(error@, all.take(i as int)),
        decreases causes@.len() - i,
    {
        assert(all.take(i + 1).drop_last() =~= all.take(i as int));
        assert(all.take(i + 1).last() == causes@[i as int]@);
        out.append("\n  原因: ");
        out.append(causes[i].as_str());
        i += 1;
    }
    assert(all.take(all.len() as int) =~= all);
    out
}

// ---------------------------------------------------------------------------
// Sending again
// ---------------------------------------------------------------------------

/// A request with what was already done to get it through.
pub struct Retry {
    pub url: String,
    pub method: Method,
    pub headers: http::HeaderMap<http::HeaderValue>,
    pub body: Option<Vec<u8>>,
    pub max_redirect: u32,
    pub retried_ip: bool,
    pub retried_challenge: bool,
}

/// What is to be done with a response.
pub enum RetryAction {
    /// It is the result.
    Finish,
    /// A fresh address is to be looked up, then the request is sent again.
    RefreshIp,
    /// The challenge is to be solved and answered, then the request is sent again.
    Solve(Challenge),
}

impl Retry {
    /// How many times the request may still be sent again.
    pub open spec fn retries_left(self) -> nat {
        (if self.retried_ip {
            0nat
        } else {
            1nat
        }) + (if self.retried_challenge {
            0nat
        } else {
            1nat
        })
    }

    /// Prepares a request for being sent. It may be sent again twice: once with a fresh
    /// address, and once with a challenge answered.
    pub fn new<C>(request: RequestBuilder<C>) -> (r: Self)
        ensures
            r == (Retry {
                url: request.url,
                method: request.method,
                headers: request.headers,
                body: request.body,
                max_redirect: request.max_redirect,
                retried_ip: false,
                retried_challenge: false,
            }),
            r.retries_left() == 2,
    {
        Retry {
            url: request.url,
            method: request.method,
            headers: request.headers,
            body: request.body,
            max_redirect: request.max_redirect,
            retried_ip: false,
            retried_challenge: false,
        }
    }

    /// The first hop of the request.
    pub fn first_hop(&self) -> (r: Hop)
        ensures
            r.url@ == self.url@,
            r.method == self.method,
            header_entries(r.headers) == header_entries(self.headers),
            r.body is Some <==> self.body is Some,
            body_bytes(r.body) == body_bytes(self.body),
            r.remaining == self.max_redirect,
    {
        Hop {
            url: self.url.clone(),
            method: self.method,
            headers: copy_headers(&self.headers),
            body: copy_body(&self.body),
            remaining: self.max_redirect,
        }
    }
}

/// The challenge that a response carries.
pub open spec fn response_challenge(resp: Response) -> Option<(Seq<char>, nat)> {
    page_challenge(lossy_text(body_bytes(resp.body)))
}

/// The model of what is to be done with a response.
pub enum ActionView {
    Finish,
    RefreshIp,
    Solve(Seq<char>, nat),
}

impl View for RetryAction {
    type V = ActionView;

    open spec fn view(&self) -> ActionView {
        match self {
            RetryAction::Finish => ActionView::Finish,
            RetryAction::RefreshIp => ActionView::RefreshIp,
            RetryAction::Solve(c) => ActionView::Solve(c.token@, c.check_offset as nat),
        }
    }
}

/// What is to be done with a response, given its status, the challenge on its page, and what
/// was already done.
pub open spec fn action_after(
    status: u16,
    challenge: Option<(Seq<char>, nat)>,
    retried_ip: bool,
    retried_challenge: bool,
) -> ActionView {
    if status == 502 && !retried_ip {
        ActionView::RefreshIp
    } else if status == 503 && !retried_challenge {
        match challenge {
            Some((token, offset)) => ActionView::Solve(token, offset),
            None => ActionView::Finish,
        }
    } else {
        ActionView::Finish
    }
}

/// Decides what is to be done with a response.
///
/// - 502: the address is no longer good; a fresh one is looked up, at most once.
/// - 503: the page holds a challenge; it is solved and answered, at most once.
/// - Any other response, and one that still fails after that, is the result.
pub fn send_with_auto_retry(retry: &mut Retry, resp: &Response) -> (r: RetryAction)
    ensures
        match r {
            RetryAction::RefreshIp => {
                &&& effective_status(resp.status) == 502
                &&& !old(retry).retried_ip
                &&& *final(retry) == (Retry { retried_ip: true, ..*old(retry) })
            },
            RetryAction::Solve(c) => {
                &&& effective_status(resp.status) == 503
                &&& !old(retry).retried_challenge
                &&& response_challenge(*resp) == Some((c.token@, c.check_offset as nat))
                &&& c.check_offset < 16
                &&& *final(retry) == (Retry { retried_challenge: true, ..*old(retry) })
            },
            RetryAction::Finish => {
                &&& effective_status(resp.status) == 502 ==> old(retry).retried_ip
                &&& effective_status(resp.status) == 503 ==> old(retry).retried_challenge
                    || response_challenge(*resp) is None
                &&& *final(retry) == *old(retry)
            },
        },
        r@ == action_after(
            effective_status(resp.status),
            response_challenge(*resp),
            old(retry).retried_ip,
            old(retry).retried_challenge,
        ),
        r !is Finish ==> sent_again(*old(retry), *final(retry)),
        r !is Finish ==> final(retry).retries_left() < old(retry).retries_left(),
{
    let status: u16 = resp.status();
    if status == 502 && !retry.retried_ip {
        retry.retried_ip = true;
        return RetryAction::RefreshIp;
    }
    if status == 503 && !retry.retried_challenge {
        let bytes = match copy_body(&resp.body) {
            Some(b) => b,
            None => Vec::new(),
        };
        assert(bytes@ =~= body_bytes(resp.body));
        let html = utf8_lossy(&bytes);
        if let Some(c) = parse_challenge(html.as_str()) {
            retry.retried_challenge = true;
            return RetryAction::Solve(c);
        }
    }
    RetryAction::Finish
}

/// The challenge cookies after a challenge was solved.
pub open spec fn solved_cookies(
    jar: CookiesView,
    token: Seq<char>,
    solution: u64,
    elapsed_ms: u64,
) -> CookiesView {
    jar.set_all(cookie_pairs(challenge_cookie(token, solution, elapsed_ms, None)))
}

/// The headers of a request with fresh challenge cookies.
pub open spec fn refreshed_headers(t: HeaderTable, jar: CookiesView) -> HeaderTable {
    let old_text = match first_text(t, "cookie"@) {
        Some(s) => s,
        None => seq![],
    };
    put(t, "cookie"@, refreshed_cookie(old_text, jar.text()))
}

/// Answers a challenge: the solution goes into the cookies that all requests share, and from
/// there into the cookie of the request at hand.
pub fn answer_challenge(
    retry: &mut Retry,
    jar: &mut ChallengeCookies,
    challenge: &Challenge,
    solution: u64,
    elapsed_ms: u64,
)
    requires
        cookie_fits(header_entries(old(retry).headers)),
    ensures
        final(jar)@ == solved_cookies(old(jar)@, challenge.token@, solution, elapsed_ms),
        header_entries(final(retry).headers) == refreshed_headers(
            header_entries(old(retry).headers),
            final(jar)@,
        ),
        cookie_fits(header_entries(final(retry).headers)),
        *final(retry) == (Retry { headers: final(retry).headers, ..*old(retry) }),
{
    proof {
        lemma_known_names();
    }
    let cookie = build_challenge_cookie(challenge, solution, elapsed_ms, None);
    jar.update_challenge(&parse_pairs(cookie.as_str()));
    let old_text = match header_text(&retry.headers, "cookie") {
        Some(s) => s,
        None => String::new(),
    };
    let fresh = jar.cookie_str();
    let merged = refresh_cookie(old_text.as_str(), fresh.as_str());
    proof {
        lemma_cookie_fits(header_entries(retry.headers), merged@);
    }
    if let Some(v) = header_value(merged.as_str()) {
        insert_header(&mut retry.headers, "cookie", &v);
    }
}

// ---------------------------------------------------------------------------
// Connections
// ---------------------------------------------------------------------------

/// Where a connection goes.
#[derive(Debug)]
pub enum Route {
    /// To the site, at its remembered address.
    Origin { port: u16 },
    /// To another host, whose address is looked up under `query`.
    Lookup { query: String, port: u16 },
}

/// The model of a route.
pub enum RouteView {
    Origin(u16),
    Lookup(Seq<char>, u16),
}

impl View for Route {
    type V = RouteView;

    open spec fn view(&self) -> RouteView {
        match self {
            Route::Origin { port } => RouteView::Origin(*port),
            Route::Lookup { query, port } => RouteView::Lookup(query@, *port),
        }
    }
}

/// Where a connection to a host goes, on the given port or else on that of TLS.
pub open spec fn route_to(host: Seq<char>, port: Option<u16>) -> RouteView {
    let p: u16 = match port {
        Some(p) => p,
        None => 443,
    };
    if host == ORIGIN_DOMAIN@ {
        RouteView::Origin(p)
    } else {
        RouteView::Lookup(host + ":"@ + decimal(p as nat), p)
    }
}

/// Decides where the connection for a URI goes, of which the host and the port are given.
pub fn plan_route(host: Option<&str>, port: Option<u16>) -> (r: Result<Route, String>)
    ensures
        ({
            let p: u16 = match port {
                Some(p) => p,
                None => 443,
            };
            match host {
                None => r matches Err(m) && m@ == "URI 缺少 host"@,
                Some(h) => if h@ == ORIGIN_DOMAIN@ {
                    r == Ok::<Route, String>(Route::Origin { port: p })
                } else {
                    r matches Ok(Route::Lookup { query, port: q }) && q == p && query@ == h@
                        + ":"@ + decimal(p as nat)
                },
            }
        }),
        host matches Some(h) ==> (r matches Ok(route) && route@ == route_to(h@, port)),
{
    let port: u16 = match port {
        Some(p) => p,
        None => 443,
    };
    match host {
        None => Err("URI 缺少 host".to_string()),
        Some(h) => {
            if same_text(h, ORIGIN_DOMAIN) {
                Ok(Route::Origin { port })
            } else {
                let mut query = concat(h, ":");
                push_decimal(port as u64, &mut query);
                Ok(Route::Lookup { query, port })
            }
        },
    }
}

/// The first IPv4 address at or after a place; an address of another kind is `None`.
pub open spec fn first_v4(found: Seq<Option<Ipv4>>, from: int) -> Option<Ipv4>
    decreases found.len() - from,
{
    if from < 0 || from >= found.len() {
        None
    } else if found[from] is Some {
        found[from]
    } else {
        first_v4(found, from + 1)
    }
}

/// Picks the address to connect to from what a name lookup found.
pub fn pick_address(host: &str, found: &Vec<Option<Ipv4>>) -> (r: Result<Ipv4, String>)
    ensures
        match first_v4(found@, 0) {
            Some(ip) => r == Ok::<Ipv4, String>(ip),
            None => r matches Err(m) && m@ == "无法解析 "@ + host@,
        },
{
    let mut i: usize = 0;
    while i < found.len()
        invariant
            i <= found@.len(),
            first_v4(found@, 0) == first_v4(found@, i as int),
        decreases found@.len() - i,
    {
        if let Some(ip) = found[i] {
            return Ok(ip);
        }
        i += 1;
    }
    Err(concat("无法解析 ", host))
}

// ---------------------------------------------------------------------------
// Laws
// ---------------------------------------------------------------------------

/// Whether some response leads from one hop to the next.
pub open spec fn leads_to(hop: Hop, next: Hop) -> bool {
    exists|status: u16, response: HeaderTable| is_next_hop(hop, status, response, next)
}

/// No more redirects are followed than were allowed: a chain of hops is at most one longer
/// than the number of redirects that its first hop has left.
pub proof fn law_redirects_are_bounded(hops: Seq<Hop>)
    requires
        hops.len() > 0,
        forall|i: int| 0 <= i < hops.len() - 1 ==> leads_to(#[trigger] hops[i], hops[i + 1]),
    ensures
        hops.len() <= hops[0].remaining + 1,
        hops.last().remaining == hops[0].remaining - (hops.len() - 1),
    decreases hops.len(),
{
    if hops.len() > 1 {
        let front = hops.drop_last();
        assert forall|i: int| 0 <= i < front.len() - 1 implies leads_to(
            #[trigger] front[i],
            front[i + 1],
        ) by {
            assert(front[i] == hops[i] && front[i + 1] == hops[i + 1]);
        }
        law_redirects_are_bounded(front);
        let n = hops.len() - 2;
        assert(leads_to(hops[n], hops[n + 1]));
    }
}

/// A method that carries no body is never given one by a redirect, and after the statuses
/// 301 to 303 the next request is a plain GET.
pub proof fn law_redirect_to_get_drops_the_body(
    hop: Hop,
    status: u16,
    response: HeaderTable,
    next: Hop,
)
    requires
        is_next_hop(hop, status, response, next),
    ensures
        next.method == Method::Get ==> next.body is None,
        301 <= status <= 303 ==> next.method == Method::Get,
        !(301 <= status <= 303) ==> next.method == hop.method,
{
}

/// Whether a request is sent again in another state: with a fresh address, or with a
/// challenge answered.
pub open spec fn sent_again(before: Retry, after: Retry) -> bool {
    ||| !before.retried_ip && after == (Retry { retried_ip: true, ..before })
    ||| !before.retried_challenge && after == (Retry {
        retried_challenge: true,
        headers: after.headers,
        ..before
    })
}

/// A request is sent three times at most: once at first, once with a fresh address and once
/// with a challenge answered.
pub proof fn law_retries_are_bounded(states: Seq<Retry>)
    requires
        states.len() > 0,
        forall|i: int|
            0 <= i < states.len() - 1 ==> sent_again(#[trigger] states[i], states[i + 1]),
    ensures
        states.len() <= 3,
        states.last().retries_left() + (states.len() - 1) == states[0].retries_left(),
    decreases states.len(),
{
    if states.len() > 1 {
        let front = states.drop_last();
        assert forall|i: int| 0 <= i < front.len() - 1 implies sent_again(
            #[trigger] front[i],
            front[i + 1],
        ) by {
            assert(front[i] == states[i] && front[i + 1] == states[i + 1]);
        }
        law_retries_are_bounded(front);
        let n = states.len() - 2;
        assert(sent_again(states[n], states[n + 1]));
    }
}

/// The token that is stored when a challenge was solved is one whose digest carries the mark
/// that the challenge asks for.
pub proof fn law_stored_token_carries_the_mark(
    jar: CookiesView,
    token: Seq<char>,
    offset: nat,
    solution: u64,
    elapsed_ms: u64,
)
    requires
        find(token, "; "@) is None,
        is_solution(token, offset, solution as nat),
    ensures
        solved_cookies(jar, token, solution, elapsed_ms).c_token matches Some(t) && marked(
            sha1_digest(encode_utf8(t)),
            offset,
        ),
{
    law_solution_is_stored(jar, token, solution, elapsed_ms);
}

/// When a challenge is answered, the request is sent again with each challenge cookie
/// exactly once, and its token is the one just solved. Cookies that could not be sent in a
/// header, or that would be torn apart there, are left out.
pub proof fn law_answer_reaches_the_request(
    t: HeaderTable,
    jar: CookiesView,
    token: Seq<char>,
    solution: u64,
    elapsed_ms: u64,
)
    requires
        find(token, "; "@) is None,
        jar.bsrv matches Some(v) ==> find(v, "; "@) is None,
        is_plain_text(
            refreshed_cookie(
                match first_text(t, "cookie"@) {
                    Some(s) => s,
                    None => seq![],
                },
                solved_cookies(jar, token, solution, elapsed_ms).text(),
            ),
        ),
    ensures
        ({
            let solved = solved_cookies(jar, token, solution, elapsed_ms);
            &&& solved.c_token == Some(token + decimal(solution as nat))
            &&& first_text(refreshed_headers(t, solved), "cookie"@) matches Some(sent)
            &&& pick_segments(split(sent, "; "@), true)
                == solved.segments()
        }),
{
    let solved = solved_cookies(jar, token, solution, elapsed_ms);
    let old_text = match first_text(t, "cookie"@) {
        Some(s) => s,
        None => seq![],
    };
    law_solution_is_stored(jar, token, solution, elapsed_ms);
    lemma_solved_jar_is_clean(token, solution, elapsed_ms);
    law_refresh_carries_the_cookies_in_force(old_text, solved);
    lemma_known_names();
    law_header_reads_back(
        t,
        "cookie"@,
        refreshed_cookie(old_text, solved.text()),
    );
}

/// A body that holds a text is read as that text, character for character.
pub proof fn law_body_is_read_as_sent(body: Vec<u8>, text: Seq<char>)
    requires
        body@ == encode_utf8(text),
    ensures
        body_text(Some(body)) == Ok::<Seq<char>, Seq<char>>(text),
        body_text(None) is Err,
{
    vstd::utf8::encode_utf8_valid_utf8(text);
    vstd::utf8::encode_utf8_decode_utf8(text);
}

/// A status of three digits is gone by as it is, and any other number as an internal error.
pub proof fn law_status_is_kept(status: u16)
    ensures
        100 <= status < 1000 ==> effective_status(status) == status,
        status < 100 || status >= 1000 ==> effective_status(status) == 500,
{
}

/// A location with a scheme leads where it says. Any other one leads where it resolves to,
/// seen from the URL, and where it does not resolve, behind that URL.
pub proof fn law_where_locations_lead(
    base: Seq<char>,
    location: Seq<char>,
    slashes: Seq<char>,
    more_slashes: Seq<char>,
    error: LinkErrorView,
)
    requires
        forall|i: int| 0 <= i < slashes.len() ==> #[trigger] slashes[i] == '/',
        forall|i: int| 0 <= i < more_slashes.len() ==> #[trigger] more_slashes[i] == '/',
        base.len() > 0 ==> base.last() != '/',
        location.len() > 0 ==> location[0] != '/',
    ensures
        redirect_target(base, "https://"@ + location) == "https://"@ + location,
        redirect_target(base, "http://"@ + location) == "http://"@ + location,
        !occurs_at(location, "http://"@, 0) && !occurs_at(location, "https://"@, 0) ==> (url_join(
            base,
            location,
        ) matches Ok(u) ==> redirect_target(base, location) == u),
        settled_location(
            base + slashes,
            more_slashes + location,
            Err::<Seq<char>, LinkErrorView>(error),
        ) == base + "/"@ + location,
{
    assert(("https://"@ + location).subrange(0, "https://"@.len() as int) =~= "https://"@);
    assert(("http://"@ + location).subrange(0, "http://"@.len() as int) =~= "http://"@);
    law_trim_end(base, slashes, CharClass::Only('/'));
    law_trim_start(more_slashes, location, CharClass::Only('/'));
}

/// A redirect that does not turn the request into a GET keeps its method and its body, and
/// each redirect leads where its location says and uses one up.
pub proof fn law_redirect_keeps_the_request(
    hop: Hop,
    status: u16,
    response: HeaderTable,
    next: Hop,
    location: Seq<char>,
)
    requires
        is_next_hop(hop, status, response, next),
        first_value(response, "location"@) matches Some(v) && v == encode_utf8(location),
        is_plain_text(location),
    ensures
        next.url@ == redirect_target(hop.url@, location),
        next.remaining + 1 == hop.remaining,
        hop.method == Method::Post && !(301 <= status <= 303) ==> next.method == Method::Post
            && next.body == hop.body,
{
    lemma_plain_text(location);
}

/// A redirect changes no header but the cookie, and the cookie only by adding the cookies
/// that came with it, in their order, behind those that were there.
pub proof fn law_redirect_changes_the_cookie_only(
    request: HeaderTable,
    response: HeaderTable,
    cookies: Seq<Seq<char>>,
    other: Seq<char>,
)
    requires
        cookies == issued_cookies(visible_texts(all_values(response, "set-cookie"@))),
        forall|k: int| 0 <= k < cookies.len() ==> is_whole(#[trigger] cookies[k]),
        cookies.len() > 0 ==> is_plain_text(
            extended_cookie(first_text(request, "cookie"@), cookies),
        ),
        other != "cookie"@,
    ensures
        all_values(redirected_headers(request, response), other) == all_values(request, other),
        cookies.len() == 0 ==> redirected_headers(request, response) == request,
        cookies.len() > 0 ==> (first_text(redirected_headers(request, response), "cookie"@) matches
            Some(sent) && split(sent, "; "@) == (match first_text(request, "cookie"@) {
            Some(s) => split(s, "; "@),
            None => seq![],
        }) + cookies),
{
    lemma_known_names();
    if cookies.len() > 0 {
        let old_text = first_text(request, "cookie"@);
        let text = extended_cookie(old_text, cookies);
        law_header_reads_back(request, "cookie"@, text);
        law_put_leaves_others(request, "cookie"@, text, other);
        match old_text {
            Some(s) => law_redirect_adds_its_cookies(s, cookies),
            None => {
                law_redirect_adds_its_cookies(seq![], cookies);
                assert(Seq::<Seq<char>>::empty() + cookies =~= cookies);
            },
        }
    }
}

/// A failure names the error, and then each of its causes on a line of its own.
pub proof fn law_failure_names_its_causes(
    error: Seq<char>,
    causes: Seq<Seq<char>>,
    cause: Seq<char>,
)
    ensures
        failure_text(error, seq![]) == "请求失败: "@ + error,
        failure_text(error, causes.push(cause)) == failure_text(error, causes) + "\n  原因: "@
            + cause,
{
    assert(causes.push(cause).drop_last() =~= causes);
}

/// The first IPv4 address that a lookup found is the one that is connected to; addresses of
/// other kinds before it are passed over, and none is made up.
pub proof fn law_first_v4_is_picked(x: Seq<Option<Ipv4>>, ip: Ipv4, y: Seq<Option<Ipv4>>, from: int)
    requires
        0 <= from <= x.len(),
        forall|k: int| 0 <= k < x.len() ==> (#[trigger] x[k]) is None,
    ensures
        first_v4(x + seq![Some(ip)] + y, from) == Some(ip),
        first_v4(x, from) is None,
    decreases x.len() - from,
{
    let all = x + seq![Some(ip)] + y;
    if from < x.len() {
        assert(all[from] == x[from]);
        law_first_v4_is_picked(x, ip, y, from + 1);
    } else {
        assert(all[from] == Some(ip));
    }
}

/// Answering a challenge changes no header but the cookie, and in the cookie leaves all that
/// does not belong to the challenge as it was.
pub proof fn law_answer_keeps_other_headers_and_cookies(
    t: HeaderTable,
    jar: CookiesView,
    kept: Seq<Seq<char>>,
    other: Seq<char>,
)
    requires
        kept == pick_segments(
            split(
                match first_text(t, "cookie"@) {
                    Some(s) => s,
                    None => seq![],
                },
                "; "@,
            ),
            false,
        ),
        join(kept, "; "@).len() > 0,
        is_plain_text(join(kept, "; "@) + "; "@ + jar.text()),
        other != "cookie"@,
    ensures
        all_values(refreshed_headers(t, jar), other) == all_values(t, other),
        first_text(refreshed_headers(t, jar), "cookie"@) == Some(
            join(kept, "; "@) + "; "@ + jar.text(),
        ),
{
    lemma_known_names();
    let text = join(kept, "; "@) + "; "@ + jar.text();
    law_header_reads_back(t, "cookie"@, text);
    law_put_leaves_others(t, "cookie"@, text, other);
}

/// The bytes that are sent, or searched for a challenge, are those of the body, and none where
/// there is no body.
pub proof fn law_body_bytes(resp: Response, body: Vec<u8>)
    ensures
        body_bytes(Some(body)) == body@,
        body_bytes(None).len() == 0,
        resp.body == Some(body) ==> response_challenge(resp) == page_challenge(lossy_text(body@)),
{
}

/// What was read, or why it could not be, is seen as it is.
pub proof fn law_outcome_is_seen_as_it_is(text: String, error: String)
    ensures
        outcome_view(Ok(text)) == Ok::<Seq<char>, Seq<char>>(text@),
        outcome_view(Err(error)) == Err::<Seq<char>, Seq<char>>(error@),
{
}

/// The names under which the site is reached, and the type of its forms.
pub proof fn law_names_of_the_site()
    ensures
        ORIGIN_DOMAIN@ == "z-library.sk"@,
        SNI_DOMAIN@ == "eliorfoy"@,
        FORM_TYPE@ == "application/x-www-form-urlencoded; charset=UTF-8"@,
{
}

/// A 502 has the address refreshed once. A 503 has the challenge of its page solved once, as
/// it stands there. Every other response, a 503 without a challenge, and one that fails again
/// is the result.
pub proof fn law_when_a_request_is_repeated(
    status: u16,
    token: Seq<char>,
    offset: nat,
    challenge: Option<(Seq<char>, nat)>,
    done: bool,
)
    ensures
        action_after(502, challenge, false, done) == ActionView::RefreshIp,
        action_after(502, challenge, true, done) == ActionView::Finish,
        action_after(503, Some((token, offset)), done, false) == ActionView::Solve(token, offset),
        action_after(503, challenge, done, true) == ActionView::Finish,
        action_after(503, None, done, false) == ActionView::Finish,
        status != 502 && status != 503 ==> action_after(status, challenge, false, false)
            == ActionView::Finish,
{
}

/// A connection to the site goes to its remembered address, and one to any other host to an
/// address that is looked up under that host's own name and port; the port is 443 unless
/// another one is given.
pub proof fn law_where_connections_go(host: Seq<char>, port: u16)
    ensures
        route_to("z-library.sk"@, None) == RouteView::Origin(443),
        route_to("z-library.sk"@, Some(port)) == RouteView::Origin(port),
        host != "z-library.sk"@ ==> route_to(host, Some(port)) == RouteView::Lookup(
            host + ":"@ + decimal(port as nat),
            port,
        ),
        host != "z-library.sk"@ ==> route_to(host, None) == RouteView::Lookup(
            host + ":"@ + decimal(443),
            443,
        ),
{
}

} // verus!
