//! From a book to the address of its file: the site is asked until it leads elsewhere.

use vstd::prelude::*;
use vstd::utf8::encode_utf8;

use crate::account::pool::{filled, rotated, take_next, AccountPool};
use crate::apis::search::site_url;
use crate::client::challenge::{account_parts, push_account, ChallengeCookies, CookiesView};
use crate::client::cookies::{
    is_challenge_segment, is_clean_jar, is_whole, law_cookie_carries_the_challenge,
    lemma_account_parts, lemma_site_mode, pick_segments,
};
use crate::client::sni::{
    body_text, cookie_fits, effective_status, law_body_is_read_as_sent, law_redirects_are_bounded,
    leads_to, lemma_known_names, lemma_single_header_fits, Hop, Method, RequestBuilder, Response,
    SniBypassClient, ORIGIN_DOMAIN,
};
use crate::headers::{
    all_values, ascii_text, first_value, get_header, header_entries, header_texts, is_plain_text,
    is_visible, lemma_plain_text, put, visible_texts, HeaderTable,
};
use crate::link::{join_urls, joined_view, url_join, LinkError, LinkErrorView};
use crate::models::account::LoginResult;
use crate::models::book::BookInfo;
use crate::number::{decimal, push_decimal};
use crate::pattern::{first_group, match_group};
use crate::text::{
    before, chars_of, concat, contains_text, cut_before, find, join, join_texts,
    law_split_of_append, lemma_find_first_char, lemma_find_is, lemma_find_least, lemma_unbordered,
    occurs_at, opt_view, pair_view, same_text, split, starts_with, texts,
};

verus! {

/// A link on a page whose text asks for the download.
pub const LINK_PATTERN: &'static str =
    r#"href="(https?://[^"]+)"[^>]*>\s*(?:Download|下载|GET|get)\b"#;

/// A link on a page that is dressed as the download button.
pub const BUTTON_PATTERN: &'static str =
    r#"<a[^>]+href="(https?://[^"]+)"[^>]*class="[^"]*dlButton[^"]*""#;

// ---------------------------------------------------------------------------
// Where a URL belongs
// ---------------------------------------------------------------------------

/// Where a URL belongs.
pub enum LocationKind {
    /// To the site itself.
    Origin,
    /// To another host.
    Cdn(String),
}

/// The part of a URL between its scheme and the next slash; none without a scheme.
pub open spec fn host_part(url: Seq<char>) -> Option<Seq<char>> {
    if occurs_at(url, "https://"@, 0) {
        Some(before(url.skip("https://"@.len() as int), "/"@))
    } else if occurs_at(url, "http://"@, 0) {
        Some(before(url.skip("http://"@.len() as int), "/"@))
    } else {
        None
    }
}

/// The host by which a URL is judged; empty without a scheme.
pub open spec fn judged_host(url: Seq<char>) -> Seq<char> {
    match host_part(url) {
        Some(h) => h,
        None => seq![],
    }
}

/// Whether a URL belongs to the site. Only the host counts: the path of a foreign URL may
/// well hold the name of the site.
pub open spec fn is_origin(url: Seq<char>) -> bool {
    judged_host(url) == ORIGIN_DOMAIN@
}

/// The part of a URL between its scheme and the next slash.
pub fn extract_host(url: &str) -> (r: Option<String>)
    ensures
        opt_view(r) == host_part(url@),
{
    let chars = chars_of(url);
    let skip: usize = if starts_with(&chars, "https://") {
        proof {
            reveal_strlit("https://");
        }
        8
    } else if starts_with(&chars, "http://") {
        proof {
            reveal_strlit("http://");
        }
        7
    } else {
        return None;
    };
    let rest = vstd::slice::slice_subrange(chars.as_slice(), skip, chars.len());
    assert(rest@ =~= url@.skip(skip as int));
    Some(cut_before(rest, "/"))
}

/// Decides where a URL belongs.
pub fn classify_location(url: &str) -> (r: LocationKind)
    ensures
        match r {
            LocationKind::Origin => is_origin(url@),
            LocationKind::Cdn(host) => !is_origin(url@) && host@ == judged_host(url@),
        },
{
    let host = match extract_host(url) {
        Some(h) => h,
        None => String::new(),
    };
    if same_text(host.as_str(), ORIGIN_DOMAIN) {
        LocationKind::Origin
    } else {
        LocationKind::Cdn(host)
    }
}

// ---------------------------------------------------------------------------
// The cookie
// ---------------------------------------------------------------------------

/// The user id and key of an account.
pub open spec fn credentials(a: LoginResult) -> (Seq<char>, Seq<char>) {
    (a.remix_userid@, a.remix_userkey@)
}

/// The account with which a download is asked for: the given one, else the next of the pool.
pub open spec fn download_account(
    account: Option<(Seq<char>, Seq<char>)>,
    pooled: Seq<LoginResult>,
) -> Option<(Seq<char>, Seq<char>)> {
    if account is Some {
        account
    } else if pooled.len() > 0 {
        Some(credentials(pooled[0]))
    } else {
        None
    }
}

/// The cookie of a download: the challenge cookies, the account and the kind of site.
pub open spec fn download_cookie(
    jar: CookiesView,
    account: Option<(Seq<char>, Seq<char>)>,
) -> Seq<char> {
    join(seq![jar.text()] + account_parts(account) + seq!["selectedSiteMode=books"@], "; "@)
}

/// Builds the cookie of a download. Where no account is given, the next one of the pool is
/// used; an empty pool is filled from the given rows of the store first.
pub fn build_cookie(
    jar: &ChallengeCookies,
    account: Option<(&str, &str)>,
    pool: &mut AccountPool,
    rows: Vec<Option<LoginResult>>,
) -> (r: String)
    ensures
        r@ == download_cookie(
            jar@,
            download_account(pair_view(account), filled(old(pool).accounts@, rows@)),
        ),
        final(pool).accounts@ == (if account is Some {
            old(pool).accounts@
        } else {
            rotated(filled(old(pool).accounts@, rows@))
        }),
{
    let ghost who = download_account(pair_view(account), filled(pool.accounts@, rows@));
    let mut parts: Vec<String> = Vec::new();
    parts.push(jar.cookie_str());
    let ghost head = seq![jar@.text()];
    assert(texts(parts@) =~= head);
    match account {
        Some((uid, ukey)) => {
            push_account(&mut parts, uid, ukey);
        },
        None => {
            if let Some(a) = take_next(pool, rows) {
                push_account(&mut parts, a.remix_userid.as_str(), a.remix_userkey.as_str());
            }
        },
    }
    assert(texts(parts@) =~= head + account_parts(who));
    let ghost so_far = texts(parts@);
    parts.push("selectedSiteMode=books".to_string());
    assert(texts(parts@) =~= so_far.push("selectedSiteMode=books"@));
    assert(texts(parts@) =~= head + account_parts(who) + seq!["selectedSiteMode=books"@]);
    join_texts(&parts, "; ")
}

// ---------------------------------------------------------------------------
// What the site answers
// ---------------------------------------------------------------------------

/// Where the next request goes, and the cookie that it carries in addition.
pub struct StepState {
    pub next_url: String,
    pub extra_cookie: Option<String>,
}

/// The model of a step, or of the message of an error.
pub type StepView = Result<(Seq<char>, Option<Seq<char>>), Seq<char>>;

/// The model of the result of a step.
pub open spec fn step_view(r: Result<StepState, String>) -> StepView {
    match r {
        Ok(s) => Ok((s.next_url@, opt_view(s.extra_cookie))),
        Err(e) => Err(e@),
    }
}

/// The first of some `Set-Cookie` lines, at or after a place, that registers the download.
pub open spec fn registration(lines: Seq<Seq<char>>, from: int) -> Option<Seq<char>>
    decreases lines.len() - from,
{
    if from < 0 || from >= lines.len() {
        None
    } else if occurs_at(lines[from], "book_hash3_id"@, 0) {
        Some(before(lines[from], ";"@))
    } else {
        registration(lines, from + 1)
    }
}

/// What follows a response that registers the download: the same request again, with the
/// cookie that came with the registration.
pub open spec fn registered_step(t: HeaderTable, url: Seq<char>) -> StepView {
    match registration(visible_texts(all_values(t, "set-cookie"@)), 0) {
        Some(cookie) => Ok((url, Some(cookie))),
        None => Err("HTTP 204: 服务端未下发 book_hash3_id (URL="@ + url + ")"@),
    }
}

/// What follows a redirect to a reference, given how it resolved against the request's URL.
pub open spec fn joined_step(joined: Result<Seq<char>, LinkErrorView>) -> StepView {
    match joined {
        Ok(u) => Ok((u, None)),
        Err(LinkErrorView::Base(e)) => Err("解析请求 URL 失败: "@ + e),
        Err(LinkErrorView::Reference(e)) => Err("拼接相对 URL 失败: "@ + e),
    }
}

/// What follows a redirect.
pub open spec fn redirected_step(t: HeaderTable, status: u16, url: Seq<char>) -> StepView {
    match first_value(t, "location"@) {
        None => Err("HTTP "@ + decimal(status as nat) + ": 重定向缺少 Location 头"@),
        Some(v) => if !is_visible(v) {
            Err("Location 头解析失败: "@ + "failed to convert header to a str"@)
        } else if occurs_at(ascii_text(v), "http"@, 0) {
            Ok((ascii_text(v), None))
        } else {
            joined_step(url_join(url, ascii_text(v)))
        },
    }
}

/// Whether a page says that no more downloads are granted today.
pub open spec fn is_limit_page(body: Seq<char>) -> bool {
    find(body, "Daily limit reached"@) is Some || find(body, "download-limits-error"@) is Some
}

/// What follows a page, on which the given link was found.
pub open spec fn page_step(body: Seq<char>, link: Option<Seq<char>>, url: Seq<char>) -> StepView {
    if is_limit_page(body) {
        Err("HTTP 200: Daily limit reached（本书需账号登录或已达每日下载限制）"@)
    } else {
        match link {
            Some(u) => Ok((u, None)),
            None => Err("HTTP 200 但无法从页面解析下载链接 (URL="@ + url + ")"@),
        }
    }
}

/// The link to be followed: one whose text asks for the download goes before a button.
pub open spec fn chosen_link(
    labelled: Option<Seq<char>>,
    button: Option<Seq<char>>,
) -> Option<Seq<char>> {
    if labelled is Some {
        labelled
    } else {
        button
    }
}

/// The download link on a page.
pub open spec fn download_link(html: Seq<char>) -> Option<Seq<char>> {
    chosen_link(first_group(LINK_PATTERN@, html), first_group(BUTTON_PATTERN@, html))
}

/// What follows a response of the site.
pub open spec fn origin_step(resp: Response, url: Seq<char>) -> StepView {
    let status = effective_status(resp.status);
    let t = header_entries(resp.headers);
    if status == 204 {
        registered_step(t, url)
    } else if 300 <= status < 400 {
        redirected_step(t, status, url)
    } else if status == 200 {
        match body_text(resp.body) {
            Ok(body) => page_step(body, download_link(body), url),
            Err(e) => Err(e),
        }
    } else {
        Err("origin 请求失败 HTTP "@ + decimal(status as nat))
    }
}

/// A message with a URL in brackets behind it.
fn with_url(message: &str, url: &str) -> (r: String)
    ensures
        r@ == message@ + url@ + ")"@,
{
    let mut out = concat(message, url);
    out.append(")");
    out
}

/// What follows a response that registers the download.
fn follow_registration(
    headers: &http::HeaderMap<http::HeaderValue>,
    request_url: &str,
) -> (r: Result<StepState, String>)
    ensures
        step_view(r) == registered_step(header_entries(*headers), request_url@),
{
    proof {
        lemma_known_names();
    }
    let lines = header_texts(headers, "set-cookie");
    let ghost all = texts(lines@);
    let mut i: usize = 0;
    while i < lines.len()
        invariant
            i <= lines@.len(),
            all == texts(lines@),
            all == visible_texts(all_values(header_entries(*headers), "set-cookie"@)),
            registration(all, 0) == registration(all, i as int),
        decreases lines@.len() - i,
    {
        assert(all[i as int] == lines@[i as int]@);
        let line = chars_of(lines[i].as_str());
        if starts_with(&line, "book_hash3_id") {
            return Ok(
                StepState {
                    next_url: request_url.to_string(),
                    extra_cookie: Some(cut_before(&line, ";")),
                },
            );
        }
        i += 1;
    }
    Err(with_url("HTTP 204: 服务端未下发 book_hash3_id (URL=", request_url))
}

/// Decides what follows a redirect to a reference, given how it resolved against the
/// request's URL.
pub fn settle_redirect(joined: Result<String, LinkError>) -> (r: Result<StepState, String>)
    ensures
        step_view(r) == joined_step(joined_view(joined)),
{
    match joined {
        Ok(u) => Ok(StepState { next_url: u, extra_cookie: None }),
        Err(LinkError::Base(e)) => Err(concat("解析请求 URL 失败: ", e.as_str())),
        Err(LinkError::Reference(e)) => Err(concat("拼接相对 URL 失败: ", e.as_str())),
    }
}

/// What follows a redirect.
fn follow_redirect(
    headers: &http::HeaderMap<http::HeaderValue>,
    status: u16,
    request_url: &str,
) -> (r: Result<StepState, String>)
    ensures
        step_view(r) == redirected_step(header_entries(*headers), status, request_url@),
{
    proof {
        lemma_known_names();
    }
    let location = match get_header(headers, "location") {
        None => {
            let mut m = "HTTP ".to_string();
            push_decimal(status as u64, &mut m);
            m.append(": 重定向缺少 Location 头");
            return Err(m);
        },
        Some(Err(e)) => {
            return Err(concat("Location 头解析失败: ", e.as_str()));
        },
        Some(Ok(s)) => s,
    };
    let chars = chars_of(location.as_str());
    if starts_with(&chars, "http") {
        return Ok(StepState { next_url: location, extra_cookie: None });
    }
    settle_redirect(join_urls(request_url, location.as_str()))
}

/// Chooses between a link whose text asks for the download and a button.
pub fn choose_link(labelled: Option<String>, button: Option<String>) -> (r: Option<String>)
    ensures
        opt_view(r) == chosen_link(opt_view(labelled), opt_view(button)),
{
    match labelled {
        Some(u) => Some(u),
        None => button,
    }
}

/// Finds the download link on a page.
pub fn extract_download_link(html: &str) -> (r: Option<String>)
    ensures
        opt_view(r) == download_link(html@),
{
    choose_link(match_group(LINK_PATTERN, html), match_group(BUTTON_PATTERN, html))
}

/// What follows a page, on which the given link was found.
pub fn follow_page(body: &str, link: Option<String>, request_url: &str) -> (r: Result<
    StepState,
    String,
>)
    ensures
        step_view(r) == page_step(body@, opt_view(link), request_url@),
{
    let chars = chars_of(body);
    if contains_text(&chars, "Daily limit reached") || contains_text(
        &chars,
        "download-limits-error",
    ) {
        return Err(
            "HTTP 200: Daily limit reached（本书需账号登录或已达每日下载限制）".to_string(),
        );
    }
    match link {
        Some(u) => Ok(StepState { next_url: u, extra_cookie: None }),
        None => Err(with_url("HTTP 200 但无法从页面解析下载链接 (URL=", request_url)),
    }
}

/// Decides what follows a response of the site to the request for `request_url`.
pub fn follow_origin_response(resp: Response, request_url: &str) -> (r: Result<StepState, String>)
    ensures
        step_view(r) == origin_step(resp, request_url@),
{
    let mut resp = resp;
    let status: u16 = resp.status();
    if status == 204 {
        return follow_registration(&resp.headers, request_url);
    }
    if 300 <= status && status < 400 {
        return follow_redirect(&resp.headers, status, request_url);
    }
    if status == 200 {
        return match resp.text() {
            Ok(body) => {
                let link = extract_download_link(body.as_str());
                follow_page(body.as_str(), link, request_url)
            },
            Err(e) => Err(e),
        };
    }
    let mut m = "origin 请求失败 HTTP ".to_string();
    push_decimal(status as u64, &mut m);
    Err(m)
}

// ---------------------------------------------------------------------------
// The way from a book to its file
// ---------------------------------------------------------------------------

/// The search for the address of a file.
pub struct Download {
    pub current: String,
    pub attempt: u32,
    pub extra_cookie: Option<String>,
}

/// What is to be done next.
pub enum DownloadStep<C> {
    /// The address of the file is found.
    Resolved(String),
    /// The site is to be asked.
    Fetch(RequestBuilder<C>),
}

/// The cookie of a request, with the one that a registration brought.
pub open spec fn full_cookie(cookie: Seq<char>, extra: Option<Seq<char>>) -> Seq<char> {
    match extra {
        Some(e) => cookie + "; "@ + e,
        None => cookie,
    }
}

/// Whether the search is given up after an answer, counted from one, that still leads to no
/// other host.
pub open spec fn is_given_up(answers: nat) -> bool {
    answers >= 6
}

impl Download {
    /// Six requests are made at most.
    pub open spec fn wf(self) -> bool {
        self.attempt <= 5
    }

    /// Begins with the download link of a book.
    pub fn start(book: &BookInfo) -> (r: Result<Self, String>)
        ensures
            match r {
                Ok(d) => {
                    &&& book.download_url@.len() > 0
                    &&& d.current@ == book.download_url@
                    &&& d.attempt == 0
                    &&& d.extra_cookie is None
                    &&& d.wf()
                },
                Err(e) => book.download_url@.len() == 0 && e@ == "下载链接为空"@,
            },
    {
        if book.download_url.as_str().is_empty() {
            return Err("下载链接为空".to_string());
        }
        Ok(Download { current: book.download_url.clone(), attempt: 0, extra_cookie: None })
    }

    /// Decides what is to be done next. A URL that does not belong to the site is the result
    /// and is never asked for.
    pub fn next<C: Clone>(
        &mut self,
        client: &SniBypassClient<C>,
        jar: &ChallengeCookies,
        account: Option<(&str, &str)>,
        pool: &mut AccountPool,
        rows: Vec<Option<LoginResult>>,
    ) -> (r: DownloadStep<C>)
        requires
            old(self).wf(),
        ensures
            *final(self) == (Download { attempt: (old(self).attempt + 1) as u32, ..*old(self) }),
            match r {
                DownloadStep::Resolved(url) => {
                    &&& !is_origin(old(self).current@)
                    &&& url@ == old(self).current@
                    &&& final(pool).accounts@ == old(pool).accounts@
                },
                DownloadStep::Fetch(request) => {
                    &&& is_origin(old(self).current@)
                    &&& request.method == Method::Get
                    &&& request.url@ == old(self).current@
                    &&& request.table() == put(
                        HeaderTable::empty(),
                        "Cookie"@,
                        full_cookie(
                            download_cookie(
                                jar@,
                                download_account(
                                    pair_view(account),
                                    filled(old(pool).accounts@, rows@),
                                ),
                            ),
                            opt_view(old(self).extra_cookie),
                        ),
                    )
                    &&& request.body is None
                    &&& request.max_redirect == 0
                    &&& cookie_fits(request.table())
                    &&& cloned(client.inner, request.client)
                    &&& final(pool).accounts@ == (if account is Some {
                        old(pool).accounts@
                    } else {
                        rotated(filled(old(pool).accounts@, rows@))
                    })
                },
            },
    {
        self.attempt = self.attempt + 1;
        match classify_location(self.current.as_str()) {
            LocationKind::Cdn(_) => DownloadStep::Resolved(self.current.clone()),
            LocationKind::Origin => {
                let mut cookie = build_cookie(jar, account, pool, rows);
                if let Some(extra) = &self.extra_cookie {
                    cookie.append("; ");
                    cookie.append(extra.as_str());
                }
                proof {
                    lemma_single_header_fits("Cookie"@, cookie@);
                }
                let request = client.get(self.current.as_str()).header_str(
                    "Cookie",
                    cookie.as_str(),
                ).max_redirect(0);
                DownloadStep::Fetch(request)
            },
        }
    }

    /// Takes the response of the site in. After the sixth the search is given up.
    pub fn advance(&mut self, resp: Response) -> (r: Result<(), String>)
        ensures
            match origin_step(resp, old(self).current@) {
                Ok((url, extra)) => {
                    &&& final(self).current@ == url
                    &&& opt_view(final(self).extra_cookie) == extra
                    &&& final(self).attempt == old(self).attempt
                    &&& old(self).attempt <= 5 ==> r is Ok && final(self).wf()
                    &&& r is Err <==> is_given_up(old(self).attempt as nat)
                    &&& old(self).attempt > 5 ==> (r matches Err(m) && m@ == "重定向超过 "@
                        + decimal(old(self).attempt as nat) + " 次仍停留在 origin 域名"@)
                },
                Err(e) => r matches Err(m) && m@ == e && *final(self) == *old(self),
            },
    {
        match follow_origin_response(resp, self.current.as_str()) {
            Ok(step) => {
                self.current = step.next_url;
                self.extra_cookie = step.extra_cookie;
                if self.attempt > 5 {
                    let mut m = "重定向超过 ".to_string();
                    push_decimal(self.attempt as u64, &mut m);
                    m.append(" 次仍停留在 origin 域名");
                    return Err(m);
                }
                Ok(())
            },
            Err(e) => Err(e),
        }
    }
}

// ---------------------------------------------------------------------------
// Laws
// ---------------------------------------------------------------------------

/// A link that a search page gives as a path belongs to the site, so that the search for
/// the file begins there.
pub proof fn law_search_links_belong_to_the_site(path: Seq<char>)
    requires
        path.len() > 0,
        path[0] == '/',
    ensures
        is_origin(site_url(path)),
{
    reveal_strlit("https://");
    reveal_strlit("/");
    reveal_strlit("z-library.sk");
    let url = site_url(path);
    let host = ORIGIN_DOMAIN@;
    let rest = host + path;
    assert(url.subrange(0, 8) =~= "https://"@);
    assert(url.skip(8) =~= rest);
    let n = host.len() as int;
    assert(rest.subrange(n, n + 1) =~= "/"@);
    assert forall|j: int| 0 <= j < n implies !occurs_at(rest, "/"@, j) by {
        if occurs_at(rest, "/"@, j) {
            assert(rest.subrange(j, j + 1)[0] == host[j]);
        }
    }
    lemma_find_is(rest, "/"@, n);
    assert(rest.take(n) =~= host);
}

/// A download carries the challenge cookies in force, each exactly once, the account and
/// the kind of site. An id or a key that would be torn apart in a cookie is left out.
pub proof fn law_download_cookie_carries_challenge_and_account(
    jar: CookiesView,
    account: Option<(Seq<char>, Seq<char>)>,
)
    requires
        is_clean_jar(jar),
        account matches Some((uid, ukey)) ==> is_whole(uid) && is_whole(ukey),
    ensures
        pick_segments(split(download_cookie(jar, account), "; "@), true) == jar.segments(),
        split(download_cookie(jar, account), "; "@) == split(jar.text(), "; "@) + account_parts(
            account,
        ) + seq!["selectedSiteMode=books"@],
{
    let others = account_parts(account) + seq!["selectedSiteMode=books"@];
    lemma_site_mode();
    lemma_account_parts(account);
    assert forall|k: int| 0 <= k < others.len() implies is_whole(#[trigger] others[k])
        && !is_challenge_segment(others[k]) by {
        if k < account_parts(account).len() {
            assert(others[k] == account_parts(account)[k]);
        }
    }
    law_cookie_carries_the_challenge(jar, others);
    assert(seq![jar.text()] + others =~= seq![jar.text()] + account_parts(account) + seq![
        "selectedSiteMode=books"@,
    ]);
    assert(split(jar.text(), "; "@) + others =~= split(jar.text(), "; "@) + account_parts(account)
        + seq!["selectedSiteMode=books"@]);
}

/// Only the site is asked for a download: a request that is made for it is never led on to
/// another URL by a redirect, so that no hop leaves the site.
pub proof fn law_only_the_site_is_asked(hops: Seq<Hop>)
    requires
        hops.len() > 0,
        is_origin(hops[0].url@),
        hops[0].remaining == 0,
        forall|i: int| 0 <= i < hops.len() - 1 ==> leads_to(#[trigger] hops[i], hops[i + 1]),
    ensures
        hops.len() == 1,
        forall|i: int| 0 <= i < hops.len() ==> is_origin((#[trigger] hops[i]).url@),
{
    law_redirects_are_bounded(hops);
}

/// A registered download is asked for again at the same URL with the cookie of its
/// registration, and no other answer adds a cookie to the next request.
pub proof fn law_registration_is_carried_once(resp: Response, url: Seq<char>)
    ensures
        effective_status(resp.status) == 204 ==> (origin_step(resp, url) matches Ok((next, extra))
            ==> next == url && extra == registration(
            visible_texts(all_values(header_entries(resp.headers), "set-cookie"@)),
            0,
        ) && extra is Some),
        effective_status(resp.status) != 204 ==> (origin_step(resp, url) matches Ok((next, extra))
            ==> extra is None),
{
}

/// The site is asked six times at most: each question counts, and after the sixth the
/// search is given up.
pub proof fn law_six_requests_at_most(asked: Seq<Download>)
    requires
        asked.len() > 0,
        asked[0].attempt == 0,
        forall|i: int| 0 <= i < asked.len() ==> (#[trigger] asked[i]).wf(),
        forall|i: int|
            0 <= i < asked.len() - 1 ==> asked[i + 1].attempt == (#[trigger] asked[i]).attempt + 1,
    ensures
        asked.len() <= 6,
        asked.last().attempt == asked.len() - 1,
    decreases asked.len(),
{
    if asked.len() > 1 {
        let front = asked.drop_last();
        assert forall|i: int| 0 <= i < front.len() implies (#[trigger] front[i]).wf() by {
            assert(front[i] == asked[i]);
        }
        assert forall|i: int| 0 <= i < front.len() - 1 implies front[i + 1].attempt
            == (#[trigger] front[i]).attempt + 1 by {
            assert(front[i] == asked[i] && front[i + 1] == asked[i + 1]);
        }
        law_six_requests_at_most(front);
        let n = asked.len() - 2;
        assert(asked[n + 1].attempt == asked[n].attempt + 1);
        assert(asked[n + 1].wf());
    }
}

/// The host of a URL is all that stands between its scheme and the next slash, or the end.
#[verifier::rlimit(40)]
pub proof fn law_host_of_a_url(host: Seq<char>, path: Seq<char>)
    requires
        !host.contains('/'),
    ensures
        host_part("https://"@ + host + "/"@ + path) == Some(host),
        host_part("http://"@ + host + "/"@ + path) == Some(host),
        host_part("https://"@ + host) == Some(host),
        host_part("http://"@ + host) == Some(host),
{
    reveal_strlit("https://");
    reveal_strlit("http://");
    reveal_strlit("/");
    let tls = "https://"@;
    let plain = "http://"@;
    lemma_find_first_char(host, "/"@, path);
    let rest = host + "/"@ + path;
    assert(rest.take(host.len() as int) =~= host);
    assert((tls + host + "/"@ + path).subrange(0, 8) =~= tls);
    assert((tls + host + "/"@ + path).skip(8) =~= rest);
    assert((tls + host).subrange(0, 8) =~= tls);
    assert((tls + host).skip(8) =~= host);
    assert((plain + host + "/"@ + path).subrange(0, 7) =~= plain);
    assert((plain + host + "/"@ + path).skip(7) =~= rest);
    assert((plain + host).subrange(0, 7) =~= plain);
    assert((plain + host).skip(7) =~= host);
    assert(!occurs_at(plain + host + "/"@ + path, tls, 0)) by {
        if occurs_at(plain + host + "/"@ + path, tls, 0) {
            assert((plain + host + "/"@ + path).subrange(0, 8)[4] == plain[4]);
        }
    }
    assert(!occurs_at(plain + host, tls, 0)) by {
        if occurs_at(plain + host, tls, 0) {
            assert((plain + host).subrange(0, 8)[4] == plain[4]);
        }
    }
}

/// A text begins with two texts one behind the other if it begins with the first, and what
/// follows begins with the second.
proof fn lemma_prefix_of_append(s: Seq<char>, a: Seq<char>, b: Seq<char>)
    ensures
        occurs_at(s, a + b, 0) <==> occurs_at(s, a, 0) && occurs_at(s.skip(a.len() as int), b, 0),
        s == a + b <==> occurs_at(s, a, 0) && s.skip(a.len() as int) == b,
{
    let n = a.len() as int;
    let both = a + b;
    if occurs_at(s, both, 0) {
        assert(s.subrange(0, n) =~= s.subrange(0, both.len() as int).take(n));
        assert(both.take(n) =~= a);
        assert(s.skip(n).subrange(0, b.len() as int) =~= s.subrange(0, both.len() as int).skip(n));
        assert(both.skip(n) =~= b);
    }
    if occurs_at(s, a, 0) {
        assert(s =~= s.subrange(0, n) + s.skip(n));
        if occurs_at(s.skip(n), b, 0) {
            assert(s.subrange(0, both.len() as int) =~= s.subrange(0, n) + s.skip(n).subrange(
                0,
                b.len() as int,
            ));
        }
    }
    if s == both {
        assert(s.subrange(0, n) =~= a);
        assert(s.skip(n) =~= b);
    }
}

/// The site's name, alone or with a slash behind it, is what gives the site's host.
proof fn lemma_site_host(rest: Seq<char>)
    ensures
        before(rest, "/"@) == ORIGIN_DOMAIN@ <==> rest == ORIGIN_DOMAIN@ || occurs_at(
            rest,
            ORIGIN_DOMAIN@ + "/"@,
            0,
        ),
{
    reveal_strlit("z-library.sk");
    reveal_strlit("/");
    let site = ORIGIN_DOMAIN@;
    assert(site.len() == 12 && !site.contains('/'));
    lemma_find_first_char(site, "/"@, rest.skip(13));
    lemma_find_least(rest, "/"@);
    if occurs_at(rest, site + "/"@, 0) {
        assert(rest =~= site + "/"@ + rest.skip(13));
        assert(rest.take(12) =~= site);
    }
    if before(rest, "/"@) == site {
        if let Some(i) = find(rest, "/"@) {
            assert(i == 12);
            assert(rest.subrange(0, 13) =~= rest.take(12) + rest.subrange(12, 13));
        }
    }
}

/// No text begins with both schemes.
proof fn lemma_schemes_differ(url: Seq<char>)
    ensures
        !(occurs_at(url, "https://"@, 0) && occurs_at(url, "http://"@, 0)),
{
    reveal_strlit("https://");
    reveal_strlit("http://");
    if occurs_at(url, "https://"@, 0) && occurs_at(url, "http://"@, 0) {
        assert(url.subrange(0, 8)[4] == url[4]);
        assert(url.subrange(0, 7)[4] == url[4]);
    }
}

/// The URLs of the site in one piece.
proof fn lemma_site_literals()
    ensures
        "https://z-library.sk"@ == "https://"@ + ORIGIN_DOMAIN@,
        "http://z-library.sk"@ == "http://"@ + ORIGIN_DOMAIN@,
        "https://z-library.sk/"@ == "https://"@ + (ORIGIN_DOMAIN@ + "/"@),
        "http://z-library.sk/"@ == "http://"@ + (ORIGIN_DOMAIN@ + "/"@),
{
    reveal_strlit("https://");
    reveal_strlit("http://");
    reveal_strlit("/");
    reveal_strlit("z-library.sk");
    reveal_strlit("https://z-library.sk");
    reveal_strlit("http://z-library.sk");
    reveal_strlit("https://z-library.sk/");
    reveal_strlit("http://z-library.sk/");
    assert("https://z-library.sk"@ =~= "https://"@ + ORIGIN_DOMAIN@);
    assert("http://z-library.sk"@ =~= "http://"@ + ORIGIN_DOMAIN@);
    assert("https://z-library.sk/"@ =~= "https://"@ + (ORIGIN_DOMAIN@ + "/"@));
    assert("http://z-library.sk/"@ =~= "http://"@ + (ORIGIN_DOMAIN@ + "/"@));
}

/// A URL belongs to the site if it is the site's name behind a scheme, alone or with a slash
/// behind it, and only then.
pub proof fn law_urls_of_the_site(url: Seq<char>)
    ensures
        is_origin(url) <==> url == "https://z-library.sk"@ || url == "http://z-library.sk"@
            || occurs_at(url, "https://z-library.sk/"@, 0) || occurs_at(
            url,
            "http://z-library.sk/"@,
            0,
        ),
{
    lemma_site_literals();
    lemma_schemes_differ(url);
    lemma_prefix_of_append(url, "https://"@, ORIGIN_DOMAIN@);
    lemma_prefix_of_append(url, "http://"@, ORIGIN_DOMAIN@);
    lemma_prefix_of_append(url, "https://"@, ORIGIN_DOMAIN@ + "/"@);
    lemma_prefix_of_append(url, "http://"@, ORIGIN_DOMAIN@ + "/"@);
    lemma_site_host(url.skip("https://"@.len() as int));
    lemma_site_host(url.skip("http://"@.len() as int));
    if !occurs_at(url, "https://"@, 0) && !occurs_at(url, "http://"@, 0) {
        law_no_host_without_a_scheme(url);
    }
}

/// A redirect to a location that begins with `http` is followed exactly as the site sent it,
/// character for character; so where it names a foreign host, it is the address that is
/// found.
pub proof fn law_location_is_followed_as_sent(resp: Response, url: Seq<char>, location: Seq<char>)
    requires
        300 <= resp.status < 400,
        first_value(header_entries(resp.headers), "location"@) == Some(encode_utf8(location)),
        is_plain_text(location),
        occurs_at(location, "http"@, 0),
    ensures
        origin_step(resp, url) == Ok::<(Seq<char>, Option<Seq<char>>), Seq<char>>((location, None)),
{
    lemma_plain_text(location);
}

/// A redirect to any other location is followed to where it resolves, seen from the request;
/// one that does not resolve, or is not there, is an error that says so.
pub proof fn law_reference_is_resolved(resp: Response, url: Seq<char>, location: Seq<char>)
    requires
        300 <= resp.status < 400,
    ensures
        first_value(header_entries(resp.headers), "location"@) is None ==> origin_step(resp, url)
            == Err::<(Seq<char>, Option<Seq<char>>), Seq<char>>(
            "HTTP "@ + decimal(resp.status as nat) + ": 重定向缺少 Location 头"@,
        ),
        first_value(header_entries(resp.headers), "location"@) == Some(encode_utf8(location))
            && is_plain_text(location) && !occurs_at(location, "http"@, 0) ==> origin_step(
            resp,
            url,
        ) == (match url_join(url, location) {
            Ok(u) => Ok::<(Seq<char>, Option<Seq<char>>), Seq<char>>((u, None)),
            Err(LinkErrorView::Base(e)) => Err("解析请求 URL 失败: "@ + e),
            Err(LinkErrorView::Reference(e)) => Err("拼接相对 URL 失败: "@ + e),
        }),
{
    if is_plain_text(location) {
        lemma_plain_text(location);
    }
}

/// The first line that begins with `book_hash3_id` registers the download, with all that
/// stands before its first semicolon; other lines before it are passed over.
pub proof fn law_registration_is_the_first(
    x: Seq<Seq<char>>,
    value: Seq<char>,
    attributes: Seq<char>,
    y: Seq<Seq<char>>,
    from: int,
)
    requires
        0 <= from <= x.len(),
        forall|k: int| 0 <= k < x.len() ==> !occurs_at(#[trigger] x[k], "book_hash3_id"@, 0),
        !value.contains(';'),
    ensures
        registration(
            x + seq!["book_hash3_id"@ + value + ";"@ + attributes] + y,
            from,
        ) == Some("book_hash3_id"@ + value),
        registration(x + seq!["book_hash3_id"@ + value] + y, from) == Some(
            "book_hash3_id"@ + value,
        ),
        registration(x, from) is None,
    decreases x.len() - from,
{
    reveal_strlit("book_hash3_id");
    reveal_strlit(";");
    let cookie = "book_hash3_id"@ + value;
    let line = cookie + ";"@ + attributes;
    let all = x + seq![line] + y;
    let bare = x + seq![cookie] + y;
    if from < x.len() {
        assert(all[from] == x[from] && bare[from] == x[from]);
        law_registration_is_the_first(x, value, attributes, y, from + 1);
    } else {
        assert(all[from] == line && bare[from] == cookie);
        assert(line.subrange(0, 13) =~= "book_hash3_id"@);
        assert(cookie.subrange(0, 13) =~= "book_hash3_id"@);
        assert forall|k: int| 0 <= k < cookie.len() implies cookie[k] != ';' by {
            if k >= 13 {
                assert(cookie[k] == value[k - 13]);
                assert(value.contains(value[k - 13]));
            }
        }
        lemma_find_first_char(cookie, ";"@, attributes);
        assert(line.take(cookie.len() as int) =~= cookie);
    }
}

/// A page of the site leads to the link whose text asks for the download, else to that of
/// the button, exactly as it stands there. A page that speaks of the daily limit, or that
/// shows no link, is an error.
pub proof fn law_page_leads_to_its_link(
    resp: Response,
    body: Vec<u8>,
    text: Seq<char>,
    url: Seq<char>,
)
    requires
        resp.status == 200,
        resp.body == Some(body),
        body@ == encode_utf8(text),
    ensures
        ({
            let limited = find(text, "Daily limit reached"@) is Some || find(
                text,
                "download-limits-error"@,
            ) is Some;
            let labelled = first_group(LINK_PATTERN@, text);
            let button = first_group(BUTTON_PATTERN@, text);
            let step = origin_step(resp, url);
            &&& limited ==> step == Err::<(Seq<char>, Option<Seq<char>>), Seq<char>>(
                "HTTP 200: Daily limit reached（本书需账号登录或已达每日下载限制）"@,
            )
            &&& !limited ==> (labelled matches Some(u) ==> step == Ok::<
                (Seq<char>, Option<Seq<char>>),
                Seq<char>,
            >((u, None)))
            &&& !limited && labelled is None ==> (button matches Some(u) ==> step == Ok::<
                (Seq<char>, Option<Seq<char>>),
                Seq<char>,
            >((u, None)))
            &&& !limited && labelled is None && button is None ==> step == Err::<
                (Seq<char>, Option<Seq<char>>),
                Seq<char>,
            >("HTTP 200 但无法从页面解析下载链接 (URL="@ + url + ")"@)
        }),
{
    law_body_is_read_as_sent(body, text);
}

/// Any other answer of the site is an error that names its status.
pub proof fn law_other_answers_are_errors(resp: Response, url: Seq<char>)
    requires
        100 <= resp.status < 1000,
        resp.status != 200,
        resp.status != 204,
        resp.status < 300 || resp.status >= 400,
    ensures
        origin_step(resp, url) == Err::<(Seq<char>, Option<Seq<char>>), Seq<char>>(
            "origin 请求失败 HTTP "@ + decimal(resp.status as nat),
        ),
{
}

/// A registration is answered by the same request with the cookie of the registration; one
/// that brings no such cookie is an error.
pub proof fn law_registration_is_answered(resp: Response, url: Seq<char>, cookie: Seq<char>)
    requires
        resp.status == 204,
    ensures
        ({
            let lines = visible_texts(all_values(header_entries(resp.headers), "set-cookie"@));
            &&& registration(lines, 0) == Some(cookie) ==> origin_step(resp, url) == Ok::<
                (Seq<char>, Option<Seq<char>>),
                Seq<char>,
            >((url, Some(cookie)))
            &&& registration(lines, 0) is None ==> origin_step(resp, url) == Err::<
                (Seq<char>, Option<Seq<char>>),
                Seq<char>,
            >("HTTP 204: 服务端未下发 book_hash3_id (URL="@ + url + ")"@)
        }),
{
}

/// A download is asked for with the account that is given, else with the first of the pool,
/// and in either case with that account's own id and key.
pub proof fn law_download_uses_the_account(
    account: (Seq<char>, Seq<char>),
    first: LoginResult,
    others: Seq<LoginResult>,
)
    ensures
        download_account(Some(account), seq![first] + others) == Some(account),
        download_account(Some(account), seq![]) == Some(account),
        download_account(None, seq![first] + others) == Some(
            (first.remix_userid@, first.remix_userkey@),
        ),
        download_account(None, seq![]) is None,
{
}

/// The cookie of a download holds the id and the key of its account as they are, each under
/// its own name.
pub proof fn law_download_cookie_names_the_account(
    jar: CookiesView,
    uid: Seq<char>,
    ukey: Seq<char>,
)
    requires
        is_clean_jar(jar),
        is_whole(uid),
        is_whole(ukey),
    ensures
        split(download_cookie(jar, Some((uid, ukey))), "; "@) == split(jar.text(), "; "@) + seq![
            "remix_userid="@ + uid,
            "remix_userkey="@ + ukey,
            "selectedSiteMode=books"@,
        ],
        split(download_cookie(jar, None), "; "@) == split(jar.text(), "; "@) + seq![
            "selectedSiteMode=books"@,
        ],
{
    law_download_cookie_carries_challenge_and_account(jar, Some((uid, ukey)));
    law_download_cookie_carries_challenge_and_account(jar, None);
    assert(split(jar.text(), "; "@) + account_parts(Some((uid, ukey))) + seq![
        "selectedSiteMode=books"@,
    ] =~= split(jar.text(), "; "@) + seq![
        "remix_userid="@ + uid,
        "remix_userkey="@ + ukey,
        "selectedSiteMode=books"@,
    ]);
    assert(split(jar.text(), "; "@) + account_parts(None) + seq!["selectedSiteMode=books"@]
        =~= split(jar.text(), "; "@) + seq!["selectedSiteMode=books"@]);
}

/// The cookie of a registration is carried behind all others, as it is.
pub proof fn law_registration_goes_behind_the_cookie(cookie: Seq<char>, extra: Seq<char>)
    requires
        is_whole(extra),
    ensures
        split(full_cookie(cookie, Some(extra)), "; "@) == split(cookie, "; "@) + seq![extra],
        full_cookie(cookie, None) == cookie,
{
    reveal_strlit("; ");
    lemma_unbordered("; "@);
    law_split_of_append(cookie, "; "@, extra);
}

/// A step is seen as its URL and its cookie, and an error as its message.
pub proof fn law_step_is_seen_as_it_is(step: StepState, error: String)
    ensures
        step_view(Ok(step)) == Ok::<(Seq<char>, Option<Seq<char>>), Seq<char>>(
            (step.next_url@, opt_view(step.extra_cookie)),
        ),
        step_view(Err(error)) == Err::<(Seq<char>, Option<Seq<char>>), Seq<char>>(error@),
{
}

/// A text without a scheme has no host, and does not belong to the site.
pub proof fn law_no_host_without_a_scheme(url: Seq<char>)
    requires
        !occurs_at(url, "https://"@, 0),
        !occurs_at(url, "http://"@, 0),
    ensures
        host_part(url) is None,
        judged_host(url).len() == 0,
        !is_origin(url),
{
    reveal_strlit("z-library.sk");
    assert(ORIGIN_DOMAIN@.len() == 12);
}

/// A link asks for the download in one of four words behind its tag, and a button is a link
/// of the class `dlButton`; both are taken only where they name a scheme.
pub proof fn law_what_counts_as_a_link()
    ensures
        LINK_PATTERN@ == r#"href="(https?://[^"]+)"[^>]*>\s*(?:Download|下载|GET|get)\b"#@,
        BUTTON_PATTERN@ == r#"<a[^>]+href="(https?://[^"]+)"[^>]*class="[^"]*dlButton[^"]*""#@,
{
}

/// Five answers are followed up, and the sixth is not.
pub proof fn law_sixth_answer_is_the_last(answers: nat, d: Download)
    ensures
        answers <= 5 <==> !is_given_up(answers),
        d.wf() <==> !is_given_up(d.attempt as nat),
{
}

} // verus!
