//! Logging in: the request, and what the site's answer says.

use vstd::prelude::*;
use vstd::utf8::encode_utf8;

use crate::apis::search::{build_cookie, plain_cookie};
use crate::client::challenge::ChallengeCookies;
use crate::client::sni::{
    body_text, cookie_fits, effective_status, law_body_is_read_as_sent, lemma_few_headers_fit,
    Method, RequestBuilder, Response, SniBypassClient, FORM_TYPE, ORIGIN_DOMAIN,
};
use crate::form::form_text;
use crate::headers::{lemma_put_all_len, put, put_all, HeaderTable};
use crate::json::{find_member, json_value, law_member_is_found, member, parse_json, Json, JsonView};
use crate::models::account::LoginResult;
use crate::number::{decimal, decimal_int, push_decimal, signed_text};
use crate::text::{concat, opt_view, pair_views, text_pair};

verus! {

// ---------------------------------------------------------------------------
// The request
// ---------------------------------------------------------------------------

/// The address of the site.
pub open spec fn site_origin() -> Seq<char> {
    "https://"@ + ORIGIN_DOMAIN@
}

/// The headers of a login, in the order in which they are set.
pub open spec fn login_headers(cookie: Seq<char>) -> Seq<(Seq<char>, Seq<char>)> {
    seq![
        ("Host"@, ORIGIN_DOMAIN@),
        ("Cookie"@, cookie),
        (
            "User-Agent"@,
            "Mozilla/5.0 (Windows NT 10.0; Win64; x64) AppleWebKit/537.36 (KHTML, like Gecko) Chrome/145.0.0.0 Safari/537.36 Edg/145.0.0.0"@,
        ),
        ("Accept"@, "application/json, text/javascript, */*; q=0.01"@),
        ("Accept-Language"@, "zh-CN,zh;q=0.9,en;q=0.8,en-GB;q=0.7,en-US;q=0.6"@),
        ("Origin"@, site_origin()),
        ("Referer"@, site_origin() + "/"@),
        (
            "sec-ch-ua"@,
            r#""Not:A-Brand";v="99", "Microsoft Edge";v="145", "Chromium";v="145""#@,
        ),
        ("sec-ch-ua-mobile"@, "?0"@),
        ("sec-ch-ua-platform"@, r#""Windows""#@),
        ("cache-control"@, "no-cache"@),
        ("pragma"@, "no-cache"@),
        ("priority"@, "u=1, i"@),
        ("sec-fetch-dest"@, "empty"@),
        ("sec-fetch-mode"@, "cors"@),
        ("sec-fetch-site"@, "same-origin"@),
        ("x-requested-with"@, "XMLHttpRequest"@),
    ]
}

/// The fields of the login form.
pub open spec fn login_fields(email: Seq<char>, password: Seq<char>) -> Seq<
    (Seq<char>, Seq<char>),
> {
    seq![
        ("isModal"@, "true"@),
        ("email"@, email),
        ("password"@, password),
        ("site_mode"@, "books"@),
        ("action"@, "login"@),
        ("redirectUrl"@, site_origin() + "/"@),
        ("gg_json_mode"@, "1"@),
    ]
}

/// The address of the site, with the given path behind it.
fn site(path: &str) -> (r: String)
    ensures
        r@ == site_origin() + path@,
{
    let mut out = concat("https://", ORIGIN_DOMAIN);
    out.append(path);
    out
}

/// The headers of a login.
fn header_list(cookie: &str) -> (r: Vec<(String, String)>)
    ensures
        pair_views(r@) == login_headers(cookie@),
{
    proof {
        reveal_strlit("");
    }
    let origin = site("");
    let referer = site("/");
    assert(origin@ =~= site_origin());
    let mut list: Vec<(String, String)> = Vec::new();
    list.push(text_pair("Host", ORIGIN_DOMAIN));
    list.push(text_pair("Cookie", cookie));
    list.push(
        text_pair(
            "User-Agent",
            "Mozilla/5.0 (Windows NT 10.0; Win64; x64) AppleWebKit/537.36 (KHTML, like Gecko) Chrome/145.0.0.0 Safari/537.36 Edg/145.0.0.0",
        ),
    );
    list.push(text_pair("Accept", "application/json, text/javascript, */*; q=0.01"));
    list.push(text_pair("Accept-Language", "zh-CN,zh;q=0.9,en;q=0.8,en-GB;q=0.7,en-US;q=0.6"));
    list.push(text_pair("Origin", origin.as_str()));
    list.push(text_pair("Referer", referer.as_str()));
    list.push(
        text_pair(
            "sec-ch-ua",
            r#""Not:A-Brand";v="99", "Microsoft Edge";v="145", "Chromium";v="145""#,
        ),
    );
    list.push(text_pair("sec-ch-ua-mobile", "?0"));
    list.push(text_pair("sec-ch-ua-platform", r#""Windows""#));
    list.push(text_pair("cache-control", "no-cache"));
    list.push(text_pair("pragma", "no-cache"));
    list.push(text_pair("priority", "u=1, i"));
    list.push(text_pair("sec-fetch-dest", "empty"));
    list.push(text_pair("sec-fetch-mode", "cors"));
    list.push(text_pair("sec-fetch-site", "same-origin"));
    list.push(text_pair("x-requested-with", "XMLHttpRequest"));
    assert(pair_views(list@) =~= login_headers(cookie@));
    list
}

/// The fields of the login form.
fn field_list(email: &str, password: &str) -> (r: Vec<(String, String)>)
    ensures
        pair_views(r@) == login_fields(email@, password@),
{
    let referer = site("/");
    let mut list: Vec<(String, String)> = Vec::new();
    list.push(text_pair("isModal", "true"));
    list.push(text_pair("email", email));
    list.push(text_pair("password", password));
    list.push(text_pair("site_mode", "books"));
    list.push(text_pair("action", "login"));
    list.push(text_pair("redirectUrl", referer.as_str()));
    list.push(text_pair("gg_json_mode", "1"));
    assert(pair_views(list@) =~= login_fields(email@, password@));
    list
}

/// The request of a login.
pub fn login_request<C: Clone>(
    client: &SniBypassClient<C>,
    jar: &ChallengeCookies,
    email: &str,
    password: &str,
) -> (r: RequestBuilder<C>)
    ensures
        r.method == Method::Post,
        r.url@ == site_origin() + "/rpc.php"@,
        r.table() == put(
            put_all(HeaderTable::empty(), login_headers(plain_cookie(jar@))),
            "content-type"@,
            FORM_TYPE@,
        ),
        r.body matches Some(b) && b@ == encode_utf8(form_text(login_fields(email@, password@))),
        r.max_redirect == 10,
        cookie_fits(r.table()),
        cloned(client.inner, r.client),
{
    let url = site("/rpc.php");
    let cookie = build_cookie(jar);
    let list = header_list(cookie.as_str());
    let ghost all = pair_views(list@);
    let ghost none = HeaderTable::empty();
    let mut request = client.post(url.as_str());
    let ghost first = request;
    assert(all.len() == list@.len());
    let mut i: usize = 0;
    while i < list.len()
        invariant
            i <= list@.len(),
            list@.len() == 17,
            none == HeaderTable::empty(),
            all == pair_views(list@),
            request.table() == put_all(none, all.take(i as int)),
            request.body == first.body,
            request.differs_in_content(first),
        decreases list@.len() - i,
    {
        proof {
            lemma_put_all_len(none, all.take(i as int));
            assert(all.take(i + 1).drop_last() =~= all.take(i as int));
            assert(all.take(i + 1).last() == (list@[i as int].0@, list@[i as int].1@));
        }
        request = request.header_str(list[i].0.as_str(), list[i].1.as_str());
        i += 1;
    }
    proof {
        assert(all.take(all.len() as int) =~= all);
        lemma_put_all_len(none, all);
    }
    let fields = field_list(email, password);
    proof {
        let more = all.push(("content-type"@, FORM_TYPE@));
        assert(more.drop_last() =~= all);
        lemma_put_all_len(none, more);
        lemma_few_headers_fit(put_all(none, more));
    }
    request.form(&fields)
}

// ---------------------------------------------------------------------------
// The answer
// ---------------------------------------------------------------------------

/// What an answer says, as far as a login looks at it.
pub struct LoginReply {
    pub validation_error: Option<bool>,
    pub message: Option<String>,
    pub user_id: Option<i64>,
    pub user_key: Option<String>,
    pub user_name: Option<String>,
}

/// The model of a `LoginReply`.
pub struct ReplyView {
    pub validation_error: Option<bool>,
    pub message: Option<Seq<char>>,
    pub user_id: Option<i64>,
    pub user_key: Option<Seq<char>>,
    pub user_name: Option<Seq<char>>,
}

impl View for LoginReply {
    type V = ReplyView;

    open spec fn view(&self) -> ReplyView {
        ReplyView {
            validation_error: self.validation_error,
            message: opt_view(self.message),
            user_id: self.user_id,
            user_key: opt_view(self.user_key),
            user_name: opt_view(self.user_name),
        }
    }
}

/// The texts of a login that succeeded.
pub struct LoginView {
    pub remix_userid: Seq<char>,
    pub remix_userkey: Seq<char>,
    pub username: Seq<char>,
    pub email: Seq<char>,
    pub password: Seq<char>,
}

/// The model of what a login reports.
pub open spec fn login_view(r: Result<LoginResult, String>) -> Result<LoginView, Seq<char>> {
    match r {
        Ok(a) => Ok(
            LoginView {
                remix_userid: a.remix_userid@,
                remix_userkey: a.remix_userkey@,
                username: a.username@,
                email: a.email@,
                password: a.password@,
            },
        ),
        Err(e) => Err(e@),
    }
}

/// The value of a member, where the object has it and its text can be read.
pub open spec fn member_value(v: JsonView, name: Seq<char>) -> Option<JsonView> {
    match member(v, name) {
        Some(t) => match json_value(t) {
            Ok(m) => Some(m),
            Err(_) => None,
        },
        None => None,
    }
}

/// A truth value, where the value is one.
pub open spec fn as_bool(v: Option<JsonView>) -> Option<bool> {
    match v {
        Some(JsonView::Bool(b)) => Some(b),
        _ => None,
    }
}

/// An integer, where the value is one that fits.
pub open spec fn as_int(v: Option<JsonView>) -> Option<i64> {
    match v {
        Some(JsonView::Int(i)) => Some(i),
        _ => None,
    }
}

/// A text, where the value is one.
pub open spec fn as_text(v: Option<JsonView>) -> Option<Seq<char>> {
    match v {
        Some(JsonView::Text(s)) => Some(s),
        _ => None,
    }
}

/// What the `response` of an answer says.
pub open spec fn reply_of(v: JsonView) -> ReplyView {
    ReplyView {
        validation_error: as_bool(member_value(v, "validationError"@)),
        message: as_text(member_value(v, "message"@)),
        user_id: as_int(member_value(v, "user_id"@)),
        user_key: as_text(member_value(v, "user_key"@)),
        user_name: as_text(member_value(v, "user_name"@)),
    }
}

/// What a login reports, given what the answer says. A refusal is reported in the words of
/// the site, or in words of its own where the site gives none.
pub open spec fn granted(
    reply: ReplyView,
    email: Seq<char>,
    password: Seq<char>,
) -> Result<LoginView, Seq<char>> {
    if reply.validation_error == Some(true) {
        Err(
            match reply.message {
                Some(m) => m,
                None => "登录失败: 未知错误"@,
            },
        )
    } else {
        match (reply.user_id, reply.user_key) {
            (Some(id), Some(key)) => Ok(
                LoginView {
                    remix_userid: decimal_int(id as int),
                    remix_userkey: key,
                    username: match reply.user_name {
                        Some(n) => n,
                        None => email,
                    },
                    email,
                    password,
                },
            ),
            (None, _) => Err("响应中没有 user_id"@),
            (Some(_), None) => Err("响应中没有 user_key"@),
        }
    }
}

/// What a login reports, given what was read of the text of the answer: the message of the
/// parser, or the `response` where the answer has one.
pub open spec fn settled(
    read: Result<Option<ReplyView>, Seq<char>>,
    body: Seq<char>,
    email: Seq<char>,
    password: Seq<char>,
) -> Result<LoginView, Seq<char>> {
    match read {
        Ok(Some(reply)) => granted(reply, email, password),
        Ok(None) => Err("响应格式错误: "@ + body),
        Err(e) => Err("JSON 解析失败: "@ + e),
    }
}

/// What can be read of the text of an answer.
pub open spec fn reply_in(body: Seq<char>) -> Result<Option<ReplyView>, Seq<char>> {
    match json_value(body) {
        Ok(doc) => Ok(
            match member_value(doc, "response"@) {
                Some(response) => Some(reply_of(response)),
                None => None,
            },
        ),
        Err(e) => Err(e),
    }
}

/// What a login reports, given the text of the answer.
pub open spec fn answered(
    body: Seq<char>,
    email: Seq<char>,
    password: Seq<char>,
) -> Result<LoginView, Seq<char>> {
    settled(reply_in(body), body, email, password)
}

/// The model of what was read of an answer.
pub open spec fn read_view(read: Result<Option<LoginReply>, String>) -> Result<
    Option<ReplyView>,
    Seq<char>,
> {
    match read {
        Ok(Some(reply)) => Ok(Some(reply@)),
        Ok(None) => Ok(None),
        Err(e) => Err(e@),
    }
}

/// What a login reports, given the response to its request.
pub open spec fn login_report(
    resp: Response,
    email: Seq<char>,
    password: Seq<char>,
) -> Result<LoginView, Seq<char>> {
    let status = effective_status(resp.status);
    if status >= 400 {
        Err(
            "登录失败 HTTP "@ + decimal(status as nat) + ": "@ + (match body_text(resp.body) {
                Ok(body) => body,
                Err(_) => seq![],
            }),
        )
    } else {
        match body_text(resp.body) {
            Ok(body) => answered(body, email, password),
            Err(e) => Err("读取响应失败: "@ + e),
        }
    }
}

/// The value of a member, where the object has it and its text can be read.
fn value_of_member(v: &Json, name: &str) -> (r: Option<Json>)
    ensures
        match r {
            Some(m) => member_value(v@, name@) == Some(m@),
            None => member_value(v@, name@) is None,
        },
{
    match find_member(v, name) {
        Some(t) => match parse_json(t.as_str()) {
            Ok(m) => Some(m),
            Err(_) => None,
        },
        None => None,
    }
}

/// A text, where the member is one.
fn text_member(v: &Json, name: &str) -> (r: Option<String>)
    ensures
        opt_view(r) == as_text(member_value(v@, name@)),
{
    match value_of_member(v, name) {
        Some(Json::Text(s)) => Some(s),
        _ => None,
    }
}

/// Reads what the `response` of an answer says.
pub fn read_reply(response: &Json) -> (r: LoginReply)
    ensures
        r@ == reply_of(response@),
{
    let validation_error = match value_of_member(response, "validationError") {
        Some(Json::Bool(b)) => Some(b),
        _ => None,
    };
    let user_id = match value_of_member(response, "user_id") {
        Some(Json::Int(i)) => Some(i),
        _ => None,
    };
    LoginReply {
        validation_error,
        message: text_member(response, "message"),
        user_id,
        user_key: text_member(response, "user_key"),
        user_name: text_member(response, "user_name"),
    }
}

/// Decides about a login, given what the answer says.
pub fn grant(reply: LoginReply, email: &str, password: &str) -> (r: Result<LoginResult, String>)
    ensures
        login_view(r) == granted(reply@, email@, password@),
{
    if let Some(true) = reply.validation_error {
        return match reply.message {
            Some(m) => Err(m),
            None => Err("登录失败: 未知错误".to_string()),
        };
    }
    let id: i64 = match reply.user_id {
        Some(id) => id,
        None => {
            return Err("响应中没有 user_id".to_string());
        },
    };
    let key = match reply.user_key {
        Some(key) => key,
        None => {
            return Err("响应中没有 user_key".to_string());
        },
    };
    let name = match reply.user_name {
        Some(name) => name,
        None => email.to_string(),
    };
    Ok(
        LoginResult {
            remix_userid: signed_text(id),
            remix_userkey: key,
            username: name,
            email: email.to_string(),
            password: password.to_string(),
        },
    )
}

/// Decides about a login, given what was read of the text of the answer.
pub fn settle_answer(
    read: Result<Option<LoginReply>, String>,
    body: &str,
    email: &str,
    password: &str,
) -> (r: Result<LoginResult, String>)
    ensures
        login_view(r) == settled(read_view(read), body@, email@, password@),
{
    match read {
        Ok(Some(reply)) => grant(reply, email, password),
        Ok(None) => Err(concat("响应格式错误: ", body)),
        Err(e) => Err(concat("JSON 解析失败: ", e.as_str())),
    }
}

/// Reads the text of an answer.
pub fn read_answer(body: &str, email: &str, password: &str) -> (r: Result<LoginResult, String>)
    ensures
        login_view(r) == answered(body@, email@, password@),
{
    let read = match parse_json(body) {
        Ok(doc) => match value_of_member(&doc, "response") {
            Some(response) => Ok(Some(read_reply(&response))),
            None => Ok(None),
        },
        Err(e) => Err(e),
    };
    settle_answer(read, body, email, password)
}

/// What a login reports, given the response to its request.
pub fn login_outcome(resp: &mut Response, email: &str, password: &str) -> (r: Result<
    LoginResult,
    String,
>)
    ensures
        login_view(r) == login_report(*old(resp), email@, password@),
        *final(resp) == (Response { body: None, ..*old(resp) }),
{
    let status: u16 = resp.status();
    if status >= 400 {
        let body = match resp.text() {
            Ok(s) => s,
            Err(_) => String::new(),
        };
        let mut m = "登录失败 HTTP ".to_string();
        push_decimal(status as u64, &mut m);
        m.append(": ");
        m.append(body.as_str());
        return Err(m);
    }
    match resp.text() {
        Ok(body) => read_answer(body.as_str(), email, password),
        Err(e) => Err(concat("读取响应失败: ", e.as_str())),
    }
}

/// A login is sent with the given email and password as they are, each under its own name,
/// beside what the site's own form sends.
pub proof fn law_login_form(email: Seq<char>, password: Seq<char>)
    ensures
        login_fields(email, password).len() == 7,
        login_fields(email, password).contains(("email"@, email)),
        login_fields(email, password).contains(("password"@, password)),
        login_fields(email, password).contains(("isModal"@, "true"@)),
        login_fields(email, password).contains(("site_mode"@, "books"@)),
        login_fields(email, password).contains(("action"@, "login"@)),
        login_fields(email, password).contains(("redirectUrl"@, "https://z-library.sk/"@)),
        login_fields(email, password).contains(("gg_json_mode"@, "1"@)),
        site_origin() + "/rpc.php"@ == "https://z-library.sk/rpc.php"@,
{
    lemma_site_texts();
    let f = login_fields(email, password);
    assert(f[0] == ("isModal"@, "true"@));
    assert(f[1] == ("email"@, email));
    assert(f[2] == ("password"@, password));
    assert(f[3] == ("site_mode"@, "books"@));
    assert(f[4] == ("action"@, "login"@));
    assert(f[5] == ("redirectUrl"@, "https://z-library.sk/"@));
    assert(f[6] == ("gg_json_mode"@, "1"@));
}

/// The texts that name the site.
proof fn lemma_site_texts()
    ensures
        site_origin() == "https://z-library.sk"@,
        site_origin() + "/"@ == "https://z-library.sk/"@,
        site_origin() + "/rpc.php"@ == "https://z-library.sk/rpc.php"@,
{
    reveal_strlit("https://");
    reveal_strlit("z-library.sk");
    reveal_strlit("/");
    reveal_strlit("/rpc.php");
    reveal_strlit("https://z-library.sk");
    reveal_strlit("https://z-library.sk/");
    reveal_strlit("https://z-library.sk/rpc.php");
    assert(site_origin() =~= "https://z-library.sk"@);
    assert(site_origin() + "/"@ =~= "https://z-library.sk/"@);
    assert(site_origin() + "/rpc.php"@ =~= "https://z-library.sk/rpc.php"@);
}

/// A login is sent with the cookie that is given to it, and with the headers of a browser that
/// is on a page of the site.
pub proof fn law_login_headers(cookie: Seq<char>)
    ensures
        login_headers(cookie) == seq![
            ("Host"@, "z-library.sk"@),
            ("Cookie"@, cookie),
            (
                "User-Agent"@,
                "Mozilla/5.0 (Windows NT 10.0; Win64; x64) AppleWebKit/537.36 (KHTML, like Gecko) Chrome/145.0.0.0 Safari/537.36 Edg/145.0.0.0"@,
            ),
            ("Accept"@, "application/json, text/javascript, */*; q=0.01"@),
            ("Accept-Language"@, "zh-CN,zh;q=0.9,en;q=0.8,en-GB;q=0.7,en-US;q=0.6"@),
            ("Origin"@, "https://z-library.sk"@),
            ("Referer"@, "https://z-library.sk/"@),
            (
                "sec-ch-ua"@,
                r#""Not:A-Brand";v="99", "Microsoft Edge";v="145", "Chromium";v="145""#@,
            ),
            ("sec-ch-ua-mobile"@, "?0"@),
            ("sec-ch-ua-platform"@, r#""Windows""#@),
            ("cache-control"@, "no-cache"@),
            ("pragma"@, "no-cache"@),
            ("priority"@, "u=1, i"@),
            ("sec-fetch-dest"@, "empty"@),
            ("sec-fetch-mode"@, "cors"@),
            ("sec-fetch-site"@, "same-origin"@),
            ("x-requested-with"@, "XMLHttpRequest"@),
        ],
{
    lemma_site_texts();
}

/// Each part of a reply is read from the member of its own name, with its whole value, and
/// from no other.
pub proof fn law_reply_is_read_by_name(v: JsonView, text: Seq<char>, id: i64, flag: bool)
    ensures
        member_value(v, "user_key"@) == Some(JsonView::Text(text)) ==> reply_of(v).user_key == Some(
            text,
        ),
        member_value(v, "user_name"@) == Some(JsonView::Text(text)) ==> reply_of(v).user_name
            == Some(text),
        member_value(v, "message"@) == Some(JsonView::Text(text)) ==> reply_of(v).message == Some(
            text,
        ),
        member_value(v, "user_id"@) == Some(JsonView::Int(id)) ==> reply_of(v).user_id == Some(id),
        member_value(v, "validationError"@) == Some(JsonView::Bool(flag)) ==> reply_of(
            v,
        ).validation_error == Some(flag),
        !(member_value(v, "user_key"@) matches Some(JsonView::Text(_))) ==> reply_of(v).user_key
            is None,
        !(member_value(v, "user_name"@) matches Some(JsonView::Text(_))) ==> reply_of(v).user_name
            is None,
        !(member_value(v, "message"@) matches Some(JsonView::Text(_))) ==> reply_of(v).message
            is None,
        !(member_value(v, "user_id"@) matches Some(JsonView::Int(_))) ==> reply_of(v).user_id
            is None,
        !(member_value(v, "validationError"@) matches Some(JsonView::Bool(_))) ==> reply_of(
            v,
        ).validation_error is None,
{
}

/// The value of a member is what its text stands for.
pub proof fn law_member_value(
    x: Seq<(Seq<char>, Seq<char>)>,
    name: Seq<char>,
    text: Seq<char>,
    y: Seq<(Seq<char>, Seq<char>)>,
    value: JsonView,
)
    requires
        forall|k: int| 0 <= k < x.len() ==> (#[trigger] x[k]).0 != name,
        json_value(text) == Ok::<JsonView, Seq<char>>(value),
    ensures
        member_value(JsonView::Object(x + seq![(name, text)] + y), name) == Some(value),
        member_value(JsonView::Object(x), name) is None,
{
    law_member_is_found(x, name, text, y);
}

/// A login that is not refused returns the id of the reply in decimal, its key and its name,
/// each whole and unchanged, and the email and the password that it was made with. A reply
/// without a name stands for the email; one without an id or a key is an error, and so is a
/// refusal, which is reported in the words of the site.
pub proof fn law_login_returns_what_the_reply_says(
    reply: ReplyView,
    id: i64,
    key: Seq<char>,
    name: Seq<char>,
    words: Seq<char>,
    email: Seq<char>,
    password: Seq<char>,
)
    ensures
        reply.validation_error != Some(true) && reply.user_id == Some(id) && reply.user_key == Some(
            key,
        ) ==> (granted(reply, email, password) matches Ok(a) && a.remix_userid == decimal_int(
            id as int,
        ) && a.remix_userkey == key && a.email == email && a.password == password && (
        reply.user_name == Some(name) ==> a.username == name) && (reply.user_name is None
            ==> a.username == email)),
        reply.validation_error != Some(true) && reply.user_id is None ==> granted(
            reply,
            email,
            password,
        ) == Err::<LoginView, Seq<char>>("响应中没有 user_id"@),
        reply.validation_error != Some(true) && reply.user_id is Some && reply.user_key is None
            ==> granted(reply, email, password) == Err::<LoginView, Seq<char>>(
            "响应中没有 user_key"@,
        ),
        reply.validation_error == Some(true) && reply.message == Some(words) ==> granted(
            reply,
            email,
            password,
        ) == Err::<LoginView, Seq<char>>(words),
        reply.validation_error == Some(true) && reply.message is None ==> granted(
            reply,
            email,
            password,
        ) == Err::<LoginView, Seq<char>>("登录失败: 未知错误"@),
{
}

/// Whether the text of an answer is an object with a `response`, which stands for the given
/// value.
pub open spec fn answers_with(text: Seq<char>, response: JsonView) -> bool {
    json_value(text) matches Ok(doc) && member_value(doc, "response"@) == Some(response)
}

/// A login to which the site answers with an id and a key returns exactly these, in decimal
/// and character for character, with the name that the answer gives.
pub proof fn law_login_returns_what_the_site_gave(
    resp: Response,
    body: Vec<u8>,
    text: Seq<char>,
    response: JsonView,
    id: i64,
    key: Seq<char>,
    name: Seq<char>,
    email: Seq<char>,
    password: Seq<char>,
)
    requires
        100 <= resp.status < 400,
        resp.body == Some(body),
        body@ == encode_utf8(text),
        answers_with(text, response),
        member_value(response, "validationError"@) != Some(JsonView::Bool(true)),
        member_value(response, "user_id"@) == Some(JsonView::Int(id)),
        member_value(response, "user_key"@) == Some(JsonView::Text(key)),
        member_value(response, "user_name"@) == Some(JsonView::Text(name)),
    ensures
        login_report(resp, email, password) == Ok::<LoginView, Seq<char>>(
            LoginView {
                remix_userid: decimal_int(id as int),
                remix_userkey: key,
                username: name,
                email,
                password,
            },
        ),
{
    law_body_is_read_as_sent(body, text);
}

/// What a login reports where the site's answer cannot be used: its status and text, the
/// message of the parser, or the text without a `response`.
pub proof fn law_login_reports_unusable_answers(
    resp: Response,
    body: Vec<u8>,
    text: Seq<char>,
    error: Seq<char>,
    email: Seq<char>,
    password: Seq<char>,
)
    requires
        100 <= resp.status < 1000,
        resp.body == Some(body),
        body@ == encode_utf8(text),
    ensures
        resp.status >= 400 ==> login_report(resp, email, password) == Err::<LoginView, Seq<char>>(
            "登录失败 HTTP "@ + decimal(resp.status as nat) + ": "@ + text,
        ),
        resp.status < 400 && json_value(text) == Err::<JsonView, Seq<char>>(error) ==> login_report(
            resp,
            email,
            password,
        ) == Err::<LoginView, Seq<char>>("JSON 解析失败: "@ + error),
        resp.status < 400 && (json_value(text) matches Ok(doc) && member_value(doc, "response"@)
            is None) ==> login_report(resp, email, password) == Err::<LoginView, Seq<char>>(
            "响应格式错误: "@ + text,
        ),
{
    law_body_is_read_as_sent(body, text);
}

/// An account, a reply and an error are seen field by field, each under its own name.
pub proof fn law_login_is_seen_field_by_field(a: LoginResult, reply: LoginReply, error: String)
    ensures
        login_view(Ok(a)) matches Ok(v) && v.remix_userid == a.remix_userid@ && v.remix_userkey
            == a.remix_userkey@ && v.username == a.username@ && v.email == a.email@ && v.password
            == a.password@,
        login_view(Err(error)) == Err::<LoginView, Seq<char>>(error@),
        reply@.validation_error == reply.validation_error,
        reply@.message == opt_view(reply.message),
        reply@.user_id == reply.user_id,
        reply@.user_key == opt_view(reply.user_key),
        reply@.user_name == opt_view(reply.user_name),
        read_view(Ok(Some(reply))) == Ok::<Option<ReplyView>, Seq<char>>(Some(reply@)),
        read_view(Ok(None)) == Ok::<Option<ReplyView>, Seq<char>>(None),
        read_view(Err(error)) == Err::<Option<ReplyView>, Seq<char>>(error@),
{
}

} // verus!
