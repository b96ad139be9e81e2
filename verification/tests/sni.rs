use http::{HeaderMap, HeaderValue};
use rlibrary_core::client::challenge::{solve, ChallengeCookies};
use rlibrary_core::client::ip::Ipv4;
use rlibrary_core::client::sni::{
    answer_challenge, pick_address, plan_route, request_failure, resolve_url, send_with_auto_retry, send_with_redirect,
    settle_location, Hop, Method, RedirectStep, Response, Retry, RetryAction, Route, SniBypassClient, ORIGIN_DOMAIN, SNI_DOMAIN,
};
use rlibrary_core::link::LinkError;

fn headers(list: &[(&'static str, &str)]) -> HeaderMap {
    let mut m = HeaderMap::new();
    for (k, v) in list {
        m.append(*k, HeaderValue::from_str(v).unwrap());
    }
    m
}

fn response(status: u16, body: &str) -> Response {
    Response {
        status,
        headers: HeaderMap::new(),
        body: Some(body.as_bytes().to_vec()),
        url: "https://z-library.sk/".to_string(),
    }
}

fn hop(method: Method, remaining: u32, list: &[(&'static str, &str)]) -> Hop {
    Hop {
        url: "https://z-library.sk/a/b".to_string(),
        method,
        headers: headers(list),
        body: Some(b"form".to_vec()),
        remaining,
    }
}

fn follow(step: RedirectStep) -> Hop {
    match step {
        RedirectStep::Follow(h) => h,
        RedirectStep::Done(_) => panic!("not followed"),
    }
}

fn done(step: RedirectStep) -> Response {
    match step {
        RedirectStep::Done(r) => r,
        RedirectStep::Follow(_) => panic!("followed"),
    }
}

const CHALLENGE: &str =
    "const a0_0x2a54=['x','y','2Bcd'];_0x4457dc(++_0x2a548e);}(a0_0x2a54,0x0));";

#[test]
fn a_body_can_be_taken_once() {
    let mut r = response(200, "héllo");
    assert_eq!(r.status(), 200);
    assert_eq!(r.url(), "https://z-library.sk/");
    assert!(r.headers().is_empty());
    assert_eq!(r.text(), Ok("héllo".to_string()));
    assert_eq!(r.text(), Err("响应体已被消费".to_string()));
    assert_eq!(r.bytes(), Err("响应体已被消费".to_string()));
    let mut raw = response(200, "abc");
    assert_eq!(raw.bytes(), Ok(b"abc".to_vec()));
    let mut bad = response(200, "");
    bad.body = Some(vec![b'a', 0xff]);
    let e = String::from_utf8(vec![b'a', 0xff]).unwrap_err();
    assert_eq!(bad.text(), Err(format!("UTF-8 解码失败: {e}")));
}

#[test]
fn numbers_that_are_no_status_count_as_internal_errors() {
    assert_eq!(response(99, "").status(), 500);
    assert_eq!(response(1000, "").status(), 500);
    assert_eq!(response(100, "").status(), 100);
    assert_eq!(response(999, "").status(), 999);
}

#[test]
fn requests_are_built() {
    let client = SniBypassClient { inner: 7u8 };
    let r = client.get("https://z-library.sk/x");
    assert!(r.method == Method::Get && r.url == "https://z-library.sk/x" && r.body.is_none() && r.client == 7);
    assert_eq!(r.max_redirect, 10);
    let r = r.header_str("X-Thing", "one").header_str("x-thing", "two").header("accept", "a");
    assert_eq!(r.headers.get_all("x-thing").iter().count(), 1);
    assert_eq!(r.headers.get("x-thing").unwrap(), "two");
    // Names and values that are not allowed change nothing.
    let r = r.header_str("bad name", "v").header_str("good", "bad\nvalue").header("accept", "b\u{7f}");
    assert_eq!(r.headers.len(), 2);
    assert_eq!(r.headers.get("accept").unwrap(), "a");
    let r = r.header_str("wide", "é");
    assert_eq!(r.headers.get("wide").unwrap().as_bytes(), "é".as_bytes());
    let r = r.body(b"x".to_vec()).max_redirect(3);
    assert_eq!(r.body.as_deref(), Some(&b"x"[..]));
    assert_eq!(r.max_redirect, 3);
    assert!(client.post("u").method == Method::Post);
}

#[test]
fn header_names_are_lowered_up_to_their_limit() {
    let client = SniBypassClient { inner: () };
    let long = "A".repeat(65535);
    let r = client.get("u").header_str(&long, "1");
    assert_eq!(r.headers.get(&"a".repeat(65535)).unwrap(), "1");
    assert_eq!(client.get("u").header_str(&"a".repeat(65536), "1").headers.len(), 0);
    assert_eq!(client.get("u").header_str("", "1").headers.len(), 0);
    assert_eq!(client.get("u").header_str("a^_`|~!#$%&'*+-.9", "1").headers.len(), 1);
    for bad in ["a b", "a:b", "a\"b", "a(b", "a,b", "a/b", "a;b", "a=b", "a@b", "a{b", "é"] {
        assert_eq!(client.get("u").header_str(bad, "1").headers.len(), 0, "{bad:?}");
    }
}

#[test]
fn a_cookie_fits_among_all_but_thousands_of_headers() {
    let client = SniBypassClient { inner: () };
    assert!(client.get("u").takes_cookie());
    let mut full = client.get("u");
    for i in 0..6553 {
        full = full.header_str(&format!("x-{i}"), "1");
    }
    assert!(!full.takes_cookie());
    let mut with_cookie = client.get("u").header_str("Cookie", "a=b");
    for i in 0..6552 {
        with_cookie = with_cookie.header_str(&format!("x-{i}"), "1");
    }
    assert_eq!(with_cookie.headers.keys_len(), 6553);
    assert!(with_cookie.takes_cookie());
}

#[test]
fn forms_are_encoded() {
    let client = SniBypassClient { inner: () };
    let pair = |k: &str, v: &str| (k.to_string(), v.to_string());
    let r = client.post("u").form(&vec![pair("e mail", "a+b@c.d"), pair("k*-._", "é~/"), pair("", "")]);
    assert_eq!(r.body.unwrap(), b"e+mail=a%2Bb%40c.d&k*-._=%C3%A9%7E%2F&=".to_vec());
    assert_eq!(r.headers.get("content-type").unwrap(), "application/x-www-form-urlencoded; charset=UTF-8");
    assert_eq!(client.post("u").form(&Vec::new()).body, Some(Vec::new()));
}

#[test]
fn locations_are_resolved() {
    let base = "https://z-library.sk/a/b?x=1";
    assert_eq!(resolve_url(base, "https://other.org/q"), "https://other.org/q");
    assert_eq!(resolve_url(base, "http://other.org"), "http://other.org");
    assert_eq!(resolve_url(base, "/c"), "https://z-library.sk/c");
    assert_eq!(resolve_url(base, "c"), "https://z-library.sk/a/c");
    assert_eq!(resolve_url(base, "//cdn.net/f"), "https://cdn.net/f");
    assert_eq!(resolve_url("not a url//", "//c"), "not a url/c");
}

#[test]
fn a_location_that_does_not_resolve_is_put_behind_the_base() {
    let failed = || Err(LinkError::Base("no base".to_string()));
    assert_eq!(settle_location("b//", "//l/", failed()), "b/l/");
    assert_eq!(settle_location("", "", failed()), "/");
    assert_eq!(settle_location("b", "l", Err(LinkError::Reference("no".to_string()))), "b/l");
    assert_eq!(settle_location("b", "l", Ok("https://x/".to_string())), "https://x/");
}

#[test]
fn the_host_comes_from_the_url_unless_it_is_given() {
    let out = hop(Method::Post, 1, &[("accept", "x")]).outgoing();
    assert_eq!(out.host.as_deref(), Some("z-library.sk"));
    assert_eq!(out.body, b"form".to_vec());
    assert_eq!(out.url, "https://z-library.sk/a/b");
    assert_eq!(out.headers.get("accept").unwrap(), "x");
    assert!(out.method == Method::Post);
    assert_eq!(hop(Method::Get, 1, &[("host", "h")]).outgoing().host, None);
    let mut odd = hop(Method::Get, 1, &[]);
    odd.url = "no url".to_string();
    odd.body = None;
    assert_eq!(odd.outgoing().host, None);
    assert!(odd.outgoing().body.is_empty());
}

#[test]
fn redirects_are_followed() {
    let reply = headers(&[("location", "/next"), ("set-cookie", "sid=9; Path=/"), ("set-cookie", "t=1")]);
    let next = follow(send_with_redirect(hop(Method::Post, 2, &[("cookie", "a=b")]), 302, reply, Vec::new()));
    assert_eq!(next.url, "https://z-library.sk/next");
    assert!(next.method == Method::Get && next.body.is_none());
    assert_eq!(next.remaining, 1);
    assert_eq!(next.headers.get("cookie").unwrap(), "a=b; sid=9; t=1");

    let next = follow(send_with_redirect(hop(Method::Post, 1, &[]), 307, headers(&[("location", "n")]), Vec::new()));
    assert!(next.method == Method::Post);
    assert_eq!(next.body.as_deref(), Some(&b"form"[..]));
    assert_eq!(next.remaining, 0);
    assert!(next.headers.get("cookie").is_none());

    let next = follow(send_with_redirect(
        hop(Method::Get, 1, &[]),
        308,
        headers(&[("location", "n"), ("set-cookie", "only=1; x")]),
        Vec::new(),
    ));
    assert!(next.body.is_none());
    assert_eq!(next.headers.get("cookie").unwrap(), "only=1");
}

#[test]
fn redirects_end() {
    let end = done(send_with_redirect(hop(Method::Get, 0, &[]), 302, headers(&[("location", "/n")]), b"b".to_vec()));
    assert_eq!(end.status, 302);
    assert_eq!(end.url, "https://z-library.sk/a/b");
    assert_eq!(end.body.as_deref(), Some(&b"b"[..]));
    assert!(end.headers.contains_key("location"));
    assert_eq!(done(send_with_redirect(hop(Method::Get, 5, &[]), 200, headers(&[]), Vec::new())).status, 200);
    // A location that cannot be shown is not followed.
    let mut odd = HeaderMap::new();
    odd.insert("location", HeaderValue::from_bytes(&[0xff]).unwrap());
    assert_eq!(done(send_with_redirect(hop(Method::Get, 5, &[]), 302, odd, Vec::new())).status, 302);
    // Any status that names a location is.
    follow(send_with_redirect(hop(Method::Get, 5, &[]), 201, headers(&[("location", "/n")]), Vec::new()));
}

#[test]
fn a_chain_of_redirects_is_bounded() {
    let mut step = RedirectStep::Follow(hop(Method::Get, 4, &[]));
    let mut sent = 0;
    while let RedirectStep::Follow(h) = step {
        sent += 1;
        step = send_with_redirect(h, 302, headers(&[("location", "/again")]), Vec::new());
    }
    assert_eq!(sent, 5);
}

#[test]
fn a_bad_gateway_is_retried_once() {
    let client = SniBypassClient { inner: () };
    let mut retry = Retry::new(client.get("https://z-library.sk/"));
    assert!(matches!(send_with_auto_retry(&mut retry, &response(502, "")), RetryAction::RefreshIp));
    assert!(matches!(send_with_auto_retry(&mut retry, &response(502, "")), RetryAction::Finish));
    assert!(matches!(send_with_auto_retry(&mut retry, &response(200, "")), RetryAction::Finish));
    assert!(matches!(send_with_auto_retry(&mut retry, &response(404, CHALLENGE)), RetryAction::Finish));
}

#[test]
fn a_challenge_is_answered_once() {
    let client = SniBypassClient { inner: () };
    let request = client
        .get("https://z-library.sk/")
        .header_str("Cookie", "c_token=old; remix_userid=5; selectedSiteMode=books");
    let mut retry = Retry::new(request);
    let mut jar = ChallengeCookies::new();
    assert!(matches!(send_with_auto_retry(&mut retry, &response(503, "no challenge")), RetryAction::Finish));
    let c = match send_with_auto_retry(&mut retry, &response(503, CHALLENGE)) {
        RetryAction::Solve(c) => c,
        _ => panic!("no challenge"),
    };
    assert_eq!(c.token, "2Bcd");
    assert_eq!(c.check_offset, 2);
    let solution = solve(&c).unwrap();
    answer_challenge(&mut retry, &mut jar, &c, solution, 1500);
    assert_eq!(jar.cookie_str(), format!("c_token=2Bcd{solution}; c_time=1.500"));
    assert_eq!(
        retry.headers.get("cookie").unwrap(),
        &format!("remix_userid=5; selectedSiteMode=books; c_token=2Bcd{solution}; c_time=1.500")
    );
    assert_eq!(retry.first_hop().headers.get("cookie"), retry.headers.get("cookie"));
    assert_eq!(retry.first_hop().remaining, 10);
    assert!(matches!(send_with_auto_retry(&mut retry, &response(503, CHALLENGE)), RetryAction::Finish));
    assert!(matches!(send_with_auto_retry(&mut retry, &response(502, "")), RetryAction::RefreshIp));
}

#[test]
fn a_challenge_is_found_in_bytes_that_are_no_text() {
    let client = SniBypassClient { inner: () };
    let mut retry = Retry::new(client.get("https://z-library.sk/"));
    let mut r = response(503, CHALLENGE);
    r.body.as_mut().unwrap().insert(0, 0xff);
    assert!(matches!(send_with_auto_retry(&mut retry, &r), RetryAction::Solve(_)));
    let mut empty = Retry::new(client.get("https://z-library.sk/"));
    r.body = None;
    assert!(matches!(send_with_auto_retry(&mut empty, &r), RetryAction::Finish));
}

#[test]
fn connections_are_planned() {
    assert!(matches!(plan_route(Some(ORIGIN_DOMAIN), None), Ok(Route::Origin { port: 443 })));
    assert!(matches!(plan_route(Some("z-library.sk"), Some(8443)), Ok(Route::Origin { port: 8443 })));
    match plan_route(Some("cdn.net"), Some(80)) {
        Ok(Route::Lookup { query, port }) => assert!(query == "cdn.net:80" && port == 80),
        _ => panic!("no lookup"),
    }
    assert_eq!(plan_route(None, Some(1)).unwrap_err(), "URI 缺少 host");
    assert_eq!(SNI_DOMAIN, "eliorfoy");
    let v4 = Ipv4 { a: 1, b: 2, c: 3, d: 4 };
    assert_eq!(pick_address("h", &vec![None, Some(v4), None]), Ok(v4));
    assert_eq!(pick_address("h", &vec![None]), Err("无法解析 h".to_string()));
}

#[test]
fn failures_name_their_causes() {
    assert_eq!(request_failure("top", &Vec::new()), "请求失败: top");
    assert_eq!(
        request_failure("top", &vec!["a".to_string(), "b".to_string()]),
        "请求失败: top\n  原因: a\n  原因: b"
    );
}
