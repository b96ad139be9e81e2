use http::{HeaderMap, HeaderValue};
use rlibrary_core::account::pool::{add_account, AccountPool};
use rlibrary_core::apis::download::{
    build_cookie, choose_link, classify_location, extract_download_link, extract_host, follow_origin_response, follow_page,
    settle_redirect, Download, DownloadStep, LocationKind, StepState,
};
use rlibrary_core::client::challenge::ChallengeCookies;
use rlibrary_core::client::sni::{Method, RequestBuilder, Response, SniBypassClient};
use rlibrary_core::link::LinkError;
use rlibrary_core::models::account::LoginResult;
use rlibrary_core::models::book::BookInfo;

const URL: &str = "https://z-library.sk/dl/x";

fn response(status: u16, list: &[(&'static str, &str)], body: &str) -> Response {
    let mut headers = HeaderMap::new();
    for (k, v) in list {
        headers.append(*k, HeaderValue::from_str(v).unwrap());
    }
    Response { status, headers, body: Some(body.as_bytes().to_vec()), url: URL.to_string() }
}

fn step(status: u16, list: &[(&'static str, &str)], body: &str) -> Result<StepState, String> {
    follow_origin_response(response(status, list, body), URL)
}

fn next_url(status: u16, list: &[(&'static str, &str)], body: &str) -> String {
    match step(status, list, body) {
        Ok(s) => {
            assert!(s.extra_cookie.is_none());
            s.next_url
        }
        Err(e) => panic!("{e}"),
    }
}

fn error(status: u16, list: &[(&'static str, &str)], body: &str) -> String {
    match step(status, list, body) {
        Ok(s) => panic!("{}", s.next_url),
        Err(e) => e,
    }
}

fn acct(id: &str) -> LoginResult {
    LoginResult {
        remix_userid: id.to_string(),
        remix_userkey: format!("k{id}"),
        username: String::new(),
        email: String::new(),
        password: String::new(),
    }
}

fn fetch(step: DownloadStep<()>) -> RequestBuilder<()> {
    match step {
        DownloadStep::Fetch(r) => r,
        DownloadStep::Resolved(u) => panic!("{u}"),
    }
}

fn book(url: &str) -> BookInfo {
    BookInfo { download_url: url.to_string(), ..BookInfo::default() }
}

#[test]
fn hosts() {
    assert_eq!(extract_host("https://a.b/c/d").as_deref(), Some("a.b"));
    assert_eq!(extract_host("http://a.b").as_deref(), Some("a.b"));
    assert_eq!(extract_host("https://"), Some(String::new()));
    assert_eq!(extract_host("ftp://a.b/"), None);
    assert_eq!(extract_host("/dl/x"), None);
}

#[test]
fn only_the_host_decides() {
    assert!(matches!(classify_location(URL), LocationKind::Origin));
    assert!(matches!(classify_location("http://z-library.sk"), LocationKind::Origin));
    for (url, host) in [
        ("https://dln1.ncdn.ec/z-library.sk.pdf", "dln1.ncdn.ec"),
        ("https://z-library.sk.evil.org/", "z-library.sk.evil.org"),
        ("https://z-library.sk:443/x", "z-library.sk:443"),
        ("/relative", ""),
    ] {
        match classify_location(url) {
            LocationKind::Cdn(h) => assert_eq!(h, host),
            LocationKind::Origin => panic!("{url}"),
        }
    }
}

#[test]
fn download_cookies() {
    let jar = ChallengeCookies::new();
    let mut pool = AccountPool::new();
    assert_eq!(build_cookie(&jar, None, &mut pool, Vec::new()), "; selectedSiteMode=books");
    assert_eq!(
        build_cookie(&jar, Some(("1", "k")), &mut pool, vec![Some(acct("9"))]),
        "; remix_userid=1; remix_userkey=k; selectedSiteMode=books"
    );
    assert!(pool.accounts.is_empty());
    let rows = vec![None, Some(acct("3")), Some(acct("4"))];
    assert_eq!(
        build_cookie(&jar, None, &mut pool, rows),
        "; remix_userid=3; remix_userkey=k3; selectedSiteMode=books"
    );
    assert_eq!(
        build_cookie(&jar, None, &mut pool, Vec::new()),
        "; remix_userid=4; remix_userkey=k4; selectedSiteMode=books"
    );
}

#[test]
fn redirects_of_the_site() {
    assert_eq!(next_url(302, &[("location", "https://dln1.ncdn.ec/f.pdf")], ""), "https://dln1.ncdn.ec/f.pdf");
    assert_eq!(next_url(301, &[("location", "/other")], ""), "https://z-library.sk/other");
    assert_eq!(next_url(399, &[("location", "httpx")], ""), "httpx");
    assert_eq!(error(302, &[], ""), "HTTP 302: 重定向缺少 Location 头");
    let mut odd = response(302, &[], "");
    odd.headers.insert("location", HeaderValue::from_bytes(&[0xe4]).unwrap());
    let unreadable = match follow_origin_response(odd, URL) {
        Ok(_) => panic!("followed"),
        Err(e) => e,
    };
    assert_eq!(unreadable, "Location 头解析失败: failed to convert header to a str");
    let base = url::Url::parse("nowhere").unwrap_err();
    assert_eq!(
        match follow_origin_response(response(302, &[("location", "/x")], ""), "nowhere") {
            Ok(_) => panic!("followed"),
            Err(e) => e,
        },
        format!("解析请求 URL 失败: {base}")
    );
    let reference = url::Url::parse(URL).unwrap().join("//[").unwrap_err();
    assert_eq!(error(302, &[("location", "//[")], ""), format!("拼接相对 URL 失败: {reference}"));
}

#[test]
fn registrations_of_a_download() {
    let s = match step(204, &[("set-cookie", "a=b"), ("set-cookie", "book_hash3_id=77; Path=/")], "") {
        Ok(s) => s,
        Err(e) => panic!("{e}"),
    };
    assert_eq!(s.next_url, URL);
    assert_eq!(s.extra_cookie.as_deref(), Some("book_hash3_id=77"));
    assert_eq!(
        error(204, &[("set-cookie", "x=book_hash3_id")], ""),
        "HTTP 204: 服务端未下发 book_hash3_id (URL=https://z-library.sk/dl/x)"
    );
}

#[test]
fn pages_of_the_site() {
    let link = r#"<a href="https://dl.example/f?x=1" target="_blank">  Download</a>"#;
    assert_eq!(next_url(200, &[], link), "https://dl.example/f?x=1");
    let button = r#"<a id="1" href="http://dl.example/g" class="btn dlButton x">Take it</a>"#;
    assert_eq!(next_url(200, &[], button), "http://dl.example/g");
    assert_eq!(next_url(200, &[], &format!("{button}{link}")), "https://dl.example/f?x=1");
    assert_eq!(
        error(200, &[], "nothing here"),
        "HTTP 200 但无法从页面解析下载链接 (URL=https://z-library.sk/dl/x)"
    );
    let limit = "HTTP 200: Daily limit reached（本书需账号登录或已达每日下载限制）";
    assert_eq!(error(200, &[], &format!("{link} Daily limit reached")), limit);
    assert_eq!(error(200, &[], "<div class=download-limits-error>"), limit);
    assert_eq!(error(404, &[], link), "origin 请求失败 HTTP 404");
    assert_eq!(error(600, &[], link), "origin 请求失败 HTTP 600");
    assert_eq!(error(7, &[], link), "origin 请求失败 HTTP 500");
    let mut taken = response(200, &[], "");
    taken.body = None;
    assert!(matches!(follow_origin_response(taken, URL), Err(e) if e == "响应体已被消费"));
}

#[test]
fn links_on_pages() {
    assert_eq!(extract_download_link("<p>no</p>"), None);
    assert_eq!(extract_download_link(r#"<a href="https://x.y/z">下载</a>"#).as_deref(), Some("https://x.y/z"));
    assert_eq!(extract_download_link(r#"<a href="/rel">Download</a>"#), None);
    match follow_page("", Some("u".to_string()), "r") {
        Ok(s) => assert_eq!(s.next_url, "u"),
        Err(e) => panic!("{e}"),
    }
}

#[test]
fn a_download_is_resolved() {
    let client = SniBypassClient { inner: () };
    let jar = ChallengeCookies::new();
    let mut pool = AccountPool::new();
    add_account(&mut pool, acct("1"));
    let mut d = match Download::start(&book(URL)) {
        Ok(d) => d,
        Err(e) => panic!("{e}"),
    };
    let r = fetch(d.next(&client, &jar, None, &mut pool, Vec::new()));
    assert!(r.method == Method::Get && r.url == URL && r.max_redirect == 0);
    assert_eq!(
        r.headers.get("cookie").unwrap(),
        "; remix_userid=1; remix_userkey=k1; selectedSiteMode=books"
    );
    d.advance(response(204, &[("set-cookie", "book_hash3_id=5; x")], "")).unwrap();
    let r = fetch(d.next(&client, &jar, Some(("u", "k")), &mut pool, Vec::new()));
    assert_eq!(
        r.headers.get("cookie").unwrap(),
        "; remix_userid=u; remix_userkey=k; selectedSiteMode=books; book_hash3_id=5"
    );
    d.advance(response(302, &[("location", "https://dln1.ncdn.ec/f")], "")).unwrap();
    match d.next(&client, &jar, None, &mut pool, Vec::new()) {
        DownloadStep::Resolved(u) => assert_eq!(u, "https://dln1.ncdn.ec/f"),
        DownloadStep::Fetch(_) => panic!("asked elsewhere"),
    }
}

#[test]
fn downloads_that_lead_nowhere() {
    assert!(matches!(Download::start(&book("")), Err(e) if e == "下载链接为空"));
    let client = SniBypassClient { inner: () };
    let jar = ChallengeCookies::new();
    let mut pool = AccountPool::new();
    let mut d = match Download::start(&book(URL)) {
        Ok(d) => d,
        Err(e) => panic!("{e}"),
    };
    for i in 1..=6 {
        fetch(d.next(&client, &jar, None, &mut pool, Vec::new()));
        let r = d.advance(response(302, &[("location", "/dl/y")], ""));
        if i < 6 {
            assert_eq!(r, Ok(()));
        } else {
            assert_eq!(r, Err("重定向超过 6 次仍停留在 origin 域名".to_string()));
        }
    }
    let mut failed = match Download::start(&book(URL)) {
        Ok(d) => d,
        Err(e) => panic!("{e}"),
    };
    assert_eq!(failed.advance(response(500, &[], "")), Err("origin 请求失败 HTTP 500".to_string()));
}

#[test]
fn a_labelled_link_goes_before_a_button() {
    let some = |s: &str| Some(s.to_string());
    assert_eq!(choose_link(some("l"), some("b")).as_deref(), Some("l"));
    assert_eq!(choose_link(some("l"), None).as_deref(), Some("l"));
    assert_eq!(choose_link(None, some("b")).as_deref(), Some("b"));
    assert_eq!(choose_link(None, None), None);
}

#[test]
fn references_that_do_not_resolve_are_errors() {
    let fails = |e: LinkError| match settle_redirect(Err(e)) {
        Ok(s) => panic!("{}", s.next_url),
        Err(m) => m,
    };
    assert_eq!(fails(LinkError::Base("x".to_string())), "解析请求 URL 失败: x");
    assert_eq!(fails(LinkError::Reference("y".to_string())), "拼接相对 URL 失败: y");
    match settle_redirect(Ok("https://z-library.sk/n".to_string())) {
        Ok(s) => assert!(s.next_url == "https://z-library.sk/n" && s.extra_cookie.is_none()),
        Err(e) => panic!("{e}"),
    }
}
