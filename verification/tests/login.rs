use http::HeaderMap;
use rlibrary_core::apis::login::{grant, login_outcome, login_request, read_answer, read_reply, settle_answer, LoginReply};
use rlibrary_core::client::challenge::ChallengeCookies;
use rlibrary_core::client::sni::{Method, Response, SniBypassClient};
use rlibrary_core::json::Json;

fn response(status: u16, body: &str) -> Response {
    Response { status, headers: HeaderMap::new(), body: Some(body.as_bytes().to_vec()), url: String::new() }
}

fn fail(body: &str) -> String {
    login_outcome(&mut response(200, body), "e@x.org", "pw").unwrap_err()
}

#[test]
fn login_requests() {
    let client = SniBypassClient { inner: () };
    let r = login_request(&client, &ChallengeCookies::new(), "me@x.org", "p w&1");
    assert!(r.method == Method::Post);
    assert_eq!(r.url, "https://z-library.sk/rpc.php");
    assert_eq!(
        String::from_utf8(r.body.unwrap()).unwrap(),
        "isModal=true&email=me%40x.org&password=p+w%261&site_mode=books&action=login\
         &redirectUrl=https%3A%2F%2Fz-library.sk%2F&gg_json_mode=1"
    );
    assert_eq!(r.headers.len(), 18);
    let get = |name: &str| r.headers.get(name).unwrap().to_str().unwrap();
    assert_eq!(get("host"), "z-library.sk");
    assert_eq!(get("cookie"), "; selectedSiteMode=books");
    assert_eq!(get("origin"), "https://z-library.sk");
    assert_eq!(get("referer"), "https://z-library.sk/");
    assert_eq!(get("accept"), "application/json, text/javascript, */*; q=0.01");
    assert_eq!(get("sec-ch-ua-platform"), "\"Windows\"");
    assert_eq!(get("sec-ch-ua"), r#""Not:A-Brand";v="99", "Microsoft Edge";v="145", "Chromium";v="145""#);
    assert_eq!(get("priority"), "u=1, i");
    assert_eq!(get("x-requested-with"), "XMLHttpRequest");
    assert_eq!(get("content-type"), "application/x-www-form-urlencoded; charset=UTF-8");
}

#[test]
fn a_login_is_granted() {
    let body = r#"{"errors":[],"response":{"user_id":35246529,"user_key":"k\"1","user_name":"Ann","x":[1,{"y":2}]}}"#;
    let a = login_outcome(&mut response(200, body), "e@x.org", "pw").unwrap();
    assert_eq!(a.remix_userid, "35246529");
    assert_eq!(a.remix_userkey, "k\"1");
    assert_eq!(a.username, "Ann");
    assert_eq!(a.email, "e@x.org");
    assert_eq!(a.password, "pw");
    let plain = read_answer(r#"{"response":{"validationError":false,"user_id":-3,"user_key":"k"}}"#, "e", "p").unwrap();
    assert_eq!(plain.remix_userid, "-3");
    assert_eq!(plain.username, "e");
}

#[test]
fn a_login_is_refused() {
    let wrong = r#"{"response":{"validationError":true,"message":"Incorrect email or password"}}"#;
    assert_eq!(fail(wrong), "Incorrect email or password");
    assert_eq!(fail(r#"{"response":{"validationError":true}}"#), "登录失败: 未知错误");
    assert_eq!(fail(r#"{"response":{"validationError":true,"message":7}}"#), "登录失败: 未知错误");
}

#[test]
fn answers_that_cannot_be_used() {
    assert_eq!(fail(r#"{"response":{"user_key":"k"}}"#), "响应中没有 user_id");
    assert_eq!(fail(r#"{"response":{"user_id":1.5,"user_key":"k"}}"#), "响应中没有 user_id");
    assert_eq!(fail(r#"{"response":{"user_id":"1","user_key":"k"}}"#), "响应中没有 user_id");
    assert_eq!(fail(r#"{"response":{"user_id":9223372036854775808,"user_key":"k"}}"#), "响应中没有 user_id");
    assert_eq!(fail(r#"{"response":{"user_id":1}}"#), "响应中没有 user_key");
    assert_eq!(fail(r#"{"response":null}"#), "响应中没有 user_id");
    assert_eq!(fail("{}"), "响应格式错误: {}");
    assert_eq!(fail("[1]"), "响应格式错误: [1]");
    let e = serde_json::from_str::<serde_json::Value>("<html>").unwrap_err();
    assert_eq!(fail("<html>"), format!("JSON 解析失败: {e}"));
    assert_eq!(
        login_outcome(&mut response(403, "denied"), "e", "p").unwrap_err(),
        "登录失败 HTTP 403: denied"
    );
    let mut taken = response(500, "");
    taken.body = None;
    assert_eq!(login_outcome(&mut taken, "e", "p").unwrap_err(), "登录失败 HTTP 500: ");
    taken.status = 200;
    assert_eq!(login_outcome(&mut taken, "e", "p").unwrap_err(), "读取响应失败: 响应体已被消费");
}

#[test]
fn replies_are_read_and_judged() {
    let member = |k: &str, v: &str| (k.to_string(), v.to_string());
    let reply = read_reply(&Json::Object(vec![
        member("user_id", "12"),
        member("user_key", "\"k\""),
        member("validationError", "\"yes\""),
    ]));
    assert_eq!(reply.user_id, Some(12));
    assert_eq!(reply.user_key.as_deref(), Some("k"));
    assert_eq!(reply.validation_error, None);
    assert_eq!(grant(reply, "e", "p").unwrap().remix_userid, "12");
    let both = LoginReply {
        validation_error: Some(true),
        message: Some("m".to_string()),
        user_id: Some(1),
        user_key: Some("k".to_string()),
        user_name: None,
    };
    assert_eq!(grant(both, "e", "p").unwrap_err(), "m");
    assert_eq!(read_reply(&Json::Array).user_id, None);
}

#[test]
fn what_was_read_settles_a_login() {
    assert_eq!(settle_answer(Err("bad".to_string()), "<html>", "e", "p").unwrap_err(), "JSON 解析失败: bad");
    assert_eq!(settle_answer(Ok(None), "{}", "e", "p").unwrap_err(), "响应格式错误: {}");
    let reply = LoginReply {
        validation_error: None,
        message: None,
        user_id: Some(3),
        user_key: Some("k".to_string()),
        user_name: None,
    };
    assert_eq!(settle_answer(Ok(Some(reply)), "", "e", "p").unwrap().username, "e");
}
