use rlibrary_core::apis::search::parse_search_page;
use rlibrary_core::ffi::{
    book_fields, failure_fields, login_fields, requested_book, resolved_fields, run, search_fields, select_account,
};
use rlibrary_core::models::account::LoginResult;
use serde_json::Value;

fn parsed(text: &str) -> Value {
    serde_json::from_str(text).unwrap()
}

fn acct() -> LoginResult {
    LoginResult {
        remix_userid: "35246529".to_string(),
        remix_userkey: "k\"ey\n".to_string(),
        username: "Änne".to_string(),
        email: "a@b.c".to_string(),
        password: "secret word".to_string(),
    }
}

#[test]
fn an_account_needs_both_its_parts() {
    assert_eq!(select_account(Some("u"), Some("k")), Some(("u", "k")));
    assert_eq!(select_account(Some("u"), None), None);
    assert_eq!(select_account(None, Some("k")), None);
    assert_eq!(select_account(None, None), None);
}

#[test]
fn a_link_makes_a_book() {
    let book = requested_book("https://z-library.sk/dl/x");
    assert_eq!(book.download_url, "https://z-library.sk/dl/x");
    assert!(book.id.is_empty() && book.title.is_empty() && book.detail_url.is_empty());
}

#[test]
fn failures_are_answered() {
    let text = run(Some(Err("say \"no\"\n".to_string())));
    let v = parsed(&text);
    assert_eq!(v["ok"], Value::Bool(false));
    assert_eq!(v["error"], Value::from("say \"no\"\n"));
    assert_eq!(v.as_object().unwrap().len(), 2);
    assert_eq!(failure_fields("e").len(), 2);
    assert_eq!(run(None), r#"{"ok":false,"error":"panic 已捕获"}"#);
}

#[test]
fn logins_are_answered_without_the_password() {
    let text = run(Some(Ok(login_fields(&acct()))));
    let v = parsed(&text);
    assert_eq!(v["ok"], Value::Bool(true));
    assert_eq!(v["remix_userid"], Value::from("35246529"));
    assert_eq!(v["remix_userkey"], Value::from("k\"ey\n"));
    assert_eq!(v["username"], Value::from("Änne"));
    assert_eq!(v["email"], Value::from("a@b.c"));
    assert_eq!(v.as_object().unwrap().len(), 5);
    assert!(!text.contains("secret"));
}

#[test]
fn downloads_are_answered() {
    let v = parsed(&run(Some(Ok(resolved_fields("https://dln1.ncdn.ec/f")))));
    assert_eq!(v["ok"], Value::Bool(true));
    assert_eq!(v["url"], Value::from("https://dln1.ncdn.ec/f"));
    assert_eq!(v.as_object().unwrap().len(), 2);
}

#[test]
fn searches_are_answered() {
    let page = r#"<z-bookcard id="1" year="2001" download="/dl/a"></z-bookcard><z-bookcard id="2"></z-bookcard>
                  pagesTotal: 51"#;
    let found = parse_search_page(page, 4);
    let v = parsed(&run(Some(Ok(search_fields(&found)))));
    assert_eq!(v["ok"], Value::Bool(true));
    assert_eq!(v["total"], Value::from(2));
    assert_eq!(v["total_pages"], Value::from(51));
    assert_eq!(v["page"], Value::from(4));
    let books = v["books"].as_array().unwrap();
    assert_eq!(books.len(), 2);
    assert_eq!(books[0]["id"], Value::from("1"));
    assert_eq!(books[0]["year"], Value::from("2001"));
    assert_eq!(books[0]["download_url"], Value::from("https://z-library.sk/dl/a"));
    assert_eq!(books[1]["id"], Value::from("2"));
    assert_eq!(books[1].as_object().unwrap().len(), 14);
    let names: Vec<String> = book_fields(&found.books[0]).into_iter().map(|(k, _)| k).collect();
    assert_eq!(
        names,
        [
            "id", "isbn", "title", "author", "publisher", "language", "year", "extension", "file_size", "rating",
            "quality", "image_url", "detail_url", "download_url"
        ]
    );
}

#[test]
fn an_empty_search_is_answered_with_an_empty_list() {
    let v = parsed(&run(Some(Ok(search_fields(&parse_search_page("", 1))))));
    assert_eq!(v["books"], Value::Array(Vec::new()));
    assert_eq!(v["total"], Value::from(0));
}
