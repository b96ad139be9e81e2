use http::HeaderMap;
use rlibrary_core::apis::search::{
    book_of_card, build_cookie, html_unescape, parse_books, parse_search_page, parse_total_pages, parse_total_results,
    search_outcome, search_request, summarize, urlencoding, CARD_PATTERN,
};
use rlibrary_core::client::challenge::ChallengeCookies;
use rlibrary_core::client::sni::{Method, Response, SniBypassClient};

const PAGE: &str = r##"
<a data-type="book" href="#">Books (51)</a>
<z-bookcard
   id="48251014" isbn="" href="/book/QO54zAL1vr/x.html" download="/dl/GZO9JmOaBA"
   publisher="P" language="english" year="2023" extension="pdf" filesize="799 KB" rating="5.0" quality="4.0" other="x">
  <img class="c" data-src="https://covers/1.jpg">
  <div slot="title">Rust &amp; Verus &lt;proofs&gt;</div>
  <div slot="author">A&#39;s &quot;B&quot;&nbsp;C&#x27;</div>
</z-bookcard>
<z-bookcard id="2"></z-bookcard>
<script>pagesTotal:  7,</script>
"##;

fn jar() -> ChallengeCookies {
    let mut jar = ChallengeCookies::new();
    jar.update_challenge(&vec![("c_token".to_string(), "T".to_string())]);
    jar
}

fn response(body: &[u8]) -> Response {
    Response { status: 200, headers: HeaderMap::new(), body: Some(body.to_vec()), url: String::new() }
}

#[test]
fn blanks_become_percent_twenty() {
    assert_eq!(urlencoding("rust programming"), "rust%20programming");
    assert_eq!(urlencoding("  "), "%20%20");
    assert_eq!(urlencoding("c++/日本"), "c++/日本");
    assert_eq!(urlencoding(""), "");
}

#[test]
fn search_requests() {
    let client = SniBypassClient { inner: 1u8 };
    let r = search_request(&client, &jar(), "rust programming", 12);
    assert_eq!(r.url, "https://z-library.sk/s/rust%20programming?page=12");
    assert!(r.method == Method::Get && r.body.is_none() && r.max_redirect == 10);
    assert_eq!(r.headers.len(), 1);
    assert_eq!(r.headers.get("cookie").unwrap(), "c_token=T; selectedSiteMode=books");
    assert_eq!(build_cookie(&ChallengeCookies::new()), "; selectedSiteMode=books");
}

#[test]
fn a_page_of_results_is_read() {
    let found = parse_search_page(PAGE, 3);
    assert_eq!((found.total, found.page, found.total_pages), (51, 3, 7));
    assert_eq!(found.books.len(), 2);
    let b = &found.books[0];
    assert_eq!(b.id, "48251014");
    assert_eq!(b.isbn, "");
    assert_eq!(b.detail_url, "https://z-library.sk/book/QO54zAL1vr/x.html");
    assert_eq!(b.download_url, "https://z-library.sk/dl/GZO9JmOaBA");
    assert_eq!(
        [&b.publisher, &b.language, &b.year, &b.extension, &b.file_size, &b.rating, &b.quality],
        ["P", "english", "2023", "pdf", "799 KB", "5.0", "4.0"]
    );
    assert_eq!(b.title, "Rust & Verus <proofs>");
    assert_eq!(b.author, "A's \"B\" C'");
    assert_eq!(b.image_url, "https://covers/1.jpg");
    let second = &found.books[1];
    assert_eq!(second.id, "2");
    assert_eq!(second.title, "");
    assert_eq!(second.download_url, "");
}

#[test]
fn numbers_of_a_page() {
    assert_eq!(parse_total_results(PAGE), Some(51));
    assert_eq!(parse_total_pages(PAGE), Some(7));
    assert_eq!(parse_total_results("none"), None);
    assert_eq!(parse_total_pages("pagesTotal: ٣"), None);
    assert_eq!(parse_total_pages("pagesTotal:99999999999"), None);
    assert!(parse_books("").is_empty());
}

#[test]
fn what_a_page_does_not_say() {
    let empty = parse_search_page("<html></html>", 1);
    assert_eq!((empty.total, empty.total_pages, empty.books.len()), (0, 1, 0));
    let s = summarize(parse_books(PAGE), None, Some(0), 1);
    assert_eq!((s.total, s.total_pages, s.page), (2, 1, 1));
    let s = summarize(Vec::new(), Some(9), Some(4), 2);
    assert_eq!((s.total, s.total_pages, s.page), (9, 4, 2));
}

#[test]
fn later_attributes_win() {
    let pair = |k: &str, v: &str| (k.to_string(), v.to_string());
    let b = book_of_card(
        &vec![pair("id", "1"), pair("href", "/a"), pair("unknown", "x"), pair("id", "2")],
        Some("a&lt;".to_string()),
        None,
        Some("img&amp;".to_string()),
    );
    assert_eq!(b.id, "2");
    assert_eq!(b.detail_url, "https://z-library.sk/a");
    assert_eq!(b.title, "a<");
    assert_eq!(b.author, "");
    assert_eq!(b.image_url, "img&amp;");
}

#[test]
fn references_are_resolved_one_after_the_other() {
    assert_eq!(html_unescape("&amp;lt;"), "<");
    assert_eq!(html_unescape("&lt;&gt;&quot;&#39;&#x27;&nbsp;|"), "<>\"'' |");
    assert_eq!(html_unescape("&amp;amp;"), "&amp;");
    assert_eq!(html_unescape("plain; text"), "plain; text");
    assert_eq!(html_unescape("&copy;"), "&copy;");
}

#[test]
fn search_outcomes() {
    let mut r = response(PAGE.as_bytes());
    assert_eq!(search_outcome(&mut r, 3).unwrap().total, 51);
    assert!(r.body.is_none());
    assert_eq!(search_outcome(&mut r, 3).unwrap_err(), "读取失败: 响应体已被消费");
    let e = String::from_utf8(vec![0xc3]).unwrap_err();
    assert_eq!(search_outcome(&mut response(&[0xc3]), 1).unwrap_err(), format!("读取失败: UTF-8 解码失败: {e}"));
}

/// The cards of a page, found by plain searching.
fn cards(html: &str) -> Vec<(String, String)> {
    let mut found = Vec::new();
    let mut rest = html;
    while let Some(i) = rest.find("<z-bookcard") {
        let behind = &rest[i + "<z-bookcard".len()..];
        let inner = behind.trim_start();
        let card = if inner.len() == behind.len() {
            None
        } else {
            inner.split_once('>').and_then(|(attrs, after)| {
                after.split_once("</z-bookcard>").map(|(content, left)| (attrs, content, left))
            })
        };
        match card {
            Some((attrs, content, left)) => {
                found.push((attrs.to_string(), content.to_string()));
                rest = left;
            }
            None => rest = &rest[i + 1..],
        }
    }
    found
}

#[test]
fn the_card_pattern_finds_the_cards() {
    let re = regex::Regex::new(CARD_PATTERN).unwrap();
    let pieces = [
        "<z-bookcard", "</z-bookcard>", ">", " ", "\n\t", "\u{3000}", "id=\"1\"", "<", "</", "z-bookcard", "x", "é",
        "\u{85}", "<z-bookcard id=\"2\">", "\u{200b}",
    ];
    let mut seed: u64 = 0x2545_f491_4f6c_dd1d;
    for _ in 0..20_000 {
        let mut html = String::new();
        for _ in 0..12 {
            seed ^= seed << 13;
            seed ^= seed >> 7;
            seed ^= seed << 17;
            html.push_str(pieces[(seed % pieces.len() as u64) as usize]);
        }
        let got: Vec<(String, String)> =
            re.captures_iter(&html).map(|c| (c[1].to_string(), c[2].to_string())).collect();
        assert_eq!(got, cards(&html), "{html:?}");
    }
}

#[test]
fn cards_that_are_no_cards() {
    let ids = |html: &str| parse_books(html).iter().map(|b| b.id.clone()).collect::<Vec<String>>();
    assert_eq!(ids(r#"<z-bookcards id="1"></z-bookcard><z-bookcard id="2"></z-bookcard>"#), ["2"]);
    assert_eq!(ids(r#"<z-bookcard id="1"><z-bookcard id="2"></z-bookcard>"#), ["1"]);
    assert!(ids(r#"<z-bookcard id="1">no end"#).is_empty());
    assert!(ids(r#"<z-bookcard id="1" </z-bookcard>"#).is_empty());
    assert_eq!(ids("<z-bookcard\n\u{3000}id=\"3\"></z-bookcard>"), ["3"]);
}

#[test]
fn joined_pages_show_joined_books() {
    let a = r#"head <z-bookcard id="1">x</z-bookcard> mid <z-bookcard id="1">y</z-bookcard> tail <z-book"#;
    let b = r#"<z-bookcard id="2"><div slot="title">T</div></z-bookcard> end"#;
    let list = |html: &str| {
        parse_books(html).iter().map(|b| (b.id.clone(), b.title.clone())).collect::<Vec<(String, String)>>()
    };
    let mut both = list(a);
    assert_eq!(both.len(), 2);
    both.extend(list(b));
    assert_eq!(list(&format!("{a}{b}")), both);
    assert_eq!(both[2], ("2".to_string(), "T".to_string()));
}
