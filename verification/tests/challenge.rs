use rlibrary_core::client::challenge::{
    build_challenge_cookie, extract_js_array, has_mark, parse_challenge, parse_shuffle_count, solve, Challenge,
    ChallengeCookies,
};
use sha1::Digest;

const PAGE: &str = "<script>const a0_0x2a54=['c_token=','; path=/','7F3ADD'];(function(_0x2a548e,_0x4457dc){\
                    _0x4457dc(++_0x2a548e);}(a0_0x2a54,0x0));</script>";

fn page(items: &str, count: &str) -> String {
    format!("<script>const a0_0x2a54=['{items}'];x _0x4457dc(++_0x2a548e);}}(a0_0x2a54,{count}));")
}

fn challenge(token: &str, check_offset: usize) -> Challenge {
    Challenge { token: token.to_string(), check_offset }
}

#[test]
fn challenge_is_read_off_the_page() {
    let c = parse_challenge(PAGE).unwrap();
    assert_eq!(c.token, "7F3ADD");
    assert_eq!(c.check_offset, 7);
}

#[test]
fn the_array_is_rotated() {
    assert_eq!(extract_js_array(&page("a','b','c", "0x1"), 0).unwrap(), "b");
    assert_eq!(extract_js_array(&page("a','b','c", "0x1"), 2).unwrap(), "a");
    assert_eq!(extract_js_array(&page("a','b','c", " 0x1a9 "), 2).unwrap(), "b");
    assert_eq!(extract_js_array(&page("a','b','c", "5"), 0).unwrap(), "c");
    assert_eq!(extract_js_array(&page("''a','b''','c", "0"), 0).unwrap(), "a");
    assert_eq!(extract_js_array(&page("''a','b''','c", "0"), 1).unwrap(), "b");
    assert_eq!(extract_js_array(&page("a','b','c", "0xffffffffffffffff"), 2).unwrap(), "c");
}

#[test]
fn pages_without_a_challenge() {
    assert!(parse_challenge("").is_none());
    assert!(parse_challenge("<html>Service unavailable</html>").is_none());
    assert!(parse_challenge(&page("a','b", "0x0")).is_none());
    assert!(parse_challenge(&page("a','b','c','d", "0x0")).is_none());
    assert!(parse_challenge(&page("a','b','c1", "zz")).is_none());
    assert!(parse_challenge("const a0_0x2a54=['a','b','c1']; and no rotation").is_none());
    assert!(parse_challenge("const a0_0x2a54=['a','b','c1").is_none());
    // Too short, no digit, no digit of one byte.
    assert!(parse_challenge(&page("a','b','c", "0x0")).is_none());
    assert!(parse_challenge(&page("a','b','xyz", "0x0")).is_none());
    assert!(parse_challenge(&page("a','b','éz", "0x0")).is_none());
    assert!(parse_challenge(&page("a','b','c1", "0x0")).is_some());
}

#[test]
fn shuffle_counts() {
    let read = |s: &str| parse_shuffle_count(&s.chars().collect::<Vec<char>>());
    assert_eq!(read("_0x4457dc(++_0x2a548e);}(a0_0x2a54,0x1f)"), Some(31));
    assert_eq!(read("_0x4457dc(++_0x2a548e);}(a0_0x2a54, ff )"), Some(255));
    assert_eq!(read("_0x4457dc(++_0x2a548e);}(a0_0x2a54,0x)"), None);
    assert_eq!(read("_0x4457dc(++_0x2a548e);}(a0_0x2a54,0x1"), None);
    assert_eq!(read("0x1)"), None);
}

#[test]
fn the_smallest_solution_is_found() {
    for (token, offset) in [("7F3ADD", 7), ("0abc", 0), ("fe", 15)] {
        let i = solve(&challenge(token, offset)).unwrap();
        for j in 0..=i {
            let digest = sha1::Sha1::digest(format!("{token}{j}").as_bytes());
            let hit = digest[offset] == 0xB0 && digest[offset + 1] == 0x0B;
            assert_eq!(hit, j == i);
        }
    }
}

#[test]
fn the_mark_is_two_bytes() {
    let mut digest = vec![0u8; 20];
    assert!(!has_mark(&digest, 3));
    digest[3] = 0xB0;
    assert!(!has_mark(&digest, 3));
    digest[4] = 0x0B;
    assert!(has_mark(&digest, 3));
    assert!(!has_mark(&digest, 4));
}

#[test]
fn cookie_of_a_solution() {
    let c = challenge("7F3A", 7);
    assert_eq!(
        build_challenge_cookie(&c, 4711, 1250, None),
        "c_token=7F3A4711; c_time=1.250; selectedSiteMode=books"
    );
    assert_eq!(
        build_challenge_cookie(&c, 0, 5, Some(("12", "k"))),
        "c_token=7F3A0; c_time=0.005; remix_userid=12; remix_userkey=k; selectedSiteMode=books"
    );
}

#[test]
fn only_challenge_cookies_are_kept() {
    let mut jar = ChallengeCookies::new();
    assert_eq!(jar.cookie_str(), "");
    let pair = |k: &str, v: &str| (k.to_string(), v.to_string());
    jar.update_challenge(&vec![pair("selectedSiteMode", "books"), pair("c_time", "0.1"), pair("c_token", "A")]);
    assert_eq!(jar.cookie_str(), "c_token=A; c_time=0.1");
    jar.update_challenge(&vec![pair("c_token", "B"), pair("bsrv", "s1"), pair("c_token", "C")]);
    assert_eq!(jar.cookie_str(), "c_token=C; c_time=0.1; bsrv=s1");
}
