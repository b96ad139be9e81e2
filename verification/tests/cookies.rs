use rlibrary_core::client::challenge::{build_challenge_cookie, solve, Challenge, ChallengeCookies};
use rlibrary_core::client::cookies::{cookies_set, extend_cookie, parse_pairs, refresh_cookie};
use sha1::Digest;

#[test]
fn pairs_of_a_cookie_text() {
    let pairs = parse_pairs("a=1; flag; b=x=y; =z");
    let want: Vec<(String, String)> =
        [("a", "1"), ("b", "x=y"), ("", "z")].iter().map(|(k, v)| (k.to_string(), v.to_string())).collect();
    assert_eq!(pairs, want);
    assert!(parse_pairs("").is_empty());
}

#[test]
fn a_solution_is_stored() {
    let c = Challenge { token: "9a;b=c".to_string(), check_offset: 9 };
    let mut jar = ChallengeCookies::new();
    jar.update_challenge(&vec![("bsrv".to_string(), "s".to_string())]);
    jar.update_challenge(&parse_pairs(&build_challenge_cookie(&c, 12, 3456, None)));
    assert_eq!(jar.c_token.as_deref(), Some("9a;b=c12"));
    assert_eq!(jar.c_time.as_deref(), Some("3.456"));
    assert_eq!(jar.bsrv.as_deref(), Some("s"));
}

#[test]
fn fresh_challenge_cookies_replace_old_ones() {
    let old = "c_token=old; remix_userid=1; c_time=0.1; remix_userkey=k; bsrv=x; selectedSiteMode=books";
    assert_eq!(
        refresh_cookie(old, "c_token=new; c_time=0.2"),
        "remix_userid=1; remix_userkey=k; selectedSiteMode=books; c_token=new; c_time=0.2"
    );
    assert_eq!(refresh_cookie("", "c_token=new"), "c_token=new");
    assert_eq!(refresh_cookie("c_token=old; c_time=1", "c_token=new"), "c_token=new");
    assert_eq!(refresh_cookie("c_tokens=1", "c_token=new"), "c_tokens=1; c_token=new");
    // A challenge that was not met yet leaves an empty first segment.
    assert_eq!(refresh_cookie("; selectedSiteMode=books", "c_token=new"), "; selectedSiteMode=books; c_token=new");
}

#[test]
fn cookies_of_a_redirect() {
    let lines: Vec<String> =
        ["sid=1; Path=/; HttpOnly", "", "; Path=/", "theme=dark"].iter().map(|s| s.to_string()).collect();
    let set = cookies_set(&lines);
    assert_eq!(set, ["sid=1", "theme=dark"]);
    assert_eq!(extend_cookie(Some("a=b".to_string()), &set), "a=b; sid=1; theme=dark");
    assert_eq!(extend_cookie(None, &set), "sid=1; theme=dark");
}

#[test]
fn requests_carry_the_cookies_in_force() {
    let mut jar = ChallengeCookies::new();
    jar.update_challenge(&parse_pairs("c_token=T1; c_time=0.5; bsrv=s"));
    let plain = rlibrary_core::apis::search::build_cookie(&jar);
    assert_eq!(
        plain.split("; ").collect::<Vec<&str>>(),
        ["c_token=T1", "c_time=0.5", "bsrv=s", "selectedSiteMode=books"]
    );
    jar.update_challenge(&parse_pairs("c_token=T2; c_time=0.7"));
    assert_eq!(
        refresh_cookie(&plain, &jar.cookie_str()),
        "selectedSiteMode=books; c_token=T2; c_time=0.7; bsrv=s"
    );
}

#[test]
fn the_stored_token_carries_the_mark() {
    let c = Challenge { token: "4Fe".to_string(), check_offset: 4 };
    let solution = solve(&c).unwrap();
    let mut jar = ChallengeCookies::new();
    jar.update_challenge(&parse_pairs(&build_challenge_cookie(&c, solution, 10, Some(("u", "k")))));
    let digest = sha1::Sha1::digest(jar.c_token.unwrap().as_bytes());
    assert_eq!((digest[4], digest[5]), (0xB0, 0x0B));
}
