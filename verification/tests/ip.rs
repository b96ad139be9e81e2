use rlibrary_core::client::ip::{
    ip_text, known_ip, load_cached_ip, lookup_form, lookup_outcome, parse_ip, parse_lookup, remember_ip, IpCache, Ipv4,
    ANSWER_PATTERN,
};

fn ip(a: u8, b: u8, c: u8, d: u8) -> Ipv4 {
    Ipv4 { a, b, c, d }
}

const PAGE: &str = r##"<pre><a href="#">z-library.sk.</a>   <span class="ttl">300</span> <span class="x">IN</span>
 <a href="/a">A</a>   <a href="/ip">176.123.7.105</a></pre>"##;

#[test]
fn addresses_are_four_small_numbers() {
    let read = |s: &str| parse_ip(&s.chars().collect::<Vec<char>>()).map(|i| [i.a, i.b, i.c, i.d]);
    assert_eq!(read("1.2.3.4"), Some([1, 2, 3, 4]));
    assert_eq!(read("0.0.0.0"), Some([0, 0, 0, 0]));
    assert_eq!(read("255.255.255.255"), Some([255, 255, 255, 255]));
    assert_eq!(read("10.200.30.9"), Some([10, 200, 30, 9]));
    for s in [
        "256.1.1.1", "01.2.3.4", "1.2.3", "1.2.3.4.5", "", "....", "+1.2.3.4", "1.2.3.4 ", "a.b.c.d", "1..2.3",
        "1000.1.1.1", "00.0.0.0", "1.2.3.-4",
    ] {
        assert_eq!(read(s), None, "{s:?}");
    }
}

#[test]
fn written_addresses_read_back() {
    for (a, b, c, d) in [(0, 0, 0, 0), (1, 22, 133, 255), (176, 123, 7, 105), (10, 100, 99, 9)] {
        let text = ip_text(ip(a, b, c, d));
        assert_eq!(text, format!("{a}.{b}.{c}.{d}"));
        assert_eq!(load_cached_ip(Some(&text)), Some(ip(a, b, c, d)));
        assert_eq!(load_cached_ip(Some(&format!("\n {text}\t\n"))), Some(ip(a, b, c, d)));
    }
    assert_eq!(load_cached_ip(None), None);
    assert_eq!(load_cached_ip(Some("garbage")), None);
}

#[test]
fn the_file_comes_before_the_memory() {
    let mut cache = IpCache { memory: None };
    assert_eq!(known_ip(&mut cache, None), None);
    remember_ip(&mut cache, ip(1, 1, 1, 1));
    assert_eq!(known_ip(&mut cache, Some("bad")), Some(ip(1, 1, 1, 1)));
    assert_eq!(known_ip(&mut cache, Some("2.2.2.2\n")), Some(ip(2, 2, 2, 2)));
    assert_eq!(cache.memory, Some(ip(2, 2, 2, 2)));
    assert_eq!(known_ip(&mut cache, None), Some(ip(2, 2, 2, 2)));
}

#[test]
fn the_address_is_read_off_a_lookup_page() {
    assert_eq!(parse_lookup(PAGE), Some(ip(176, 123, 7, 105)));
    assert_eq!(lookup_outcome(Some(PAGE)), Ok(ip(176, 123, 7, 105)));
    let other = PAGE.replace("z-library.sk", "z-libraryxsk");
    assert_eq!(parse_lookup(&other), None);
    assert_eq!(parse_lookup(&PAGE.replace("176.123", "976.123")), None);
    assert_eq!(lookup_outcome(Some("nothing")), Err("diggui 解析失败".to_string()));
    assert_eq!(lookup_outcome(None), Err("diggui 解析失败".to_string()));
    assert!(ANSWER_PATTERN.starts_with(r"z-library\.sk\.</a>"));
}

#[test]
fn the_lookup_form_asks_for_the_site() {
    let form = lookup_form();
    assert_eq!(form.len(), 27);
    assert_eq!(form[0], ("type", "A"));
    assert_eq!(form[1], ("hostname", "z-library.sk"));
    assert_eq!(form[3], ("public", "8.8.8.8"));
    assert_eq!(form[6], ("tcp", "def"));
    assert_eq!(form[25], ("short", "def"));
    assert_eq!(form[26], ("colorize", "on"));
}
