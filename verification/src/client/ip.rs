//! The address of the site: how it is written, where it is remembered, and how it is read
//! off a lookup page.

use vstd::prelude::*;

use crate::client::sni::ORIGIN_DOMAIN;
use crate::number::{
    decimal, digit_char, digit_value, digits_value, law_decimal_digits, law_decimal_places,
    law_decimal_reads_back, lemma_decimal_is_digits, lemma_digits_grow, push_decimal, read_unsigned,
    unsigned_digits,
};
use crate::pattern::{first_group, match_group};
use crate::text::{
    chars_of, find, is_whitespace, join, law_join_of_split, law_split_of_join, law_trim,
    lemma_find_single, split, split_chars, trim, trim_chars, trim_end, trim_start, views, CharClass,
};

verus! {

/// An IPv4 address.
#[derive(Clone, Copy, Debug, PartialEq, Eq, Structural)]
pub struct Ipv4 {
    pub a: u8,
    pub b: u8,
    pub c: u8,
    pub d: u8,
}

/// The address in memory, if one is known.
pub struct IpCache {
    pub memory: Option<Ipv4>,
}

/// Where the lookup is asked for.
pub const LOOKUP_URL: &'static str = "https://www.diggui.com/";

/// How the lookup introduces itself.
pub const LOOKUP_AGENT: &'static str =
    "Mozilla/5.0 (Windows NT 10.0; Win64; x64) AppleWebKit/537.36 (KHTML, like Gecko) Chrome/137.0.0.0 Safari/537.36";

/// Where a lookup page shows the address of the site.
pub const ANSWER_PATTERN: &'static str =
    r#"z-library\.sk\.</a>\s+<span[^>]*>\d+</span>\s+<span[^>]*>IN</span>\s+<a[^>]*>A</a>\s+<a[^>]*>([0-9]{1,3}\.[0-9]{1,3}\.[0-9]{1,3}\.[0-9]{1,3})</a>"#;

// ---------------------------------------------------------------------------
// Model
// ---------------------------------------------------------------------------

impl Ipv4 {
    /// The parts of the address as text.
    pub open spec fn parts(self) -> Seq<Seq<char>> {
        seq![
            decimal(self.a as nat),
            decimal(self.b as nat),
            decimal(self.c as nat),
            decimal(self.d as nat),
        ]
    }

    /// The address as text.
    pub open spec fn text(self) -> Seq<char> {
        join(self.parts(), "."@)
    }
}

/// A number from 0 to 255 in at most three digits, without leading zeros.
pub open spec fn octet(s: Seq<char>) -> Option<u8> {
    if 1 <= s.len() <= 3 && (s.len() > 1 ==> s[0] != '0') {
        match digits_value(s, 10) {
            Some(n) => if n <= 255 {
                Some(n as u8)
            } else {
                None
            },
            None => None,
        }
    } else {
        None
    }
}

/// The address that a text stands for.
pub open spec fn address(s: Seq<char>) -> Option<Ipv4> {
    let parts = split(s, "."@);
    if parts.len() == 4 {
        match (octet(parts[0]), octet(parts[1]), octet(parts[2]), octet(parts[3])) {
            (Some(a), Some(b), Some(c), Some(d)) => Some(Ipv4 { a, b, c, d }),
            _ => None,
        }
    } else {
        None
    }
}

/// The address in a cache file.
pub open spec fn cached_address(content: Option<Seq<char>>) -> Option<Ipv4> {
    match content {
        Some(s) => address(trim(s, CharClass::Whitespace)),
        None => None,
    }
}

/// The address on a lookup page.
pub open spec fn answered_address(body: Seq<char>) -> Option<Ipv4> {
    match first_group(ANSWER_PATTERN@, body) {
        Some(s) => address(s),
        None => None,
    }
}

/// The address to be used without a lookup, given the one on file and the one in memory.
pub open spec fn usable_address(on_file: Option<Ipv4>, in_memory: Option<Ipv4>) -> Option<Ipv4> {
    match on_file {
        Some(ip) => Some(ip),
        None => in_memory,
    }
}

/// The fields of the lookup form that are left at their defaults.
pub open spec fn default_fields() -> Seq<Seq<char>> {
    seq![
        "tcp"@,
        "transport"@,
        "mapped"@,
        "nssearch"@,
        "trace"@,
        "recurse"@,
        "edns"@,
        "dnssec"@,
        "subnet"@,
        "cookie"@,
        "all"@,
        "cmd"@,
        "question"@,
        "answer"@,
        "authority"@,
        "additional"@,
        "comments"@,
        "stats"@,
        "multiline"@,
        "short"@,
    ]
}

/// The lookup form: the type A record of the site, asked of a public name server.
pub open spec fn lookup_fields() -> Seq<(Seq<char>, Seq<char>)> {
    seq![
        ("type"@, "A"@),
        ("hostname"@, "z-library.sk"@),
        ("nameserver"@, "public"@),
        ("public"@, "8.8.8.8"@),
        ("specify"@, ""@),
        ("clientsubnet"@, ""@),
    ] + default_fields().map_values(|f: Seq<char>| (f, "def"@)) + seq![("colorize"@, "on"@)]
}

/// The models of several pairs of texts.
pub open spec fn str_pairs(v: Seq<(&'static str, &'static str)>) -> Seq<(Seq<char>, Seq<char>)> {
    v.map_values(|p: (&'static str, &'static str)| (p.0@, p.1@))
}

// ---------------------------------------------------------------------------
// Code
// ---------------------------------------------------------------------------

/// Reads one part of an address.
fn read_octet(s: &Vec<char>) -> (r: Option<u8>)
    ensures
        r == octet(s@),
{
    if s.len() < 1 || s.len() > 3 || (s.len() > 1 && s[0] == '0') || s[0] == '+' {
        proof {
            if s@.len() > 0 && s@[0] == '+' {
                lemma_digits_grow(s@, 10, 1);
                assert(s@.take(1).last() == '+');
                assert(digits_value(s@.take(1), 10) is None);
            }
        }
        return None;
    }
    assert(unsigned_digits(s@) == s@);
    match read_unsigned(s, 10, 255) {
        Some(n) => Some(n as u8),
        None => None,
    }
}

/// Reads an address.
pub fn parse_ip(text: &[char]) -> (r: Option<Ipv4>)
    ensures
        r == address(text@),
{
    proof {
        reveal_strlit(".");
    }
    let dot = chars_of(".");
    let parts = split_chars(text, &dot);
    let ghost all = split(text@, "."@);
    assert(views(parts@) == all);
    assert(all.len() == parts@.len());
    if parts.len() != 4 {
        return None;
    }
    assert(all[0] == parts@[0]@ && all[1] == parts@[1]@ && all[2] == parts@[2]@ && all[3]
        == parts@[3]@);
    match (read_octet(&parts[0]), read_octet(&parts[1]), read_octet(&parts[2]), read_octet(&parts[3])) {
        (Some(a), Some(b), Some(c), Some(d)) => Some(Ipv4 { a, b, c, d }),
        _ => None,
    }
}

/// The address as text.
pub fn ip_text(ip: Ipv4) -> (r: String)
    ensures
        r@ == ip.text(),
{
    let mut out = String::new();
    push_decimal(ip.a as u64, &mut out);
    out.append(".");
    push_decimal(ip.b as u64, &mut out);
    out.append(".");
    push_decimal(ip.c as u64, &mut out);
    out.append(".");
    push_decimal(ip.d as u64, &mut out);
    proof {
        lemma_text_of_parts(ip);
        assert(out@ =~= ip.text());
    }
    out
}

/// Reads the address in a cache file, of which the content is given where it could be read.
pub fn load_cached_ip(content: Option<&str>) -> (r: Option<Ipv4>)
    ensures
        r == cached_address(
            match content {
                Some(s) => Some(s@),
                None => None,
            },
        ),
{
    match content {
        Some(s) => {
            let chars = chars_of(s);
            parse_ip(trim_chars(&chars, CharClass::Whitespace))
        },
        None => None,
    }
}

/// The address to be used without asking anybody: that of the cache file, which is then
/// remembered, else the one in memory. Where there is none, the lookup has to be made.
pub fn known_ip(cache: &mut IpCache, content: Option<&str>) -> (r: Option<Ipv4>)
    ensures
        ({
            let on_file = cached_address(
                match content {
                    Some(s) => Some(s@),
                    None => None,
                },
            );
            &&& on_file is Some ==> r == on_file && final(cache).memory == on_file
            &&& on_file is None ==> r == old(cache).memory && final(cache).memory
                == old(cache).memory
            &&& r == usable_address(on_file, old(cache).memory)
            &&& final(cache).memory == r
        }),
{
    match load_cached_ip(content) {
        Some(ip) => {
            cache.memory = Some(ip);
            Some(ip)
        },
        None => cache.memory,
    }
}

/// Remembers the address that a lookup found.
pub fn remember_ip(cache: &mut IpCache, ip: Ipv4)
    ensures
        final(cache).memory == Some(ip),
{
    cache.memory = Some(ip);
}

/// The lookup form.
pub fn lookup_form() -> (r: Vec<(&'static str, &'static str)>)
    ensures
        str_pairs(r@) == lookup_fields(),
{
    let form: Vec<(&'static str, &'static str)> = vec![
        ("type", "A"),
        ("hostname", "z-library.sk"),
        ("nameserver", "public"),
        ("public", "8.8.8.8"),
        ("specify", ""),
        ("clientsubnet", ""),
        ("tcp", "def"),
        ("transport", "def"),
        ("mapped", "def"),
        ("nssearch", "def"),
        ("trace", "def"),
        ("recurse", "def"),
        ("edns", "def"),
        ("dnssec", "def"),
        ("subnet", "def"),
        ("cookie", "def"),
        ("all", "def"),
        ("cmd", "def"),
        ("question", "def"),
        ("answer", "def"),
        ("authority", "def"),
        ("additional", "def"),
        ("comments", "def"),
        ("stats", "def"),
        ("multiline", "def"),
        ("short", "def"),
        ("colorize", "on"),
    ];
    assert(str_pairs(form@) =~= lookup_fields());
    form
}

/// Reads the address off a lookup page.
pub fn parse_lookup(body: &str) -> (r: Option<Ipv4>)
    ensures
        r == answered_address(body@),
{
    match match_group(ANSWER_PATTERN, body) {
        Some(s) => {
            let chars = chars_of(s.as_str());
            parse_ip(&chars)
        },
        None => None,
    }
}

/// What a lookup reports, given its page where one came back.
pub fn lookup_outcome(body: Option<&str>) -> (r: Result<Ipv4, String>)
    ensures
        match body {
            Some(s) => match answered_address(s@) {
                Some(ip) => r == Ok::<Ipv4, String>(ip),
                None => r matches Err(m) && m@ == "diggui 解析失败"@,
            },
            None => r matches Err(m) && m@ == "diggui 解析失败"@,
        },
{
    if let Some(s) = body {
        if let Some(ip) = parse_lookup(s) {
            return Ok(ip);
        }
    }
    Err("diggui 解析失败".to_string())
}

// ---------------------------------------------------------------------------
// Laws
// ---------------------------------------------------------------------------

/// A number below 256 is read back as a part of an address.
proof fn lemma_octet_reads_back(n: u8)
    ensures
        octet(decimal(n as nat)) == Some(n),
        !decimal(n as nat).contains('.'),
{
    let s = decimal(n as nat);
    law_decimal_reads_back(n as nat, 255);
    lemma_decimal_is_digits(n as nat);
    if n < 10 {
        assert(s.len() == 1);
    } else if n < 100 {
        assert(decimal((n / 10) as nat) =~= seq![digit_char((n / 10) as nat)]);
        assert(s.len() == 2);
    } else {
        assert(decimal((n / 100) as nat) =~= seq![digit_char((n / 100) as nat)]);
        assert(n / 10 / 10 == n / 100);
        assert(decimal((n / 10) as nat).len() == 2);
        assert(decimal((n / 10) as nat)[0] == digit_char((n / 100) as nat));
        assert(s.len() == 3);
        assert(s[0] == digit_char((n / 100) as nat));
    }
    assert forall|i: int| 0 <= i < s.len() implies s[i] != '.' by {
        assert('0' <= s[i]);
    }
}

/// The text of an address is its four parts with points between them.
proof fn lemma_text_of_parts(ip: Ipv4)
    ensures
        ip.text() == ip.parts()[0] + "."@ + (ip.parts()[1] + "."@ + (ip.parts()[2] + "."@
            + ip.parts()[3])),
{
    let p = ip.parts();
    let dot = "."@;
    assert(p.skip(1).skip(1).skip(1) =~= seq![p[3]]);
    assert(p.skip(1).skip(1).len() == 2 && p.skip(1).skip(1)[0] == p[2]);
    assert(p.skip(1).len() == 3 && p.skip(1)[0] == p[1]);
    assert(join(p.skip(1).skip(1).skip(1), dot) == p[3]);
    assert(join(p.skip(1).skip(1), dot) == p[2] + dot + p[3]);
    assert(join(p.skip(1), dot) == p[1] + dot + (p[2] + dot + p[3]));
}

/// An address that is written is read back as itself, also from a cache file.
pub proof fn law_address_reads_back(ip: Ipv4)
    ensures
        address(ip.text()) == Some(ip),
        cached_address(Some(ip.text())) == Some(ip),
{
    reveal_strlit(".");
    let dot = "."@;
    let parts = ip.parts();
    assert(dot =~= seq!['.']);
    lemma_octet_reads_back(ip.a);
    lemma_octet_reads_back(ip.b);
    lemma_octet_reads_back(ip.c);
    lemma_octet_reads_back(ip.d);
    assert forall|k: int| 0 <= k < parts.len() implies find(#[trigger] parts[k], dot) is None by {
        lemma_find_single(parts[k], '.');
    }
    law_split_of_join(parts, dot);
    let s = ip.text();
    lemma_decimal_is_digits(ip.a as nat);
    lemma_decimal_is_digits(ip.d as nat);
    lemma_text_of_parts(ip);
    assert(s[0] == parts[0][0]);
    assert('0' <= parts[0][0] <= '9');
    assert(s.last() == parts[3].last());
    assert('0' <= parts[3][parts[3].len() - 1] <= '9');
    assert(trim_start(s, CharClass::Whitespace) == s);
    assert(trim_end(s, CharClass::Whitespace) == s);
}

/// An address is written as its four numbers in their order, with points between them.
pub proof fn law_address_text(ip: Ipv4)
    ensures
        ip.text() == decimal(ip.a as nat) + "."@ + decimal(ip.b as nat) + "."@ + decimal(
            ip.c as nat,
        ) + "."@ + decimal(ip.d as nat),
{
    lemma_text_of_parts(ip);
    assert(ip.text() =~= decimal(ip.a as nat) + "."@ + decimal(ip.b as nat) + "."@ + decimal(
        ip.c as nat,
    ) + "."@ + decimal(ip.d as nat));
}

/// Digits without a leading zero are the decimal form of their value.
proof fn lemma_digits_are_decimal(s: Seq<char>)
    requires
        s.len() > 0,
        s.len() > 1 ==> s[0] != '0',
        digits_value(s, 10) is Some,
    ensures
        s == decimal(digits_value(s, 10)->0),
    decreases s.len(),
{
    let n = digits_value(s, 10)->0;
    let front = s.drop_last();
    assert(digits_value(front, 10) is Some && digit_value(s.last(), 10) is Some);
    let low = digit_value(s.last(), 10)->0;
    law_decimal_digits(s.last(), 0);
    law_decimal_digits(s.last(), low as int);
    law_decimal_places(0, low);
    assert(decimal(low)[0] == s.last());
    if s.len() == 1 {
        assert(front =~= Seq::<char>::empty());
        assert(digits_value(Seq::<char>::empty(), 10) == Some(0nat));
        assert(s =~= decimal(n));
    } else {
        assert(front[0] == s[0]);
        let high = digits_value(front, 10)->0;
        lemma_digits_grow(front, 10, 1);
        let first = front.take(1);
        assert(first.drop_last() =~= Seq::<char>::empty());
        assert(digits_value(Seq::<char>::empty(), 10) == Some(0nat));
        assert(first.last() == s[0]);
        assert(digits_value(first, 10) is Some && digit_value(s[0], 10) is Some);
        law_decimal_digits(s[0], 0);
        reveal_strlit("0123456789");
        assert(digit_value(s[0], 10)->0 > 0);
        assert(digits_value(first, 10)->0 == digit_value(s[0], 10)->0);
        assert(high > 0);
        lemma_digits_are_decimal(front);
        assert(n / 10 == high && n % 10 == low);
        assert(s =~= front.push(s.last()));
    }
}

/// A text is read as an address only where it is the address written out: no other digits,
/// signs, blanks or leading zeros are taken for one.
pub proof fn law_only_written_addresses_are_read(s: Seq<char>, ip: Ipv4)
    ensures
        address(s) == Some(ip) <==> s == ip.text(),
{
    law_address_reads_back(ip);
    if address(s) == Some(ip) {
        let parts = split(s, "."@);
        lemma_digits_are_decimal(parts[0]);
        lemma_digits_are_decimal(parts[1]);
        lemma_digits_are_decimal(parts[2]);
        lemma_digits_are_decimal(parts[3]);
        assert(parts =~= ip.parts());
        law_join_of_split(s, "."@);
    }
}

/// A cache file may hold white space around the address, and nothing else.
pub proof fn law_cache_file_is_trimmed(p: Seq<char>, ip: Ipv4, q: Seq<char>)
    requires
        forall|i: int| 0 <= i < p.len() ==> is_whitespace(#[trigger] p[i]),
        forall|i: int| 0 <= i < q.len() ==> is_whitespace(#[trigger] q[i]),
    ensures
        cached_address(Some(p + ip.text() + q)) == Some(ip),
        cached_address(None) is None,
{
    law_address_reads_back(ip);
    law_address_text(ip);
    lemma_decimal_is_digits(ip.a as nat);
    lemma_decimal_is_digits(ip.d as nat);
    let s = ip.text();
    assert(s[0] == decimal(ip.a as nat)[0]);
    assert('0' <= decimal(ip.a as nat)[0] <= '9');
    let last = decimal(ip.d as nat);
    assert(s.last() == last[last.len() - 1]);
    assert('0' <= last[last.len() - 1] <= '9');
    law_trim(p, s, q, CharClass::Whitespace);
}

/// The address that a lookup page shows is the answer, number for number.
pub proof fn law_shown_address_is_the_answer(body: Seq<char>, ip: Ipv4)
    requires
        first_group(ANSWER_PATTERN@, body) == Some(ip.text()),
    ensures
        answered_address(body) == Some(ip),
{
    law_address_reads_back(ip);
}

/// The lookup asks a public name server for the type A record of the site, and leaves all
/// else at its default.
pub proof fn law_lookup_asks_for_the_site()
    ensures
        lookup_fields().take(6) == seq![
            ("type"@, "A"@),
            ("hostname"@, ORIGIN_DOMAIN@),
            ("nameserver"@, "public"@),
            ("public"@, "8.8.8.8"@),
            ("specify"@, ""@),
            ("clientsubnet"@, ""@),
        ],
        lookup_fields().len() == 27,
        forall|i: int| 6 <= i < 26 ==> (#[trigger] lookup_fields()[i]).1 == "def"@,
        lookup_fields()[26] == ("colorize"@, "on"@),
        lookup_fields().subrange(6, 26).map_values(|f: (Seq<char>, Seq<char>)| f.0) == seq![
            "tcp"@,
            "transport"@,
            "mapped"@,
            "nssearch"@,
            "trace"@,
            "recurse"@,
            "edns"@,
            "dnssec"@,
            "subnet"@,
            "cookie"@,
            "all"@,
            "cmd"@,
            "question"@,
            "answer"@,
            "authority"@,
            "additional"@,
            "comments"@,
            "stats"@,
            "multiline"@,
            "short"@,
        ],
{
    assert(lookup_fields().take(6) =~= seq![
        ("type"@, "A"@),
        ("hostname"@, ORIGIN_DOMAIN@),
        ("nameserver"@, "public"@),
        ("public"@, "8.8.8.8"@),
        ("specify"@, ""@),
        ("clientsubnet"@, ""@),
    ]);
    assert(lookup_fields().subrange(6, 26).map_values(|f: (Seq<char>, Seq<char>)| f.0)
        =~= default_fields());
}

/// The lookup is made at one place and under one name, and its answer is the address that
/// stands behind the record of the site.
pub proof fn law_where_the_address_is_looked_up()
    ensures
        LOOKUP_URL@ == "https://www.diggui.com/"@,
        LOOKUP_AGENT@ == "Mozilla/5.0 (Windows NT 10.0; Win64; x64) AppleWebKit/537.36 (KHTML, like Gecko) Chrome/137.0.0.0 Safari/537.36"@,
        ANSWER_PATTERN@ == r#"z-library\.sk\.</a>\s+<span[^>]*>\d+</span>\s+<span[^>]*>IN</span>\s+<a[^>]*>A</a>\s+<a[^>]*>([0-9]{1,3}\.[0-9]{1,3}\.[0-9]{1,3}\.[0-9]{1,3})</a>"#@,
{
}

/// The address on file goes before the one in memory, which is used where the file gives
/// none; without either there is none.
pub proof fn law_file_goes_before_memory(ip: Ipv4, other: Option<Ipv4>)
    ensures
        usable_address(Some(ip), other) == Some(ip),
        usable_address(None, other) == other,
{
}

} // verus!
